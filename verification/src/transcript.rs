//! The transcript of a conversation.
use vstd::prelude::*;

verus! {

/// A word that was heard, live or in a recording, and who said it.
#[derive(Debug)]
#[allow(inconsistent_fields)]
pub enum Word {
    Live { speaker: usize, word: String },
    /// The speaker is known only if speakers were told apart.
    Prerecorded { speaker: Option<usize>, word: String },
}

impl Word {
    /// Whether it is known who said the word.
    pub open spec fn attributed(&self) -> bool {
        match *self {
            Word::Live { speaker, word } => true,
            Word::Prerecorded { speaker, word } => speaker is Some,
        }
    }

    /// Who said the word.
    pub open spec fn said_by(&self) -> usize {
        match *self {
            Word::Live { speaker, word } => speaker,
            Word::Prerecorded { speaker, word } => speaker->0,
        }
    }

    /// The word itself.
    pub open spec fn text(&self) -> Seq<char> {
        match *self {
            Word::Live { speaker, word } => word@,
            Word::Prerecorded { speaker, word } => word@,
        }
    }

    /// Who said the word.
    pub fn speaker(&self) -> (r: usize)
        requires
            self.attributed(),
        ensures
            r == self.said_by(),
    {
        match self {
            Word::Live { speaker, word } => *speaker,
            Word::Prerecorded { speaker, word } => speaker.unwrap(),
        }
    }

    /// The word itself.
    pub fn word(&self) -> (r: &str)
        ensures
            r@ == self.text(),
    {
        match self {
            Word::Live { speaker, word } => word.as_str(),
            Word::Prerecorded { speaker, word } => word.as_str(),
        }
    }
}

/// The number that stands for the speaker at the start of a line, where nobody
/// has spoken yet.
pub const NOBODY: usize = 100;

/// Every word has a speaker. A `None` ends a line.
pub open spec fn all_attributed(words: Seq<Option<Word>>) -> bool {
    forall|k: int| #![trigger words[k]]
        0 <= k < words.len() && words[k] is Some ==> words[k]->0.attributed()
}

/// Who was speaking before the word at `k`: whoever said the word before it, or
/// nobody, at the start of a line.
pub open spec fn speaker_before(words: Seq<Option<Word>>, k: int) -> usize {
    if k == 0 || words[k - 1] is None {
        NOBODY
    } else {
        words[k - 1]->0.said_by()
    }
}

/// The name of a speaker; it is empty for one that has none.
pub open spec fn name_of(names: Seq<String>, speaker: usize) -> Seq<char> {
    if speaker < names.len() {
        names[speaker as int]@
    } else {
        Seq::empty()
    }
}

/// What the transcript says of the word at `k`: a heading where the speaker
/// changes, then the word and a space. The end of a line says nothing.
pub open spec fn entry(names: Seq<String>, words: Seq<Option<Word>>, k: int) -> Seq<char> {
    match words[k] {
        Some(word) => {
            let heading = if word.said_by() != speaker_before(words, k) {
                "\n["@ + name_of(names, word.said_by()) + "]: "@
            } else {
                Seq::empty()
            };
            heading + word.text() + " "@
        },
        None => Seq::empty(),
    }
}

/// What the transcript says of the first `len` words.
pub open spec fn entries(names: Seq<String>, words: Seq<Option<Word>>, len: int) -> Seq<char>
    decreases len,
{
    if len <= 0 {
        Seq::empty()
    } else {
        entries(names, words, len - 1) + entry(names, words, len - 1)
    }
}

/// The transcript of the words.
pub open spec fn transcript_of(names: Seq<String>, words: Seq<Option<Word>>) -> Seq<char> {
    entries(names, words, words.len() as int) + "\n"@
}

/// The transcript of the words: their entries, and a line feed.
pub fn get_transcript(speaker_names: &Vec<String>, words: &Vec<Option<Word>>) -> (r: String)
    requires
        all_attributed(words@),
    ensures
        r@ == entries(speaker_names@, words@, words@.len() as int) + "\n"@,
        r@ == transcript_of(speaker_names@, words@),
{
    let mut transcript = String::new();
    let mut current_speaker: usize = NOBODY;
    let mut k: usize = 0;
    while k < words.len()
        invariant
            k <= words@.len(),
            all_attributed(words@),
            transcript@ == entries(speaker_names@, words@, k as int),
            current_speaker == speaker_before(words@, k as int),
        decreases words@.len() - k,
    {
        let ghost before = transcript@;
        match &words[k] {
            Some(word) => {
                assert(words@[k as int]->0.attributed());
                let speaker = word.speaker();
                if speaker != current_speaker {
                    current_speaker = speaker;
                    transcript.append("\n[");
                    if current_speaker < speaker_names.len() {
                        transcript.append(speaker_names[current_speaker].as_str());
                    }
                    transcript.append("]: ");
                }
                transcript.append(word.word());
                transcript.append(" ");
            },
            None => {
                current_speaker = NOBODY;
            },
        }
        assert(transcript@ =~= before + entry(speaker_names@, words@, k as int));
        k = k + 1;
    }
    transcript.append("\n");
    transcript
}

/// Lines do not depend on each other: what stands before the end of a line and
/// what stands after it are transcribed as if alone.
pub proof fn law_lines_are_independent(
    names: Seq<String>,
    before: Seq<Option<Word>>,
    after: Seq<Option<Word>>,
)
    ensures
        ({
            let whole = before.push(None) + after;
            entries(names, whole, whole.len() as int) == entries(
                names,
                before,
                before.len() as int,
            ) + entries(names, after, after.len() as int)
        }),
{
    let whole = before.push(None) + after;
    lemma_entries_kept(names, before, whole, before.len() as int);
    assert(whole[before.len() as int] is None);
    lemma_entries_follow(names, before, after, after.len() as int);
}

proof fn lemma_entries_kept(
    names: Seq<String>,
    before: Seq<Option<Word>>,
    whole: Seq<Option<Word>>,
    len: int,
)
    requires
        before.is_prefix_of(whole),
        0 <= len <= before.len(),
    ensures
        entries(names, whole, len) == entries(names, before, len),
    decreases len,
{
    if len > 0 {
        lemma_entries_kept(names, before, whole, len - 1);
        assert(whole[len - 1] == before[len - 1]);
        if len > 1 {
            assert(whole[len - 2] == before[len - 2]);
        }
    }
}

proof fn lemma_entries_follow(
    names: Seq<String>,
    before: Seq<Option<Word>>,
    after: Seq<Option<Word>>,
    len: int,
)
    requires
        0 <= len <= after.len(),
    ensures
        entries(names, before.push(None) + after, before.len() + 1 + len) == entries(
            names,
            before,
            before.len() as int,
        ) + entries(names, after, len),
    decreases len,
{
    let whole = before.push(None) + after;
    let start = before.len() + 1;
    if len > 0 {
        lemma_entries_follow(names, before, after, len - 1);
        assert(whole[start + len - 1] == after[len - 1]);
        if len > 1 {
            assert(whole[start + len - 2] == after[len - 2]);
        } else {
            assert(whole[start - 1] is None);
        }
        assert(entry(names, whole, start + len - 1) == entry(names, after, len - 1));
    } else {
        lemma_entries_kept(names, before, whole, before.len() as int);
        assert(whole[start - 1] is None);
        assert(entries(names, whole, start as int) == entries(names, whole, start - 1) + entry(
            names,
            whole,
            start - 1,
        ));
    }
}

/// Of two words that follow each other in a line, the second one stands under a
/// heading of its own, with the name of its speaker, exactly if the speakers
/// differ. It is followed by a space.
pub proof fn law_heading_where_the_speaker_changes(
    names: Seq<String>,
    before: Seq<Option<Word>>,
    first: Word,
    first_speaker: usize,
    second: Word,
    second_speaker: usize,
    text: String,
)
    requires
        first matches Word::Live { speaker, .. } ==> speaker == first_speaker,
        first matches Word::Prerecorded { speaker, .. } ==> speaker == Some(first_speaker),
        second == (Word::Live { speaker: second_speaker, word: text }) || second == (
        Word::Prerecorded { speaker: Some(second_speaker), word: text }),
    ensures
        ({
            let so_far = before.push(Some(first));
            let all = so_far.push(Some(second));
            entries(names, all, all.len() as int) == entries(names, so_far, so_far.len() as int)
                + (if first_speaker == second_speaker {
                Seq::<char>::empty()
            } else if second_speaker < names.len() {
                "\n["@ + names[second_speaker as int]@ + "]: "@
            } else {
                "\n["@ + "]: "@
            }) + text@ + " "@
        }),
{
    let so_far = before.push(Some(first));
    let all = so_far.push(Some(second));
    lemma_entries_kept(names, so_far, all, so_far.len() as int);
    assert(all[all.len() - 1] == Some(second));
    assert(all[all.len() - 2] == Some(first));
    if second_speaker >= names.len() {
        assert("\n["@ + Seq::<char>::empty() + "]: "@ =~= "\n["@ + "]: "@);
    }
    let heading = if first_speaker == second_speaker {
        Seq::<char>::empty()
    } else {
        "\n["@ + name_of(names, second_speaker) + "]: "@
    };
    let start = entries(names, so_far, so_far.len() as int);
    assert(start + (heading + text@ + " "@) =~= start + heading + text@ + " "@);
}

/// The first word of a line, which is the first word of all or follows the end of
/// a line, stands under a heading with the name of its speaker, whatever was said
/// before. Only the number that stands for nobody gets none.
pub proof fn law_heading_at_the_start_of_a_line(
    names: Seq<String>,
    before: Seq<Option<Word>>,
    word: Word,
    speaker: usize,
    text: String,
)
    requires
        before.len() == 0 || before.last() is None,
        word == (Word::Live { speaker, word: text }) || word == (Word::Prerecorded {
            speaker: Some(speaker),
            word: text,
        }),
    ensures
        ({
            let all = before.push(Some(word));
            entries(names, all, all.len() as int) == entries(names, before, before.len() as int)
                + (if speaker == 100 {
                Seq::<char>::empty()
            } else if speaker < names.len() {
                "\n["@ + names[speaker as int]@ + "]: "@
            } else {
                "\n["@ + "]: "@
            }) + text@ + " "@
        }),
{
    let all = before.push(Some(word));
    lemma_entries_kept(names, before, all, before.len() as int);
    assert(all[all.len() - 1] == Some(word));
    if before.len() > 0 {
        assert(all[all.len() - 2] == before.last());
    }
    if speaker >= names.len() {
        assert("\n["@ + Seq::<char>::empty() + "]: "@ =~= "\n["@ + "]: "@);
    }
    let heading = if speaker == 100 {
        Seq::<char>::empty()
    } else {
        "\n["@ + name_of(names, speaker) + "]: "@
    };
    let start = entries(names, before, before.len() as int);
    assert(start + (heading + text@ + " "@) =~= start + heading + text@ + " "@);
}

/// Nothing is said where there are no words, and the end of a line says nothing.
pub proof fn law_ends_of_lines_say_nothing(names: Seq<String>, before: Seq<Option<Word>>)
    ensures
        entries(names, Seq::<Option<Word>>::empty(), 0) == Seq::<char>::empty(),
        entries(names, before.push(None), before.len() as int + 1) == entries(
            names,
            before,
            before.len() as int,
        ),
{
    let all = before.push(None);
    lemma_entries_kept(names, before, all, before.len() as int);
    assert(all[all.len() - 1] is None);
}

/// Every word has a speaker, but for one of a recording in which speakers were not
/// told apart.
pub proof fn law_only_recordings_lack_speakers(words: Seq<Option<Word>>)
    ensures
        all_attributed(words) <==> forall|k: int| #![trigger words[k]]
            0 <= k < words.len() ==> match words[k] {
                Some(Word::Prerecorded { speaker, .. }) => speaker is Some,
                _ => true,
            },
{
}

/// A transcript is what it says of the words, and one line feed at the end.
pub proof fn law_transcript_ends_in_a_line_feed(names: Seq<String>, words: Seq<Option<Word>>)
    ensures
        transcript_of(names, words).len() > 0,
        transcript_of(names, words).last() == '\n',
        transcript_of(names, words).drop_last() == entries(names, words, words.len() as int),
{
    reveal_strlit("\n");
    assert(transcript_of(names, words).drop_last() =~= entries(
        names,
        words,
        words.len() as int,
    ));
}

} // verus!
