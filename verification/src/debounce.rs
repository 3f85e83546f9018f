//! When a completion is asked for while the user types.
use vstd::prelude::*;

verus! {

/// How many milliseconds without typing are a while.
pub const PAUSE_MILLIS: u64 = 300;

/// What introduces the text that was typed, until the user changes it.
pub const COMPLETION_PROMPT: &'static str =
    "For the personal conversational transcript above, here is a coaching prompt:";

/// What happened.
#[derive(Debug)]
pub enum Event {
    /// The user typed; this is the whole text now.
    Typed(String),
    /// Nothing was typed for a while: for `PAUSE_MILLIS`.
    Quiet,
    /// Nothing will be typed any more.
    Closed,
}

/// What to do about it.
#[derive(Debug)]
pub enum Reaction {
    /// Stop the completion that is under way, and clear what it brought.
    Cancel,
    /// Ask for a completion of this prompt, in place of the one under way.
    Complete(String),
    /// Nothing.
    Wait,
    /// Stop listening.
    Stop,
}

/// What is remembered between events.
#[derive(Debug)]
pub struct Debounce {
    pub keys_pressed: bool,
    pub text: String,
}

/// The event, with what was typed.
pub enum Happening {
    Typed(Seq<char>),
    Quiet,
    Closed,
}

/// The reaction, with the prompt.
pub enum Response {
    Cancel,
    Complete(Seq<char>),
    Wait,
    Stop,
}

impl View for Event {
    type V = Happening;

    open spec fn view(&self) -> Happening {
        match *self {
            Event::Typed(text) => Happening::Typed(text@),
            Event::Quiet => Happening::Quiet,
            Event::Closed => Happening::Closed,
        }
    }
}

impl View for Reaction {
    type V = Response;

    open spec fn view(&self) -> Response {
        match *self {
            Reaction::Cancel => Response::Cancel,
            Reaction::Complete(prompt) => Response::Complete(prompt@),
            Reaction::Wait => Response::Wait,
            Reaction::Stop => Response::Stop,
        }
    }
}

/// Whether something was typed that no completion was asked for yet, and the
/// text.
pub struct Memory {
    pub keys_pressed: bool,
    pub text: Seq<char>,
}

impl View for Debounce {
    type V = Memory;

    open spec fn view(&self) -> Memory {
        Memory { keys_pressed: self.keys_pressed, text: self.text@ }
    }
}

/// What an event leads to.
pub open spec fn reacted(
    memory: Memory,
    event: Happening,
    completion_prompt: Seq<char>,
) -> (Memory, Response) {
    match event {
        Happening::Typed(text) => (Memory { keys_pressed: true, text }, Response::Cancel),
        Happening::Quiet => if memory.keys_pressed && memory.text.len() > 0 {
            (
                Memory { keys_pressed: false, text: memory.text },
                Response::Complete(completion_prompt + " "@ + memory.text),
            )
        } else {
            (memory, Response::Wait)
        },
        Happening::Closed => (memory, Response::Stop),
    }
}

impl Debounce {
    /// Nothing was typed yet.
    pub fn new() -> (r: Debounce)
        ensures
            !r@.keys_pressed,
            r@.text == Seq::<char>::empty(),
            !r.keys_pressed,
            r.text@ == Seq::<char>::empty(),
    {
        Debounce { keys_pressed: false, text: String::new() }
    }

    /// Reacts to an event, where `completion_prompt` introduces what was typed.
    pub fn react(&mut self, event: Event, completion_prompt: &str) -> (r: Reaction)
        ensures
            (final(self)@, r@) == reacted(old(self)@, event@, completion_prompt@),
            match event {
                Event::Typed(text) => {
                    &&& r is Cancel
                    &&& final(self).keys_pressed
                    &&& final(self).text@ == text@
                },
                Event::Quiet => {
                    &&& final(self).text@ == old(self).text@
                    &&& if old(self).keys_pressed && old(self).text@.len() > 0 {
                        &&& r matches Reaction::Complete(prompt)
                        &&& prompt@ == completion_prompt@ + " "@ + old(self).text@
                        &&& !final(self).keys_pressed
                    } else {
                        &&& r is Wait
                        &&& final(self).keys_pressed == old(self).keys_pressed
                    }
                },
                Event::Closed => {
                    &&& r is Stop
                    &&& final(self).keys_pressed == old(self).keys_pressed
                    &&& final(self).text@ == old(self).text@
                },
            },
    {
        match event {
            Event::Typed(text) => {
                self.text = text;
                self.keys_pressed = true;
                Reaction::Cancel
            },
            Event::Quiet => {
                if self.keys_pressed && !self.text.as_str().is_empty() {
                    let mut prompt = completion_prompt.to_owned();
                    prompt.append(" ");
                    prompt.append(self.text.as_str());
                    self.keys_pressed = false;
                    Reaction::Complete(prompt)
                } else {
                    Reaction::Wait
                }
            },
            Event::Closed => Reaction::Stop,
        }
    }
}

/// What was reacted to a run of events, one after the other.
pub open spec fn reactions(
    memory: Memory,
    events: Seq<Happening>,
    completion_prompt: Seq<char>,
) -> (Memory, Seq<Response>)
    decreases events.len(),
{
    if events.len() == 0 {
        (memory, Seq::empty())
    } else {
        let (before, so_far) = reactions(memory, events.drop_last(), completion_prompt);
        let (after, response) = reacted(before, events.last(), completion_prompt);
        (after, so_far.push(response))
    }
}

/// However long it stays quiet after the user typed, a completion is asked for
/// once, when it first gets quiet, and of the last text; of an empty text none is
/// asked for.
pub proof fn law_one_completion_per_pause(
    memory: Memory,
    text: Seq<char>,
    quiet: Seq<Happening>,
    completion_prompt: Seq<char>,
)
    requires
        forall|k: int| #![trigger quiet[k]] 0 <= k < quiet.len() ==> quiet[k] is Quiet,
    ensures
        ({
            let typed = reacted(memory, Happening::Typed(text), completion_prompt).0;
            let responses = reactions(typed, quiet, completion_prompt).1;
            &&& responses.len() == quiet.len()
            &&& forall|k: int| #![trigger responses[k]]
                0 <= k < responses.len() ==> responses[k] == if k == 0 && text.len() > 0 {
                    Response::Complete(completion_prompt + " "@ + text)
                } else {
                    Response::Wait
                }
        }),
{
    let typed = reacted(memory, Happening::Typed(text), completion_prompt).0;
    lemma_quiet(typed, text, quiet, completion_prompt);
}

proof fn lemma_quiet(
    typed: Memory,
    text: Seq<char>,
    quiet: Seq<Happening>,
    completion_prompt: Seq<char>,
)
    requires
        typed == (Memory { keys_pressed: true, text }),
        forall|k: int| #![trigger quiet[k]] 0 <= k < quiet.len() ==> quiet[k] is Quiet,
    ensures
        ({
            let (after, responses) = reactions(typed, quiet, completion_prompt);
            &&& after == (Memory { keys_pressed: quiet.len() == 0 || text.len() == 0, text })
            &&& responses.len() == quiet.len()
            &&& forall|k: int| #![trigger responses[k]]
                0 <= k < responses.len() ==> responses[k] == if k == 0 && text.len() > 0 {
                    Response::Complete(completion_prompt + " "@ + text)
                } else {
                    Response::Wait
                }
        }),
    decreases quiet.len(),
{
    if quiet.len() > 0 {
        let before = quiet.drop_last();
        assert forall|k: int| #![trigger before[k]] 0 <= k < before.len() implies before[k]
            is Quiet by {
            assert(quiet[k] is Quiet);
        }
        assert(quiet[quiet.len() - 1] is Quiet);
        lemma_quiet(typed, text, before, completion_prompt);
    }
}

/// Whatever is remembered, typing cancels the completion under way, and is
/// remembered as what was typed last and is not completed yet.
pub proof fn law_typing_cancels(memory: Memory, text: Seq<char>, completion_prompt: Seq<char>)
    ensures
        ({
            let (after, response) = reacted(memory, Happening::Typed(text), completion_prompt);
            &&& response is Cancel
            &&& after.keys_pressed
            &&& after.text == text
        }),
{
}

/// Whatever is remembered, the listening stops where nothing will be typed any
/// more.
pub proof fn law_closing_stops(memory: Memory, completion_prompt: Seq<char>)
    ensures
        reacted(memory, Happening::Closed, completion_prompt).1 is Stop,
        reacted(memory, Happening::Closed, completion_prompt).0 == memory,
{
}

/// Quiet leads to nothing but a completion of what was typed last, and to that
/// only if something was typed that no completion was asked for yet and that is
/// not empty. What was typed stays remembered.
pub proof fn law_quiet_completes_what_was_typed(memory: Memory, completion_prompt: Seq<char>)
    ensures
        ({
            let (after, response) = reacted(memory, Happening::Quiet, completion_prompt);
            &&& after.text == memory.text
            &&& response is Complete <==> memory.keys_pressed && memory.text.len() > 0
            &&& response is Complete || response is Wait
            &&& response matches Response::Complete(prompt) ==> {
                &&& prompt.len() == completion_prompt.len() + 1 + memory.text.len()
                &&& prompt.take(completion_prompt.len() as int) == completion_prompt
                &&& prompt[completion_prompt.len() as int] == ' '
                &&& prompt.skip(completion_prompt.len() as int + 1) == memory.text
                &&& !after.keys_pressed
            }
            &&& response is Wait ==> after == memory
        }),
{
    reveal_strlit(" ");
    let prompt = completion_prompt + " "@ + memory.text;
    assert(prompt.take(completion_prompt.len() as int) =~= completion_prompt);
    assert(prompt.skip(completion_prompt.len() as int + 1) =~= memory.text);
}

/// Of any run of events, it is exactly the typing that cancels and exactly the
/// closing that stops. A completion is asked for exactly where it gets quiet right
/// after something was typed that is not empty; where it was quiet before, nothing
/// more is asked for.
pub proof fn law_reactions_to_a_run(
    memory: Memory,
    events: Seq<Happening>,
    completion_prompt: Seq<char>,
    k: int,
)
    requires
        0 <= k < events.len(),
    ensures
        ({
            let responses = reactions(memory, events, completion_prompt).1;
            &&& responses.len() == events.len()
            &&& responses[k] is Cancel <==> events[k] is Typed
            &&& responses[k] is Stop <==> events[k] is Closed
            &&& k > 0 && events[k] is Quiet ==> match events[k - 1] {
                Happening::Typed(text) => if text.len() > 0 {
                    responses[k] == Response::Complete(completion_prompt + " "@ + text)
                } else {
                    responses[k] is Wait
                },
                Happening::Quiet => responses[k] is Wait,
                Happening::Closed => responses[k] is Complete || responses[k] is Wait,
            }
        }),
    decreases events.len(),
{
    let before = events.drop_last();
    let (so_far, answers) = reactions(memory, before, completion_prompt);
    let (after, answer) = reacted(so_far, events.last(), completion_prompt);
    assert(reactions(memory, events, completion_prompt) == (after, answers.push(answer)));
    if before.len() > 0 {
        law_reactions_to_a_run(memory, before, completion_prompt, before.len() - 1);
    }
    if k < before.len() {
        law_reactions_to_a_run(memory, before, completion_prompt, k);
        assert(before[k] == events[k]);
        if k > 0 {
            assert(before[k - 1] == events[k - 1]);
        }
    } else if k > 0 {
        let earlier = reactions(memory, before.drop_last(), completion_prompt).0;
        assert(before.last() == events[k - 1]);
        assert(so_far == reacted(earlier, before.last(), completion_prompt).0);
    }
}

} // verus!
