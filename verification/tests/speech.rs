use ace::capture::{first_channel_bytes, Recording};
use ace::playback::{frames_in, process_frame, waveform_at, Harmonics, Waveform};
use ace::transcript::{get_transcript, Word};
use bytes::Bytes;

fn live(speaker: usize, word: &str) -> Option<Word> {
    Some(Word::Live { speaker, word: word.to_string() })
}

fn prerecorded(speaker: usize, word: &str) -> Option<Word> {
    Some(Word::Prerecorded { speaker: Some(speaker), word: word.to_string() })
}

fn names() -> Vec<String> {
    vec!["Ann".to_string(), "Bob".to_string()]
}

#[test]
fn empty_transcript_is_a_line_feed() {
    assert_eq!(get_transcript(&names(), &vec![]), "\n");
}

#[test]
fn heading_where_the_speaker_changes() {
    let words = vec![live(0, "hello"), live(0, "there"), prerecorded(1, "hi")];
    assert_eq!(get_transcript(&names(), &words), "\n[Ann]: hello there \n[Bob]: hi \n");
}

#[test]
fn new_line_repeats_the_heading() {
    let words = vec![live(0, "one"), None, live(0, "two")];
    assert_eq!(get_transcript(&names(), &words), "\n[Ann]: one \n[Ann]: two \n");
}

#[test]
fn speaker_without_a_name() {
    let words = vec![live(5, "what")];
    assert_eq!(get_transcript(&names(), &words), "\n[]: what \n");
}

#[test]
fn speaker_number_that_stands_for_nobody_gets_no_heading() {
    let words = vec![live(100, "ghost"), live(0, "boo"), live(100, "again")];
    assert_eq!(get_transcript(&names(), &words), "ghost \n[Ann]: boo \n[]: again \n");
}

#[test]
fn words_know_their_speaker() {
    let word = Word::Prerecorded { speaker: Some(4), word: "w".to_string() };
    assert_eq!(word.speaker(), 4);
    assert_eq!(word.word(), "w");
    let word = Word::Live { speaker: 2, word: "v".to_string() };
    assert_eq!(word.speaker(), 2);
    assert_eq!(word.word(), "v");
}

#[test]
fn samples_are_little_endian() {
    let bytes = first_channel_bytes(&[0x0809, -1, i16::MIN], 1);
    assert_eq!(&bytes[..], &[0x09, 0x08, 0xff, 0xff, 0x00, 0x80]);
}

#[test]
fn only_the_first_channel_is_kept() {
    let bytes = first_channel_bytes(&[1, 2, 3, 4, 5], 2);
    assert_eq!(&bytes[..], &[1, 0, 3, 0, 5, 0]);
    assert_eq!(first_channel_bytes(&[], 2).len(), 0);
    assert_eq!(&first_channel_bytes(&[7, 8], 5)[..], &[7, 0]);
}

#[test]
fn recording_is_handed_out_when_full() {
    let mut recording = Recording::new();
    assert!(recording.receive(&Bytes::from(vec![1u8; 60_000])).is_none());
    assert!(recording.receive(&Bytes::from(vec![2u8; 40_000])).is_none());
    let full = recording.receive(&Bytes::from(vec![3u8; 1])).unwrap();
    assert_eq!(full.len(), 100_001);
    assert_eq!((full[0], full[59_999], full[60_000], full[100_000]), (1, 1, 2, 3));
    assert!(recording.receive(&Bytes::from(vec![4u8; 100_000])).is_none());
}

#[test]
fn pieces_are_whole_deliveries() {
    let mut recording = Recording::new();
    assert_eq!(recording.receive(&Bytes::from(vec![1u8; 150_000])).unwrap(), vec![1u8; 150_000]);
    assert!(recording.receive(&Bytes::from(vec![2u8; 100_000])).is_none());
    assert!(recording.receive(&Bytes::new()).is_none());
    let full = recording.receive(&Bytes::from(vec![3u8; 70_000])).unwrap();
    assert_eq!(full[..100_000], vec![2u8; 100_000]);
    assert_eq!(full[100_000..], vec![3u8; 70_000]);
    assert!(recording.receive(&Bytes::from(vec![4u8; 1])).is_none());
}

#[test]
fn waves_take_turns() {
    let played: Vec<Waveform> = (0..6).map(waveform_at).collect();
    assert_eq!(
        played,
        vec![
            Waveform::Sine,
            Waveform::Square,
            Waveform::Saw,
            Waveform::Triangle,
            Waveform::Sine,
            Waveform::Sine,
        ]
    );
}

#[test]
fn waves_have_their_harmonics() {
    assert_eq!(Waveform::Sine.harmonics(), None);
    assert_eq!(Waveform::Square.harmonics(), Some(Harmonics { increment: 2, gain_exponent: 1 }));
    assert_eq!(Waveform::Saw.harmonics(), Some(Harmonics { increment: 1, gain_exponent: 1 }));
    assert_eq!(Waveform::Triangle.harmonics(), Some(Harmonics { increment: 2, gain_exponent: 2 }));
}

#[test]
fn frames_are_counted() {
    assert_eq!(frames_in(0, 2), 0);
    assert_eq!(frames_in(6, 2), 3);
    assert_eq!(frames_in(8, 3), 3);
    assert_eq!(frames_in(usize::MAX, 2), usize::MAX / 2 + 1);
}

#[test]
fn left_and_right_go_into_each_frame() {
    let mut output = [0.0f32, 0.0, 9.0, 0.0, 0.0, 9.0, 0.0, 0.0];
    process_frame(&mut output, &vec![(1.0, 2.0), (3.0, 4.0), (5.0, 6.0)], 3);
    assert_eq!(output, [1.0, 2.0, 9.0, 3.0, 4.0, 9.0, 5.0, 6.0]);
}
