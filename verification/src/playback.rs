//! Which sound is played when, and where its samples go.
use crate::capture::frame_count;
use vstd::prelude::*;

verus! {

/// The shape of a wave.
#[derive(Clone, Copy, Debug, PartialEq, Eq, Structural)]
pub enum Waveform {
    Sine,
    Square,
    Saw,
    Triangle,
}

/// The harmonics that a wave is summed from: every `increment`-th one from the
/// first on, each divided by its number raised to `gain_exponent`.
#[derive(Clone, Copy, Debug, PartialEq, Eq, Structural)]
pub struct Harmonics {
    pub increment: i32,
    pub gain_exponent: u8,
}

/// The harmonics of a wave, if it is not the sine itself.
pub open spec fn harmonics_of(waveform: Waveform) -> Option<Harmonics> {
    match waveform {
        Waveform::Sine => None,
        Waveform::Square => Some(Harmonics { increment: 2, gain_exponent: 1 }),
        Waveform::Saw => Some(Harmonics { increment: 1, gain_exponent: 1 }),
        Waveform::Triangle => Some(Harmonics { increment: 2, gain_exponent: 2 }),
    }
}

impl Waveform {
    /// The harmonics that the wave is summed from, if it is not the sine itself.
    pub fn harmonics(&self) -> (r: Option<Harmonics>)
        ensures
            r == harmonics_of(*self),
    {
        match self {
            Waveform::Sine => None,
            Waveform::Square => Some(Harmonics { increment: 2, gain_exponent: 1 }),
            Waveform::Saw => Some(Harmonics { increment: 1, gain_exponent: 1 }),
            Waveform::Triangle => Some(Harmonics { increment: 2, gain_exponent: 2 }),
        }
    }
}

/// The wave that is played once `seconds` whole seconds have passed.
pub open spec fn scheduled(seconds: nat) -> Waveform {
    if seconds == 1 {
        Waveform::Square
    } else if seconds == 2 {
        Waveform::Saw
    } else if seconds == 3 {
        Waveform::Triangle
    } else {
        Waveform::Sine
    }
}

/// The wave that is played once `seconds` whole seconds have passed: a second
/// each of sine, square, saw and triangle, and the sine from then on.
pub fn waveform_at(seconds: u64) -> (r: Waveform)
    ensures
        r == scheduled(seconds as nat),
        r == Waveform::Sine <==> seconds == 0 || seconds >= 4,
        r == Waveform::Square <==> seconds == 1,
        r == Waveform::Saw <==> seconds == 2,
        r == Waveform::Triangle <==> seconds == 3,
{
    if seconds < 1 {
        Waveform::Sine
    } else if seconds < 2 {
        Waveform::Square
    } else if seconds < 3 {
        Waveform::Saw
    } else if seconds < 4 {
        Waveform::Triangle
    } else {
        Waveform::Sine
    }
}

/// How many frames the output has, where the last one may be cut short.
pub fn frames_in(len: usize, num_channels: usize) -> (r: usize)
    requires
        num_channels > 0,
    ensures
        r == frame_count(len as int, num_channels as int),
        r * num_channels >= len,
        r * num_channels < len + num_channels,
{
    proof {
        law_frame_count(len as int, num_channels as int);
    }
    let whole = len / num_channels;
    proof {
        let (n, c) = (len as int, num_channels as int);
        assert(n % c == 0 ==> (n + c - 1) / c == n / c) by (nonlinear_arith)
            requires
                c > 0,
                n >= 0,
        {
            if n % c == 0 {
                assert(n == (n / c) * c);
                assert((n + c - 1) / c == n / c + (c - 1) / c) by (nonlinear_arith)
                    requires
                        c > 0,
                        n == (n / c) * c,
                ;
            }
        }
        assert(n % c != 0 ==> (n + c - 1) / c == n / c + 1 && n / c < n + 1 && n / c + 1 <= n)
            by (nonlinear_arith)
            requires
                c > 0,
                n >= 0,
        {
            if n % c != 0 {
                assert(n == (n / c) * c + n % c);
                assert(1 <= n % c < c);
                assert(n + c - 1 == (n / c + 1) * c + (n % c - 1));
            }
        }
    }
    if len % num_channels == 0 {
        whole
    } else {
        whole + 1
    }
}

/// Every frame of the output has a left and a right sample.
pub open spec fn frames_are_stereo(len: int, num_channels: int) -> bool {
    num_channels > 0 && (len == 0 || num_channels >= 2 && len % num_channels != 1)
}

/// The output sample at `j`: in each frame the first is the left one, the second
/// the right one, and the others stay what they were.
pub open spec fn framed<T>(
    before: Seq<T>,
    samples: Seq<(T, T)>,
    num_channels: int,
    j: int,
) -> T {
    if j % num_channels == 0 {
        samples[j / num_channels].0
    } else if j % num_channels == 1 {
        samples[j / num_channels].1
    } else {
        before[j]
    }
}

proof fn lemma_frame_start(k: int, len: int, channels: int)
    by (nonlinear_arith)
    requires
        channels >= 2,
        len >= 0,
        0 <= k < frame_count(len, channels),
        len % channels != 1,
    ensures
        k * channels + 1 < len,
        0 <= k * channels,
        (k + 1) * channels == k * channels + channels,
{
    let n = len + channels - 1;
    assert(n == (n / channels) * channels + n % channels);
    assert(0 <= n % channels < channels);
    assert(k + 1 <= n / channels);
    assert((k + 1) * channels <= n);
    assert(k * channels < len);
    if k * channels + 1 == len {
        assert(len % channels == 1) by {
            vstd::arithmetic::div_mod::lemma_fundamental_div_mod_converse(len, channels, k, 1);
        }
    }
}

proof fn lemma_in_frame(j: int, k: int, channels: int)
    requires
        channels >= 2,
        k * channels <= j < k * channels + channels,
    ensures
        j / channels == k,
        j % channels == j - k * channels,
{
    vstd::arithmetic::div_mod::lemma_fundamental_div_mod_converse(
        j,
        channels,
        k,
        j - k * channels,
    );
}

/// Puts a left and a right sample into each frame of the output.
pub fn process_frame<T: Copy>(output: &mut [T], samples: &Vec<(T, T)>, num_channels: usize)
    requires
        frames_are_stereo(old(output)@.len() as int, num_channels as int),
        samples@.len() == frame_count(old(output)@.len() as int, num_channels as int),
    ensures
        final(output)@.len() == old(output)@.len(),
        forall|j: int| #![trigger final(output)@[j]]
            0 <= j < old(output)@.len() ==> final(output)@[j] == framed(
                old(output)@,
                samples@,
                num_channels as int,
                j,
            ),
        forall|k: int| #![trigger samples@[k]]
            0 <= k < samples@.len() ==> {
                &&& final(output)@[k * num_channels] == samples@[k].0
                &&& final(output)@[k * num_channels + 1] == samples@[k].1
            },
        forall|j: int| #![trigger final(output)@[j]]
            0 <= j < old(output)@.len() && j % num_channels as int >= 2 ==> final(output)@[j]
                == old(output)@[j],
{
    let ghost before = output@;
    let ghost c = num_channels as int;
    let len = output.len();
    let frames = samples.len();
    let mut start: usize = 0;
    let mut k: usize = 0;
    while k < frames
        invariant
            c == num_channels,
            len == before.len(),
            output@.len() == before.len(),
            frames == samples@.len(),
            frames_are_stereo(len as int, c),
            frames == frame_count(len as int, c),
            k <= frames,
            k < frames ==> start == k * c,
            forall|j: int| #![trigger output@[j]]
                0 <= j < len ==> output@[j] == (if j < k * c {
                    framed(before, samples@, c, j)
                } else {
                    before[j]
                }),
        decreases frames - k,
    {
        proof {
            assert(len > 0) by (nonlinear_arith)
                requires
                    c > 0,
                    0 <= k < frame_count(len as int, c),
            {
                if len == 0 {
                    assert((c - 1) / c == 0);
                }
            }
            lemma_frame_start(k as int, len as int, c);
            if k + 1 < frames {
                lemma_frame_start(k + 1, len as int, c);
            }
        }
        let ghost so_far = output@;
        let (left, right) = samples[k];
        output[start] = left;
        output[start + 1] = right;
        assert forall|j: int| #![trigger output@[j]] 0 <= j < len implies output@[j] == (if j < (k
            + 1) * c {
            framed(before, samples@, c, j)
        } else {
            before[j]
        }) by {
            let was = so_far[j];
            if k * c <= j < k * c + c {
                lemma_in_frame(j, k as int, c);
            }
        }
        k = k + 1;
        if k < frames {
            start = start + num_channels;
        }
    }
    proof {
        assert(frames * c >= len) by (nonlinear_arith)
            requires
                c > 0,
                frames == frame_count(len as int, c),
        {
            let n = len + c - 1;
            assert(n == (n / c) * c + n % c);
            assert(0 <= n % c < c);
        }
        assert forall|k: int| #![trigger samples@[k]] 0 <= k < samples@.len() implies output@[k
            * c] == samples@[k].0 && output@[k * c + 1] == samples@[k].1 by {
            law_left_and_right(before, output@, samples@, c, k, k * c);
        }
    }
}

/// In each frame of an output that frames were put into, the first sample is the
/// left one, the second one is the right one, however many channels there are, and
/// the others are what they were.
pub proof fn law_left_and_right<T>(
    before: Seq<T>,
    after: Seq<T>,
    samples: Seq<(T, T)>,
    num_channels: int,
    k: int,
    j: int,
)
    requires
        frames_are_stereo(before.len() as int, num_channels),
        samples.len() == frame_count(before.len() as int, num_channels),
        after.len() == before.len(),
        forall|i: int| #![trigger after[i]]
            0 <= i < before.len() ==> after[i] == framed(before, samples, num_channels, i),
        0 <= k < samples.len(),
    ensures
        k * num_channels + 1 < after.len(),
        after[k * num_channels] == samples[k].0,
        after[k * num_channels + 1] == samples[k].1,
        k * num_channels + 2 <= j < (k + 1) * num_channels && j < before.len() ==> after[j]
            == before[j],
{
    let len = before.len() as int;
    law_frame_count(len, num_channels);
    assert(len > 0) by (nonlinear_arith)
        requires
            len >= 0,
            num_channels > 0,
            0 <= k < samples.len(),
            samples.len() * num_channels < len + num_channels,
    ;
    lemma_frame_start(k, len, num_channels);
    lemma_in_frame(k * num_channels, k, num_channels);
    lemma_in_frame(k * num_channels + 1, k, num_channels);
    if k * num_channels + 2 <= j < (k + 1) * num_channels && j < before.len() {
        lemma_in_frame(j, k, num_channels);
    }
}

/// There are as many frames as it takes to hold the samples, and none too many.
pub proof fn law_frame_count(samples: int, num_channels: int)
    requires
        samples >= 0,
        num_channels > 0,
    ensures
        frame_count(samples, num_channels) >= 0,
        frame_count(samples, num_channels) * num_channels >= samples,
        frame_count(samples, num_channels) * num_channels < samples + num_channels,
{
    let n = samples + num_channels - 1;
    assert(n == (n / num_channels) * num_channels + n % num_channels && 0 <= n % num_channels
        < num_channels && n / num_channels >= 0) by (nonlinear_arith)
        requires
            num_channels > 0,
            n >= 0,
            n == samples + num_channels - 1,
    ;
}

/// Every frame of the output has a left and a right sample exactly if each place
/// at which a frame starts is followed by another one in that frame.
pub proof fn law_stereo_frames(len: int, num_channels: int)
    requires
        len >= 0,
        num_channels > 0,
    ensures
        frames_are_stereo(len, num_channels) <==> forall|k: int| #![trigger k * num_channels]
            k >= 0 && k * num_channels < len ==> k * num_channels + 1 < len && k * num_channels
                + 1 < (k + 1) * num_channels,
{
    if frames_are_stereo(len, num_channels) && len > 0 {
        assert forall|k: int| #![trigger k * num_channels]
            k >= 0 && k * num_channels < len implies k * num_channels + 1 < len && k
            * num_channels + 1 < (k + 1) * num_channels by {
            law_frame_count(len, num_channels);
            let frames = frame_count(len, num_channels);
            assert(k < frames) by (nonlinear_arith)
                requires
                    num_channels > 0,
                    k * num_channels < len,
                    frames * num_channels >= len,
            ;
            lemma_frame_start(k, len, num_channels);
        }
    }
    if forall|k: int| #![trigger k * num_channels]
        k >= 0 && k * num_channels < len ==> k * num_channels + 1 < len && k * num_channels + 1
            < (k + 1) * num_channels {
        if len > 0 {
            assert(0 * num_channels + 1 < (0 + 1) * num_channels);
            let k = len / num_channels;
            vstd::arithmetic::div_mod::lemma_fundamental_div_mod(len, num_channels);
            assert(k >= 0 && k * num_channels == num_channels * k) by (nonlinear_arith)
                requires
                    num_channels > 0,
                    len > 0,
                    k == len / num_channels,
            ;
            if len % num_channels == 1 {
                assert(k * num_channels + 1 == len);
            }
        }
    } else {
        if len == 0 {
            assert forall|k: int| #![trigger k * num_channels] k >= 0 implies k * num_channels
                >= 0 by {
                assert(k * num_channels >= 0) by (nonlinear_arith)
                    requires
                        k >= 0,
                        num_channels > 0,
                ;
            }
        }
    }
}

/// For a second each the sine, the square, the saw and the triangle are played,
/// and the sine from then on.
pub proof fn law_schedule(seconds: nat)
    ensures
        scheduled(seconds) == Waveform::Sine <==> seconds < 1 || 4 <= seconds,
        scheduled(seconds) == Waveform::Square <==> 1 <= seconds < 2,
        scheduled(seconds) == Waveform::Saw <==> 2 <= seconds < 3,
        scheduled(seconds) == Waveform::Triangle <==> 3 <= seconds < 4,
{
}

} // verus!
