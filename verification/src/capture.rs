//! What happens to the samples that a microphone delivers.
use bytes::{BufMut, Bytes, BytesMut};
use vstd::prelude::*;

verus! {

/// A buffer of bytes that grows.
#[verifier::external_type_specification]
#[verifier::external_body]
pub struct ExBytesMut(BytesMut);

/// A buffer of bytes that is shared.
#[verifier::external_type_specification]
#[verifier::external_body]
pub struct ExBytes(Bytes);

/// The bytes in a growing buffer.
pub uninterp spec fn growing_bytes(buffer: BytesMut) -> Seq<u8>;

/// The bytes in a shared buffer.
pub uninterp spec fn shared_bytes(buffer: Bytes) -> Seq<u8>;

/// The two bytes of a sample in two's complement, the lower one first.
pub open spec fn sample_bytes(sample: i16) -> Seq<u8> {
    let unsigned = if sample < 0 {
        sample + 0x1_0000
    } else {
        sample as int
    };
    seq![(unsigned % 256) as u8, (unsigned / 256) as u8]
}

/// `BytesMut::with_capacity`: a buffer with no bytes in it. It cannot reserve
/// more than `isize::MAX` bytes.
#[verifier::external_body]
fn buffer_with_capacity(capacity: usize) -> (r: BytesMut)
    requires
        capacity <= isize::MAX,
    ensures
        growing_bytes(r) == Seq::<u8>::empty(),
{
    BytesMut::with_capacity(capacity)
}

/// `BufMut::put_i16_le` on a `BytesMut`: appends the two bytes of the sample,
/// the lower one first. A buffer cannot hold more than `isize::MAX` bytes.
#[verifier::external_body]
fn put_sample(buffer: &mut BytesMut, sample: i16)
    requires
        growing_bytes(*old(buffer)).len() + 2 <= isize::MAX,
    ensures
        growing_bytes(*final(buffer)) == growing_bytes(*old(buffer)) + sample_bytes(sample),
{
    buffer.put_i16_le(sample)
}

/// `BytesMut::freeze`: the same bytes, to be shared.
#[verifier::external_body]
fn freeze(buffer: BytesMut) -> (r: Bytes)
    ensures
        shared_bytes(r) == growing_bytes(buffer),
{
    buffer.freeze()
}

/// `Bytes`, read as the slice that it derefs to: its bytes.
#[verifier::external_body]
fn as_slice(buffer: &Bytes) -> (r: &[u8])
    ensures
        r@ == shared_bytes(*buffer),
{
    buffer
}

/// How many frames there are, where the last one may be cut short.
pub open spec fn frame_count(samples: int, num_channels: int) -> int {
    (samples + num_channels - 1) / num_channels
}

/// The bytes of the first channel in the first `frames` frames.
pub open spec fn first_channel(samples: Seq<i16>, num_channels: int, frames: int) -> Seq<u8>
    decreases frames,
{
    if frames <= 0 {
        Seq::empty()
    } else {
        first_channel(samples, num_channels, frames - 1) + sample_bytes(
            samples[(frames - 1) * num_channels],
        )
    }
}

proof fn lemma_frame(k: int, samples: int, num_channels: int)
    by (nonlinear_arith)
    requires
        num_channels > 0,
        samples >= 0,
        k >= 0,
    ensures
        k * num_channels < samples <==> k < frame_count(samples, num_channels),
        (k + 1) * num_channels == k * num_channels + num_channels,
        0 <= k * num_channels,
        k <= k * num_channels,
{
    let n = samples + num_channels - 1;
    assert(n == (n / num_channels) * num_channels + n % num_channels);
    assert(0 <= n % num_channels < num_channels);
}

/// The samples of the first channel, as bytes, the lower one of each first.
pub fn first_channel_bytes(samples: &[i16], num_channels: usize) -> (r: Bytes)
    requires
        num_channels > 0,
        samples@.len() * 2 <= isize::MAX,
    ensures
        shared_bytes(r) == first_channel(
            samples@,
            num_channels as int,
            frame_count(samples@.len() as int, num_channels as int),
        ),
{
    proof {
        assert(samples@.len() * 2 / (num_channels as nat) <= samples@.len() * 2) by (
        nonlinear_arith)
            requires
                num_channels > 0,
        ;
    }
    let mut buffer = buffer_with_capacity((samples.len() * 2) / num_channels);
    let mut at: usize = 0;
    let ghost mut k: int = 0;
    proof {
        lemma_frame(0, samples@.len() as int, num_channels as int);
    }
    loop
        invariant_except_break
            at == k * num_channels,
            k <= at,
            at < samples@.len() || k >= frame_count(samples@.len() as int, num_channels as int),
            k <= frame_count(samples@.len() as int, num_channels as int),
        invariant
            num_channels > 0,
            samples@.len() * 2 <= isize::MAX,
            k >= 0,
            growing_bytes(buffer) == first_channel(samples@, num_channels as int, k),
            growing_bytes(buffer).len() == 2 * k,
        ensures
            k == frame_count(samples@.len() as int, num_channels as int),
            growing_bytes(buffer) == first_channel(samples@, num_channels as int, k),
        decreases samples@.len() - k,
    {
        if at >= samples.len() {
            break;
        }
        proof {
            lemma_frame(k, samples@.len() as int, num_channels as int);
            lemma_frame(k + 1, samples@.len() as int, num_channels as int);
        }
        put_sample(&mut buffer, samples[at]);
        proof {
            k = k + 1;
        }
        if num_channels >= samples.len() - at {
            break;
        }
        at = at + num_channels;
    }
    freeze(buffer)
}

/// More bytes than this are not kept waiting.
pub const FULL: usize = 100_000;

/// What a delivery leads to where `waiting` waited: what is to be stored, if
/// anything, and what waits afterwards.
pub open spec fn delivered(waiting: Seq<u8>, data: Seq<u8>) -> (Option<Seq<u8>>, Seq<u8>) {
    let all = waiting + data;
    if all.len() > FULL {
        (Some(all), Seq::empty())
    } else {
        (None, all)
    }
}

/// The bytes that wait to be stored.
pub struct Recording {
    pending: Vec<u8>,
}

impl View for Recording {
    type V = Seq<u8>;

    closed spec fn view(&self) -> Seq<u8> {
        self.pending@
    }
}

impl Recording {
    /// A recording in which nothing waits.
    pub fn new() -> (r: Recording)
        ensures
            r@ == Seq::<u8>::empty(),
    {
        Recording { pending: Vec::with_capacity(150_000) }
    }

    /// Takes what the microphone delivered. Once more than `FULL` bytes wait,
    /// hands all of them out, to be stored.
    pub fn receive(&mut self, data: &Bytes) -> (r: Option<Vec<u8>>)
        ensures
            delivered(old(self)@, shared_bytes(*data)) == (
                match r {
                    Some(full) => Some(full@),
                    None => None,
                },
                final(self)@,
            ),
            r is Some <==> old(self)@.len() + shared_bytes(*data).len() > 100_000,
            match r {
                Some(full) => full@ == old(self)@ + shared_bytes(*data) && final(self)@
                    == Seq::<u8>::empty(),
                None => final(self)@ == old(self)@ + shared_bytes(*data),
            },
    {
        self.pending.extend_from_slice(as_slice(data));
        assert(self.pending@ =~= old(self)@ + shared_bytes(*data));
        if self.pending.len() > FULL {
            let mut full: Vec<u8> = Vec::with_capacity(150_000);
            std::mem::swap(&mut full, &mut self.pending);
            Some(full)
        } else {
            None
        }
    }
}

/// What is stored, of all that was delivered, and what still waits.
pub open spec fn recorded(deliveries: Seq<Seq<u8>>) -> (Seq<Seq<u8>>, Seq<u8>)
    decreases deliveries.len(),
{
    if deliveries.len() == 0 {
        (Seq::empty(), Seq::empty())
    } else {
        let (stored, waiting) = recorded(deliveries.drop_last());
        match delivered(waiting, deliveries.last()) {
            (Some(full), rest) => (stored.push(full), rest),
            (None, rest) => (stored, rest),
        }
    }
}

/// Nothing is lost and nothing is stored twice: what is stored, and then what
/// waits, is all that was delivered, in order. No more than `FULL` bytes wait,
/// and what is stored is stored in pieces that are larger than that.
pub proof fn law_nothing_is_lost(deliveries: Seq<Seq<u8>>)
    ensures
        recorded(deliveries).0.flatten() + recorded(deliveries).1 == deliveries.flatten(),
        recorded(deliveries).1.len() <= FULL,
        forall|k: int| #![trigger recorded(deliveries).0[k]]
            0 <= k < recorded(deliveries).0.len() ==> recorded(deliveries).0[k].len() > FULL,
    decreases deliveries.len(),
{
    if deliveries.len() > 0 {
        let (stored, waiting) = recorded(deliveries.drop_last());
        let all = waiting + deliveries.last();
        law_nothing_is_lost(deliveries.drop_last());
        assert(deliveries =~= deliveries.drop_last().push(deliveries.last()));
        deliveries.drop_last().lemma_flatten_push(deliveries.last());
        stored.lemma_flatten_push(all);
        assert(recorded(deliveries).0.flatten() + recorded(deliveries).1
            =~= deliveries.flatten());
    } else {
        assert(deliveries.flatten() =~= Seq::<u8>::empty());
    }
}

/// The deliveries, in order, fall into `runs`, one for each piece that is stored
/// and which the piece is made of, and a `rest`, which is what waits. In each run
/// it is the last delivery that made more than `FULL` bytes of it.
pub open spec fn divided(
    deliveries: Seq<Seq<u8>>,
    stored: Seq<Seq<u8>>,
    waiting: Seq<u8>,
    runs: Seq<Seq<Seq<u8>>>,
    rest: Seq<Seq<u8>>,
) -> bool {
    &&& runs.flatten() + rest == deliveries
    &&& rest.flatten() == waiting
    &&& runs.len() == stored.len()
    &&& forall|k: int| #![trigger runs[k]] #![trigger stored[k]]
        0 <= k < runs.len() ==> {
            &&& runs[k].len() > 0
            &&& runs[k].flatten() == stored[k]
            &&& runs[k].drop_last().flatten().len() <= FULL
        }
}

/// No delivery is torn apart: each stored piece is a run of whole deliveries, and
/// has no more than `FULL` bytes without the last of them.
pub proof fn law_pieces_are_whole_deliveries(deliveries: Seq<Seq<u8>>)
    ensures
        exists|runs: Seq<Seq<Seq<u8>>>, rest: Seq<Seq<u8>>| #[trigger]
            divided(deliveries, recorded(deliveries).0, recorded(deliveries).1, runs, rest),
    decreases deliveries.len(),
{
    if deliveries.len() > 0 {
        let before = deliveries.drop_last();
        let data = deliveries.last();
        let (stored, waiting) = recorded(before);
        law_pieces_are_whole_deliveries(before);
        law_nothing_is_lost(before);
        let (runs, rest) = choose|runs: Seq<Seq<Seq<u8>>>, rest: Seq<Seq<u8>>| #[trigger]
            divided(before, stored, waiting, runs, rest);
        assert(deliveries =~= before.push(data));
        rest.lemma_flatten_push(data);
        if (waiting + data).len() > FULL {
            runs.lemma_flatten_push(rest.push(data));
            assert(rest.push(data).drop_last() =~= rest);
            let none = Seq::<Seq<u8>>::empty();
            assert(none.flatten() =~= Seq::<u8>::empty());
            assert(runs.push(rest.push(data)).flatten() + none =~= deliveries);
            assert(divided(
                deliveries,
                recorded(deliveries).0,
                recorded(deliveries).1,
                runs.push(rest.push(data)),
                none,
            ));
        } else {
            assert(runs.flatten() + rest.push(data) =~= deliveries);
            assert(divided(
                deliveries,
                recorded(deliveries).0,
                recorded(deliveries).1,
                runs,
                rest.push(data),
            ));
        }
    } else {
        let runs = Seq::<Seq<Seq<u8>>>::empty();
        let rest = Seq::<Seq<u8>>::empty();
        assert(runs.flatten() =~= rest);
        assert(rest.flatten() =~= Seq::<u8>::empty());
        assert(runs.flatten() + rest =~= deliveries);
        assert(divided(
            deliveries,
            recorded(deliveries).0,
            recorded(deliveries).1,
            runs,
            rest,
        ));
    }
}

/// A delivery is added to what waits. All of it is handed out, and nothing waits
/// any more, exactly if that makes more than a hundred thousand bytes.
pub proof fn law_delivery(waiting: Seq<u8>, data: Seq<u8>)
    ensures
        ({
            let (full, rest) = delivered(waiting, data);
            &&& full is Some <==> waiting.len() + data.len() > 100_000
            &&& full is Some ==> rest.len() == 0 && full->0 == waiting + data
            &&& full is None ==> rest == waiting + data
        }),
{
}

/// The bytes of a sample are two digits to the base 256, the lower one first, of
/// the sample or, where that is negative, of what it is short of two to the
/// sixteenth.
pub proof fn law_sample_bytes(sample: i16)
    ensures
        sample_bytes(sample).len() == 2,
        sample_bytes(sample)[0] + 256 * sample_bytes(sample)[1] == (if sample >= 0 {
            sample as int
        } else {
            0x1_0000 + sample
        }),
{
}

/// Of every frame it is the first sample whose bytes are kept, in the order of the
/// frames: two bytes, the lower one first, and no others.
pub proof fn law_first_channel(samples: Seq<i16>, num_channels: int, frames: int, k: int)
    requires
        0 <= k < frames,
    ensures
        ({
            let bytes = first_channel(samples, num_channels, frames);
            let sample = samples[k * num_channels];
            &&& bytes.len() == 2 * frames
            &&& bytes[2 * k] + 256 * bytes[2 * k + 1] == (if sample >= 0 {
                sample as int
            } else {
                0x1_0000 + sample
            })
        }),
    decreases frames,
{
    let before = first_channel(samples, num_channels, frames - 1);
    law_sample_bytes(samples[(frames - 1) * num_channels]);
    if frames > 1 {
        law_first_channel(samples, num_channels, frames - 1, if k < frames - 1 { k } else { 0 });
    }
}

/// Without frames there are no bytes.
pub proof fn law_no_frames_no_bytes(samples: Seq<i16>, num_channels: int)
    ensures
        first_channel(samples, num_channels, 0) == Seq::<u8>::empty(),
{
}

} // verus!
