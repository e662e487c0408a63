//! A composable audio sample pipeline.
//!
//! A stream of normalized amplitudes flows through an ownership chain of
//! stages - in-place filters, format converters - and ends at a terminal
//! sink that serializes samples of one fixed-point wire format into bytes.
//! Amplitudes are carried as the bit patterns of IEEE-754 single-precision
//! floats, so that quantization is exact integer arithmetic on the fields
//! of the representation; every byte-order decision is big-endian.

pub mod config;
pub mod filters;
pub mod formats;
pub mod quant;
pub mod sinks;

use vstd::prelude::*;

verus! {

/// A normalized audio amplitude, carried as the bit pattern of an
/// IEEE-754 single-precision float. The nominal domain is [-1.0, 1.0];
/// out-of-range values saturate during quantization.
#[derive(Clone, Copy, PartialEq, Eq, Structural, Debug)]
pub struct Norm {
    pub bits: u32,
}

impl Norm {
    /// Wrap the raw bit pattern of a single-precision float.
    pub fn from_bits(bits: u32) -> (r: Norm)
        ensures
            r.bits() == bits,
    {
        Norm { bits }
    }

    /// The raw bit pattern.
    pub open spec fn spec_bits(self) -> u32 {
        self.bits
    }

    /// The raw bit pattern.
    #[verifier::when_used_as_spec(spec_bits)]
    pub fn bits(self) -> (r: u32)
        ensures
            r == self.spec_bits(),
    {
        self.bits
    }
}

/// A sample representation: a storage type together with the pure
/// quantization and serialization rules of the wire format.
///
/// Every byte-order decision is big-endian, for the in-memory float
/// representation and for the fixed-point formats alike.
pub trait AudioFormat: Sized {
    type Sample: Copy;

    /// The quantization policy: the sample a normalized amplitude maps to.
    spec fn from_f32_spec(s: Norm) -> Self::Sample;

    /// The wire bytes of one sample, in big-endian order.
    spec fn sample_bytes(s: Self::Sample) -> Seq<u8>;

    /// The wire bytes of a whole buffer: each sample's bytes in order.
    spec fn ser(data: Seq<Self::Sample>) -> Seq<u8>;

    /// How many bytes one serialized sample occupies.
    spec fn bytes_per_sample() -> nat;

    /// Every sample serializes to exactly `bytes_per_sample` bytes.
    proof fn lemma_sample_bytes_len(s: Self::Sample)
        ensures
            Self::sample_bytes(s).len() == Self::bytes_per_sample(),
    ;

    /// `ser` is the concatenation of the samples' bytes, head first.
    proof fn lemma_ser_unfold(data: Seq<Self::Sample>)
        ensures
            data.len() == 0 ==> Self::ser(data) == Seq::<u8>::empty(),
            data.len() > 0 ==> Self::ser(data) == Self::sample_bytes(data[0]) + Self::ser(
                data.skip(1),
            ),
    ;

    /// A fresh format tag.
    fn tag() -> Self;

    /// Quantize one normalized amplitude to this format's sample type.
    fn from_f32(&self, s: &Norm) -> (r: Self::Sample)
        ensures
            r == Self::from_f32_spec(*s),
    ;

    /// Append the wire bytes of every sample of `data` to `buf`.
    fn to_bytes(&self, data: &[Self::Sample], buf: &mut Vec<u8>)
        ensures
            final(buf)@ == old(buf)@ + Self::ser(data@),
    ;
}

/// Serialization length law: the wire byte count of a buffer is exactly
/// the sample count times the format's bytes per sample.
pub proof fn lemma_ser_spec_len<F: AudioFormat>(data: Seq<F::Sample>)
    ensures
        F::ser(data).len() == data.len() * F::bytes_per_sample(),
    decreases data.len(),
{
    F::lemma_ser_unfold(data);
    if data.len() == 0 {
    } else {
        F::lemma_sample_bytes_len(data[0]);
        lemma_ser_spec_len::<F>(data.skip(1));
        assert(data.skip(1).len() == data.len() - 1);
        assert((data.len() - 1) * F::bytes_per_sample() + F::bytes_per_sample() == data.len()
            * F::bytes_per_sample()) by (nonlinear_arith);
    }
}

/// Serializing one more sample appends that sample's bytes.
pub proof fn lemma_ser_spec_snoc<F: AudioFormat>(data: Seq<F::Sample>, x: F::Sample)
    ensures
        F::ser(data.push(x)) == F::ser(data) + F::sample_bytes(x),
    decreases data.len(),
{
    F::lemma_ser_unfold(data);
    F::lemma_ser_unfold(data.push(x));
    if data.len() == 0 {
        assert(data.push(x).skip(1) =~= Seq::<F::Sample>::empty());
        F::lemma_ser_unfold(data.push(x).skip(1));
        assert(F::ser(data.push(x)) =~= F::ser(data) + F::sample_bytes(x));
    } else {
        assert(data.push(x).skip(1) =~= data.skip(1).push(x));
        lemma_ser_spec_snoc::<F>(data.skip(1), x);
        assert(F::ser(data.push(x)) =~= F::ser(data) + F::sample_bytes(x));
    }
}

/// The error a sink reports: a downstream transport or device failure,
/// carried as a message. Stages propagate it unchanged; none retries.
#[derive(Debug)]
pub struct SinkError {
    pub message: String,
}

impl SinkError {
    /// Wrap a downstream failure description.
    pub fn new(message: String) -> (r: SinkError)
        ensures
            r.message() == message@,
    {
        SinkError { message }
    }

    /// The failure description.
    pub open spec fn message(self) -> Seq<char> {
        self.message@
    }

    /// The failure description, for display by a caller.
    pub fn describe(&self) -> (r: &String)
        ensures
            r@ == self.message(),
    {
        &self.message
    }
}

/// The sample type a sink accepts.
pub type Sample<S> = <<S as Sink>::Format as AudioFormat>::Sample;

/// The capability every pipeline stage and terminal consumer implements:
/// accept a buffer of samples of one declared format, with lifecycle
/// hooks around it.
///
/// A sink is modeled by the bytes it drives to the terminal consumer:
/// `delivered` is the history of byte chunks that have reached it, and
/// `response` says which chunk a given input buffer produces. A stage
/// wrapped around a sink transforms the input and leaves the model of
/// the rest of the chain alone.
pub trait Sink: Sized {
    type Format: AudioFormat;

    /// The chunks of bytes that have reached the terminal consumer.
    spec fn delivered(&self) -> Seq<Seq<u8>>;

    /// The bytes the terminal consumer receives for one written buffer.
    spec fn response(&self, input: Seq<Sample<Self>>) -> Seq<u8>;

    /// The caller's buffer as `write` hands it back: an in-place stage
    /// transforms it and forwards the same buffer, so later stages may
    /// transform it further; every other sink leaves it alone.
    spec fn writeback(&self, input: Seq<Sample<Self>>) -> Seq<Sample<Self>>;

    /// Setup hook, called once before the first write.
    fn start(&mut self) -> (r: Result<(), SinkError>)
        ensures
            final(self).delivered() == old(self).delivered(),
            forall|input: Seq<Sample<Self>>|
                #[trigger] final(self).response(input) == old(self).response(input),
            forall|input: Seq<Sample<Self>>|
                #[trigger] final(self).writeback(input) == old(self).writeback(input),
    {
        Ok(())
    }

    /// Teardown hook, called once after the last write.
    fn stop(&mut self) -> (r: Result<(), SinkError>)
        ensures
            final(self).delivered() == old(self).delivered(),
            forall|input: Seq<Sample<Self>>|
                #[trigger] final(self).response(input) == old(self).response(input),
            forall|input: Seq<Sample<Self>>|
                #[trigger] final(self).writeback(input) == old(self).writeback(input),
    {
        Ok(())
    }

    /// Accept one buffer. On success exactly one more chunk - the
    /// response to the input - has reached the terminal consumer; on
    /// failure, which is propagated from downstream and never retried
    /// here, nothing further has. Either way the caller's buffer holds
    /// the in-place transforms of the stages it passed through.
    fn write(&mut self, data: &mut Vec<Sample<Self>>) -> (r: Result<(), SinkError>)
        ensures
            r is Ok ==> final(self).delivered() == old(self).delivered().push(
                old(self).response(old(data)@),
            ),
            r is Err ==> final(self).delivered() == old(self).delivered(),
            final(data)@ == old(self).writeback(old(data)@),
            forall|input: Seq<Sample<Self>>|
                #[trigger] final(self).response(input) == old(self).response(input),
            forall|input: Seq<Sample<Self>>|
                #[trigger] final(self).writeback(input) == old(self).writeback(input),
    ;
}

/// The supported sample representations, for configuration surfaces.
#[non_exhaustive]
#[derive(Debug, Eq, PartialEq, Clone, Copy, Structural)]
pub enum AudioFormatConfig {
    F32,
    S16,
    S32,
    S24_3,
    S24_4,
}

impl Default for AudioFormatConfig {
    /// The default wire format is the signed 16-bit one.
    fn default() -> (r: Self)
        ensures
            r == AudioFormatConfig::S16,
    {
        AudioFormatConfig::S16
    }
}

/// A stack of filters a backend applies in front of the sink it opens.
pub trait SinkMaker: Sized {
    type Output;

    /// Wrap `sink` with this maker's filters.
    fn apply_filters<S: Sink>(self, sink: S) -> Self::Output;
}

} // verus!
