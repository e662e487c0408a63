//! The quantizing stage: a float-format sink that converts each
//! normalized amplitude into its downstream sink's sample format.

use vstd::prelude::*;

use crate::formats::F32;
use crate::{AudioFormat, Norm, Sample, Sink, SinkError};

verus! {

/// A sink accepting normalized float samples; each write quantizes
/// them into this stage's reusable scratch buffer - cleared at the
/// start, capacity kept - and forwards the scratch buffer downstream.
pub struct SampleConverter<S: Sink> {
    pub sink: S,
    pub buf: Vec<Sample<S>>,
    pub format: S::Format,
}

impl<S: Sink> SampleConverter<S> {
    /// Wrap `sink` with a fresh quantizing stage.
    pub fn new(sink: S) -> (r: Self)
        ensures
            r.sink == sink,
            r.buf@ == Seq::<Sample<S>>::empty(),
    {
        SampleConverter { sink, buf: Vec::new(), format: <S::Format as AudioFormat>::tag() }
    }
}

/// The quantized image of a float buffer in the target format.
pub open spec fn quantized<F: AudioFormat>(input: Seq<Norm>) -> Seq<F::Sample> {
    input.map_values(|s: Norm| F::from_f32_spec(s))
}

/// Round trip through the 16-bit path: quantizing a float buffer,
/// serializing it, and re-parsing the wire bytes with the matching
/// byte order recovers the quantized samples exactly.
pub proof fn lemma_quantized_round_trip(data: Seq<Norm>)
    ensures
        crate::formats::parse16_seq(
            crate::formats::ser_i16(quantized::<crate::formats::I16>(data)),
        ) == quantized::<crate::formats::I16>(data),
{
    crate::formats::lemma_parse16_round_trip(quantized::<crate::formats::I16>(data));
}

impl<S: Sink> Sink for SampleConverter<S> {
    type Format = F32;

    open spec fn delivered(&self) -> Seq<Seq<u8>> {
        self.sink.delivered()
    }

    open spec fn response(&self, input: Seq<Norm>) -> Seq<u8> {
        self.sink.response(quantized::<S::Format>(input))
    }

    open spec fn writeback(&self, input: Seq<Norm>) -> Seq<Norm> {
        input
    }

    fn start(&mut self) -> (r: Result<(), SinkError>) {
        self.sink.start()
    }

    fn stop(&mut self) -> (r: Result<(), SinkError>) {
        self.sink.stop()
    }

    fn write(&mut self, data: &mut Vec<Norm>) -> (r: Result<(), SinkError>)
        ensures
            final(self).buf@ == old(self).sink.writeback(
                quantized::<S::Format>(old(data)@),
            ),
    {
        self.buf.clear();
        let n: usize = data.len();
        let mut i: usize = 0;
        while i < n
            invariant
                n == data@.len(),
                i <= n,
                self.buf@ == data@.take(i as int).map_values(
                    |s: Norm| <S::Format as AudioFormat>::from_f32_spec(s),
                ),
                self.sink == old(self).sink,
                self.format == old(self).format,
                data@ == old(data)@,
            decreases n - i,
        {
            let s: Norm = data[i];
            let x: Sample<S> = self.format.from_f32(&s);
            self.buf.push(x);
            proof {
                let f = |s: Norm| <S::Format as AudioFormat>::from_f32_spec(s);
                assert(data@.take(i + 1) =~= data@.take(i as int).push(data@[i as int]));
                assert(data@.take(i + 1).map_values(f) =~= data@.take(i as int).map_values(
                    f,
                ).push(f(data@[i as int])));
            }
            i += 1;
        }
        proof {
            assert(data@.take(n as int) =~= data@);
        }
        self.sink.write(&mut self.buf)
    }
}

} // verus!
