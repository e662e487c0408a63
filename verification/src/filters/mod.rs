//! Pipeline stages: in-place filters, format converters, and the
//! composition engine that wraps either together with a downstream sink.

mod convert;

pub use convert::SampleConverter;

use core::marker::PhantomData;
use vstd::prelude::*;
use vstd::pervasive::VecAdditionalExecFns;

use crate::{AudioFormat, Sample, Sink, SinkError};

verus! {

/// A per-sample mapping from one format's samples to another's.
pub trait SampleMapper<F: AudioFormat>: Sized {
    type Output: AudioFormat;

    /// The mapping, as a function of one sample.
    spec fn map_spec(&self, s: F::Sample) -> <Self::Output as AudioFormat>::Sample;

    /// Map one sample.
    fn map(&self, sample: &F::Sample) -> (r: <Self::Output as AudioFormat>::Sample)
        ensures
            r == self.map_spec(*sample),
    ;
}

/// An in-place, format-preserving transform over a buffer of samples.
pub trait Filter<F: AudioFormat>: Sized {
    /// The transform, as a function of the whole buffer.
    spec fn filter_spec(&self, data: Seq<F::Sample>) -> Seq<F::Sample>;

    /// A filter is format-preserving: it never changes the buffer's length.
    proof fn lemma_filter_len(&self, data: Seq<F::Sample>)
        ensures
            self.filter_spec(data).len() == data.len(),
    ;

    /// Mutate every element of `data` in place.
    fn filter(&self, data: &mut Vec<F::Sample>)
        ensures
            final(data)@ == self.filter_spec(old(data)@),
    ;
}

/// Every format-preserving per-sample mapping filters a buffer by
/// mapping each element in place: the filtered buffer is exactly the
/// elementwise image of the input.
impl<A: AudioFormat, M: SampleMapper<A, Output = A>> Filter<A> for M {
    open spec fn filter_spec(&self, data: Seq<A::Sample>) -> Seq<A::Sample> {
        data.map_values(|s: A::Sample| self.map_spec(s))
    }

    proof fn lemma_filter_len(&self, data: Seq<A::Sample>) {
    }

    fn filter(&self, data: &mut Vec<A::Sample>) {
        let n: usize = data.len();
        let mut i: usize = 0;
        while i < n
            invariant
                n == data@.len(),
                i <= n,
                forall|k: int| i <= k < n ==> data@[k] == old(data)@[k],
                forall|k: int| 0 <= k < i ==> data@[k] == self.map_spec(old(data)@[k]),
            decreases n - i,
        {
            let s: A::Sample = data[i];
            let x: A::Sample = self.map(&s);
            data.set(i, x);
            i += 1;
        }
        proof {
            assert(data@ =~= old(data)@.map_values(|s: A::Sample| self.map_spec(s)));
        }
    }
}

/// A transform from a buffer of one format's samples into a reused
/// buffer of another's.
pub trait Converter<F: AudioFormat>: Sized {
    type Output: AudioFormat;

    /// The conversion, as a function of the whole buffer.
    spec fn convert_spec(&self, data: Seq<F::Sample>) -> Seq<
        <Self::Output as AudioFormat>::Sample,
    >;

    /// Clear `buf`, reserve room for the whole image, then append one
    /// converted element per input element: afterwards `buf` holds
    /// exactly the converted image of `data`.
    fn convert(
        &self,
        data: &[F::Sample],
        buf: &mut Vec<<Self::Output as AudioFormat>::Sample>,
    )
        ensures
            final(buf)@ == self.convert_spec(data@),
    ;
}

/// Every per-sample mapping converts a buffer by mapping each element:
/// the converted buffer is exactly the elementwise image of the input.
impl<A: AudioFormat, M: SampleMapper<A>> Converter<A> for M {
    type Output = M::Output;

    open spec fn convert_spec(&self, data: Seq<A::Sample>) -> Seq<
        <M::Output as AudioFormat>::Sample,
    > {
        data.map_values(|s: A::Sample| self.map_spec(s))
    }

    fn convert(
        &self,
        data: &[A::Sample],
        buf: &mut Vec<<M::Output as AudioFormat>::Sample>,
    ) {
        buf.clear();
        let n: usize = data.len();
        buf.reserve(n);
        let mut i: usize = 0;
        while i < n
            invariant
                n == data@.len(),
                i <= n,
                buf@ == data@.take(i as int).map_values(|s: A::Sample| self.map_spec(s)),
            decreases n - i,
        {
            let s: A::Sample = data[i];
            let x: <M::Output as AudioFormat>::Sample = self.map(&s);
            buf.push(x);
            proof {
                let f = |s: A::Sample| self.map_spec(s);
                assert(data@.take(i + 1) =~= data@.take(i as int).push(data@[i as int]));
                assert(data@.take(i + 1).map_values(f) =~= data@.take(i as int).map_values(
                    f,
                ).push(f(data@[i as int])));
            }
            i += 1;
        }
        proof {
            assert(data@.take(n as int) =~= data@);
        }
    }
}

/// Filtering is elementwise: a per-sample mapping applied as a filter
/// sends the buffer `[x_1 .. x_n]` to exactly `[m(x_1) .. m(x_n)]`,
/// for every buffer length including zero.
pub proof fn lemma_filter_elementwise<A: AudioFormat, M: SampleMapper<A, Output = A>>(
    m: M,
    data: Seq<A::Sample>,
)
    ensures
        m.filter_spec(data).len() == data.len(),
        forall|i: int| 0 <= i < data.len() ==> m.filter_spec(data)[i] == m.map_spec(data[i]),
{
}

/// The identity pass-through mapping: chains two stages of one format
/// without changing any sample.
pub struct Passthrough<F: AudioFormat> {
    pub format: PhantomData<F>,
}

impl<F: AudioFormat> Passthrough<F> {
    /// A fresh pass-through mapping.
    pub fn new() -> (r: Self) {
        Passthrough { format: PhantomData }
    }
}

impl<F: AudioFormat> SampleMapper<F> for Passthrough<F> {
    type Output = F;

    open spec fn map_spec(&self, s: F::Sample) -> F::Sample {
        s
    }

    fn map(&self, sample: &F::Sample) -> (r: F::Sample) {
        *sample
    }
}

/// Pass-through idempotence: converting through the identity mapping
/// and serializing yields bytes identical to serializing the source
/// buffer directly.
pub proof fn lemma_passthrough_serialize<F: AudioFormat>(p: Passthrough<F>, data: Seq<F::Sample>)
    ensures
        F::ser(p.convert_spec(data)) == F::ser(data),
{
    assert(p.convert_spec(data) =~= data);
}

/// A sink that filters the buffer in place, then forwards the same
/// buffer to its downstream sink.
pub struct FilterSink<F: Filter<S::Format>, S: Sink> {
    pub filter: F,
    pub sink: S,
}

impl<F: Filter<S::Format>, S: Sink> Sink for FilterSink<F, S> {
    type Format = S::Format;

    open spec fn delivered(&self) -> Seq<Seq<u8>> {
        self.sink.delivered()
    }

    open spec fn response(&self, input: Seq<Sample<S>>) -> Seq<u8> {
        self.sink.response(self.filter.filter_spec(input))
    }

    open spec fn writeback(&self, input: Seq<Sample<S>>) -> Seq<Sample<S>> {
        self.sink.writeback(self.filter.filter_spec(input))
    }

    fn start(&mut self) -> (r: Result<(), SinkError>) {
        self.sink.start()
    }

    fn stop(&mut self) -> (r: Result<(), SinkError>) {
        self.sink.stop()
    }

    fn write(&mut self, data: &mut Vec<Sample<S>>) -> (r: Result<(), SinkError>)
        ensures
            final(self).filter == old(self).filter,
    {
        self.filter.filter(data);
        self.sink.write(data)
    }
}

/// A sink that converts the buffer into its own reusable scratch
/// buffer, then forwards the scratch buffer to its downstream sink.
/// The scratch buffer is cleared - length zero, capacity kept - at the
/// start of every write, so steady-state writes do not allocate.
pub struct ConverterSink<A: AudioFormat, C: Converter<A>, S: Sink<Format = C::Output>> {
    pub format: PhantomData<A>,
    pub filter: C,
    pub sink: S,
    pub buf: Vec<Sample<S>>,
}

impl<A: AudioFormat, C: Converter<A>, S: Sink<Format = C::Output>> Sink for ConverterSink<
    A,
    C,
    S,
> {
    type Format = A;

    open spec fn delivered(&self) -> Seq<Seq<u8>> {
        self.sink.delivered()
    }

    open spec fn response(&self, input: Seq<A::Sample>) -> Seq<u8> {
        self.sink.response(self.filter.convert_spec(input))
    }

    open spec fn writeback(&self, input: Seq<A::Sample>) -> Seq<A::Sample> {
        input
    }

    fn start(&mut self) -> (r: Result<(), SinkError>) {
        self.sink.start()
    }

    fn stop(&mut self) -> (r: Result<(), SinkError>) {
        self.sink.stop()
    }

    fn write(&mut self, data: &mut Vec<A::Sample>) -> (r: Result<(), SinkError>)
        ensures
            final(self).filter == old(self).filter,
            final(self).buf@ == old(self).sink.writeback(
                old(self).filter.convert_spec(old(data)@),
            ),
    {
        self.buf.clear();
        self.filter.convert(data.as_slice(), &mut self.buf);
        self.sink.write(&mut self.buf)
    }
}

/// The chain-building facility: wrap any sink with a filter or a
/// converter whose output format matches the sink's declared format.
pub trait SinkExt: Sink {
    /// Put `converter` in front of this sink, with a fresh scratch buffer.
    fn add_converter<A: AudioFormat, C: Converter<A, Output = Self::Format>>(
        self,
        converter: C,
    ) -> (r: ConverterSink<A, C, Self>)
        ensures
            r.filter == converter,
            r.sink == self,
            r.buf@ == Seq::<Sample<Self>>::empty(),
    {
        ConverterSink { format: PhantomData, filter: converter, sink: self, buf: Vec::new() }
    }

    /// Put `filter` in front of this sink.
    fn add_filter<F: Filter<Self::Format>>(self, filter: F) -> (r: FilterSink<F, Self>)
        ensures
            r.filter == filter,
            r.sink == self,
    {
        FilterSink { filter, sink: self }
    }
}

impl<S: Sink> SinkExt for S {

}

/// Chain composition law: a chain built from sink `S` and filters `F`
/// then `G` responds to an input exactly as `S` responds to the manual
/// application of `F` then `G`; stacking is associative in effect.
pub proof fn lemma_chain_composition<
    A: AudioFormat,
    F: Filter<A>,
    G: Filter<A>,
    S: Sink<Format = A>,
>(chain: FilterSink<F, FilterSink<G, S>>, input: Seq<A::Sample>)
    ensures
        chain.response(input) == chain.sink.sink.response(
            chain.sink.filter.filter_spec(chain.filter.filter_spec(input)),
        ),
{
}

} // verus!
