//! The terminal serializing sink.
//!
//! It ends a chain: each write serializes the samples it is handed into
//! its reusable byte buffer - cleared at the start of the write,
//! capacity kept - and the caller that owns the chain forwards those
//! bytes to its output stream.

use vstd::prelude::*;

use crate::{AudioFormat, Sink, SinkError};

verus! {

/// The terminal sink of a serializing chain: turns each written buffer
/// into its wire bytes and holds them for the caller to forward.
pub struct WriteSink<F: AudioFormat> {
    pub format: F,
    pub buf: Vec<u8>,
    pub chunks: Ghost<Seq<Seq<u8>>>,
}

impl<F: AudioFormat> WriteSink<F> {
    /// A fresh terminal sink for the given format.
    pub fn new(format: F) -> (r: Self)
        ensures
            r.delivered() == Seq::<Seq<u8>>::empty(),
            r.buf@ == Seq::<u8>::empty(),
    {
        WriteSink { format, buf: Vec::new(), chunks: Ghost(Seq::empty()) }
    }

    /// The wire bytes of the latest write, for the caller to forward.
    pub fn bytes(&self) -> (r: &Vec<u8>)
        ensures
            r@ == self.buf@,
    {
        &self.buf
    }
}

impl<F: AudioFormat> Sink for WriteSink<F> {
    type Format = F;

    open spec fn delivered(&self) -> Seq<Seq<u8>> {
        self.chunks@
    }

    open spec fn response(&self, input: Seq<F::Sample>) -> Seq<u8> {
        F::ser(input)
    }

    open spec fn writeback(&self, input: Seq<F::Sample>) -> Seq<F::Sample> {
        input
    }

    fn start(&mut self) -> (r: Result<(), SinkError>)
        ensures
            r is Ok,
    {
        Ok(())
    }

    fn stop(&mut self) -> (r: Result<(), SinkError>)
        ensures
            r is Ok,
    {
        Ok(())
    }

    fn write(&mut self, data: &mut Vec<F::Sample>) -> (r: Result<(), SinkError>)
        ensures
            r is Ok,
            final(self).buf@ == F::ser(old(data)@),
            final(data)@ == old(data)@,
    {
        self.buf.clear();
        self.format.to_bytes(data.as_slice(), &mut self.buf);
        proof {
            self.chunks@ = self.chunks@.push(self.buf@);
        }
        Ok(())
    }
}

} // verus!
