//! The layer that wires a decoder to whatever plays it.

use vstd::prelude::*;

verus! {

/// What takes samples, such as an audio output.
pub trait Sink<Sample> {
    /// Takes some of the samples, and says how many. `None` on error.
    fn write_samples(&mut self, buf: &[Sample]) -> (n: Option<usize>)
        ensures
            n matches Some(k) ==> k <= buf@.len(),
    ;
}

/// What gives samples, such as a decoder.
pub trait Source<Sample> {
    /// Whether the source is in order. One that failed still is: it can be read on, from wherever it got to.
    open spec fn readable(&self) -> bool {
        true
    }

    /// Fills the front of `buf`, and says how much of it; zero at the end of the input. `None` on
    /// error.
    fn read_samples(&mut self, buf: &mut [Sample]) -> (n: Option<usize>)
        requires
            old(self).readable(),
        ensures
            final(self).readable(),
            final(buf)@.len() == old(buf)@.len(),
            n matches Some(k) ==> k <= old(buf)@.len(),
    ;
}

/// What writes to a sink that it is handed.
pub trait SinkInput<Sample>: Sized {
    /// What the result may be, and what becomes of the input, by its own rules.
    open spec fn writes(&self, after: &Self, n: Option<u64>) -> bool {
        true
    }

    fn write_samples_to<S: Sink<Sample>>(&mut self, sink: &mut S) -> (n: Option<u64>)
        ensures
            old(self).writes(final(self), n),
    ;
}

/// What reads from a source that it is handed.
pub trait SourceOutput<Sample>: Sized {
    /// What the result may be, and what becomes of the output, by its own rules.
    open spec fn reads(&self, after: &Self, n: Option<u64>) -> bool {
        true
    }

    fn read_samples_from<S: Source<Sample>>(&mut self, source: &mut S) -> (n: Option<u64>)
        requires
            old(source).readable(),
        ensures
            final(source).readable(),
            old(self).reads(final(self), n),
    ;
}

/// What can be moved forward by a number of samples without giving them.
pub trait FastForward {
    /// Whether this is in order. What failed still is: it can be moved on, from wherever it got to.
    open spec fn movable(&self) -> bool {
        true
    }

    /// Returns by how many samples; fewer than asked for only at the end of the input. `None` on error.
    fn fast_forward(&mut self, nsamples: u64) -> (n: Option<u64>)
        requires
            old(self).movable(),
        ensures
            final(self).movable(),
            n matches Some(k) ==> k <= nsamples,
    ;
}

/// A source and the output that it is read into.
pub struct ConnectSource<I, O> {
    pub source: I,
    pub out: O,
}

impl<I, O> ConnectSource<I, O> {
    pub fn to_output(source: I, out: O) -> (c: Self)
        ensures
            c.source == source,
            c.out == out,
    {
        ConnectSource { source, out }
    }

    /// Access the source, e.g. to seek it between pulls.
    pub fn source_mut(&mut self) -> (source: &mut I)
        ensures
            *source == old(self).source,
            final(self).source == *final(source),
            final(self).out == old(self).out,
    {
        &mut self.source
    }

    pub fn pull<Sample>(&mut self) -> (n: Option<u64>) where
        I: Source<Sample>,
        O: SourceOutput<Sample>,

        requires
            old(self).source.readable(),
        ensures
            final(self).source.readable(),
            old(self).out.reads(&final(self).out, n),
    {
        self.out.read_samples_from(&mut self.source)
    }
}

/// An input and the sink that it is written to.
pub struct ConnectSink<I, O> {
    pub inp: I,
    pub sink: O,
}

impl<I, O> ConnectSink<I, O> {
    pub fn from_input(inp: I, sink: O) -> (c: Self)
        ensures
            c.inp == inp,
            c.sink == sink,
    {
        ConnectSink { inp, sink }
    }

    pub fn push<Sample>(&mut self) -> (n: Option<u64>) where
        I: SinkInput<Sample>,
        O: Sink<Sample>,

        ensures
            old(self).inp.writes(&final(self).inp, n),
    {
        self.inp.write_samples_to(&mut self.sink)
    }
}

} // verus!
