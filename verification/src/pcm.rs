//! Samples read one by one off a stream of bytes.

use crate::io::{back, Read, ReadExt};
use crate::sample::{signed16, PcmS16Le};
use vstd::prelude::*;

verus! {

/// A sample that is stored as bytes.
pub trait ReadPcm: Sized {
    /// How many bytes a sample takes.
    spec fn size() -> nat;

    /// This is the sample that the bytes hold.
    spec fn is_of(&self, bytes: Seq<u8>) -> bool;

    /// Reads one sample. `None`, and nothing left, where the stream ends before.
    fn collect<R: Read>(inp: &mut R) -> (sample: Option<Self>)
        ensures
            match sample {
                Some(sample) => {
                    &&& old(inp).rest().len() >= Self::size()
                    &&& sample.is_of(old(inp).rest().take(Self::size() as int))
                },
                None => old(inp).rest().len() < Self::size(),
            },
            final(inp).rest() == back(old(inp).rest(), Self::size() as int),
            final(inp).beyond() == old(inp).beyond(),
    ;
}

impl ReadPcm for [i16; 2] {
    open spec fn size() -> nat {
        4
    }

    open spec fn is_of(&self, bytes: Seq<u8>) -> bool {
        &&& self@[0] == signed16(bytes[0], bytes[1])
        &&& self@[1] == signed16(bytes[2], bytes[3])
    }

    fn collect<R: Read>(inp: &mut R) -> (sample: Option<Self>) {
        match inp.read_exact(4) {
            Some(b) => {
                let left: i16 = PcmS16Le([b[0], b[1]]).get();
                let right: i16 = PcmS16Le([b[2], b[3]]).get();
                Some([left, right])
            },
            None => None,
        }
    }
}

/// A sample that another kind of sample can be turned into.
pub trait ConvertPcm<T>: Sized {
    /// This is what the sample is turned into.
    spec fn is_from(&self, sample: T) -> bool;

    fn convert_from(sample: T) -> (converted: Self)
        ensures
            converted.is_from(sample),
    ;
}

impl<T> ConvertPcm<T> for T {
    open spec fn is_from(&self, sample: T) -> bool {
        *self == sample
    }

    fn convert_from(sample: Self) -> (converted: Self) {
        sample
    }
}

/// How samples are taken off a stream.
pub trait Collect<I, S> {
    /// This is what may come of a stream, and what it may leave of it.
    spec fn collects(&self, before: I, after: I, sample: Option<S>) -> bool;

    fn collect(&self, inp: &mut I) -> (sample: Option<S>)
        ensures
            self.collects(*old(inp), *final(inp), sample),
    ;
}

/// One sample has been taken off a stream, or it has ended.
pub open spec fn takes<I: Read>(before: I, after: I, size: nat) -> bool {
    after.rest() == back(before.rest(), size as int)
}

/// Takes samples as they are stored.
#[derive(Debug, Clone, Copy)]
pub struct AsStored;

impl<I: Read, S: ReadPcm> Collect<I, S> for AsStored {
    open spec fn collects(&self, before: I, after: I, sample: Option<S>) -> bool {
        &&& takes(before, after, S::size())
        &&& match sample {
            Some(sample) => before.rest().len() >= S::size() && sample.is_of(before.rest().take(S::size() as int)),
            None => before.rest().len() < S::size(),
        }
    }

    fn collect(&self, inp: &mut I) -> (sample: Option<S>) {
        S::collect(inp)
    }
}

/// Takes 16-bit stereo samples, and turns each into the kind that is asked for.
#[derive(Debug, Clone, Copy)]
pub struct Converted;

impl<I: Read, S: ConvertPcm<[i16; 2]>> Collect<I, S> for Converted {
    open spec fn collects(&self, before: I, after: I, sample: Option<S>) -> bool {
        &&& takes(before, after, 4)
        &&& match sample {
            Some(sample) => before.rest().len() >= 4 && exists|stored: [i16; 2]|
                #[trigger] stored.is_of(before.rest().take(4)) && sample.is_from(stored),
            None => before.rest().len() < 4,
        }
    }

    fn collect(&self, inp: &mut I) -> (sample: Option<S>) {
        let stored: Option<[i16; 2]> = ReadPcm::collect(inp);
        match stored {
            Some(stored) => Some(S::convert_from(stored)),
            None => None,
        }
    }
}

/// The samples of a stream, taken off it one by one.
pub struct PcmReader<I, C> {
    pub data: I,
    pub collect: C,
}

impl<I: Read> PcmReader<I, AsStored> {
    /// The samples as they are stored.
    pub fn new(data: I) -> (r: Self)
        ensures
            r.data == data,
    {
        PcmReader { data, collect: AsStored }
    }
}

impl<I, C> PcmReader<I, C> {
    /// The samples that `collect` takes.
    pub fn from_fn(data: I, collect: C) -> (r: Self)
        ensures
            r.data == data,
            r.collect == collect,
    {
        PcmReader { data, collect }
    }

    /// The next sample. `None` where the stream has ended.
    pub fn next<S>(&mut self) -> (sample: Option<S>) where C: Collect<I, S>
        ensures
            final(self).collect == old(self).collect,
            old(self).collect.collects(old(self).data, final(self).data, sample),
    {
        self.collect.collect(&mut self.data)
    }
}

/// The samples of a stream, by the format they are stored in.
pub enum Samples<I> {
    StereoS16(PcmReader<I, AsStored>),
}

impl<I: Read> Samples<I> {
    /// The bytes that the samples are in.
    pub open spec fn data(self) -> I {
        match self {
            Samples::StereoS16(r) => r.data,
        }
    }

    /// The samples, turned into the kind that is asked for.
    pub fn convert(self) -> (r: PcmReader<I, Converted>)
        ensures
            r.data == self.data(),
    {
        match self {
            Samples::StereoS16(r) => PcmReader::from_fn(r.data, Converted),
        }
    }
}

/// Where nothing is converted, converting changes nothing: the samples are those that are stored.
pub proof fn law_a_conversion_to_itself_changes_nothing<I: Read>(before: I, after: I, sample: Option<[i16; 2]>)
    requires
        Collect::<I, [i16; 2]>::collects(&Converted, before, after, sample),
    ensures
        Collect::<I, [i16; 2]>::collects(&AsStored, before, after, sample),
{
}

} // verus!
