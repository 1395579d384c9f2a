//! Per-application volume, delegated to the OS mixer -- never applied to the samples we decode.
//!
//! The mixer lists the streams that are playing; ours are found by the process they come from. Its
//! readings -- the initial one, and external changes from any mixer UI -- are reported when they change, so
//! an application can mirror the mixer without polling. A reading is the volume as a factor of 100%, by the
//! bits of an IEEE 754 float.

use crate::player::Nanos;
use crate::text::same;
use vstd::prelude::*;

verus! {

/// One of our streams: what the mixer calls it, and its number of channels (needed to build a matching
/// volume).
#[derive(Debug, Clone, Copy, PartialEq, Eq, Structural)]
pub struct Stream {
    pub index: u32,
    pub channels: u8,
}

/// What is known about the application's streams.
#[derive(Debug)]
pub struct Mixer {
    pub ours: Vec<Stream>,
    /// The last volume reported, to swallow no-op change events (our own sets echo back as one).
    pub reported: Option<u32>,
}

/// The channels of some streams, by what the mixer calls them.
pub open spec fn channels_of(ours: Seq<Stream>) -> Map<u32, u8>
    decreases ours.len(),
{
    if ours.len() == 0 {
        Map::empty()
    } else {
        channels_of(ours.drop_last()).insert(ours.last().index, ours.last().channels)
    }
}

proof fn lemma_channels(ours: Seq<Stream>, index: u32)
    ensures
        channels_of(ours).dom().contains(index) <==> exists|k: int|
            0 <= k < ours.len() && (#[trigger] ours[k]).index == index,
    decreases ours.len(),
{
    if ours.len() > 0 {
        let init = ours.drop_last();
        lemma_channels(init, index);
        if exists|k: int| 0 <= k < ours.len() && (#[trigger] ours[k]).index == index {
            let k = choose|k: int| 0 <= k < ours.len() && (#[trigger] ours[k]).index == index;
            if k < init.len() {
                assert(init[k].index == index);
            }
        }
        if exists|k: int| 0 <= k < init.len() && (#[trigger] init[k]).index == index {
            let k = choose|k: int| 0 <= k < init.len() && (#[trigger] init[k]).index == index;
            assert(ours[k].index == index);
        }
        assert(ours[ours.len() - 1] == ours.last());
    }
}

/// No stream is listed twice.
pub open spec fn is_listed_once(ours: Seq<Stream>) -> bool {
    forall|i: int, j: int| 0 <= i < j < ours.len() ==> (#[trigger] ours[i]).index != (#[trigger] ours[j]).index
}

proof fn lemma_without(ours: Seq<Stream>, k: int)
    requires
        0 <= k < ours.len(),
        is_listed_once(ours),
    ensures
        is_listed_once(ours.remove(k)),
        channels_of(ours.remove(k)) == channels_of(ours).remove(ours[k].index),
        !channels_of(ours.remove(k)).dom().contains(ours[k].index),
    decreases ours.len(),
{
    let rest = ours.remove(k);
    let init = ours.drop_last();
    assert forall|i: int, j: int| 0 <= i < j < rest.len() implies (#[trigger] rest[i]).index != (#[trigger] rest[j]).index by {
        let oi = if i < k {
            i
        } else {
            i + 1
        };
        let oj = if j < k {
            j
        } else {
            j + 1
        };
        assert(rest[i] == ours[oi] && rest[j] == ours[oj]);
    }
    if k == ours.len() - 1 {
        assert(rest =~= init);
        lemma_channels(init, ours[k].index);
        assert(channels_of(rest) =~= channels_of(ours).remove(ours[k].index));
    } else {
        assert(is_listed_once(init));
        lemma_without(init, k);
        assert(rest.drop_last() =~= init.remove(k));
        assert(rest.last() == ours.last());
        assert(ours[k].index != ours[ours.len() - 1].index);
        assert(channels_of(rest) =~= channels_of(ours).remove(ours[k].index));
    }
}

impl Mixer {
    pub open spec fn wf(&self) -> bool {
        is_listed_once(self.ours@)
    }

    /// Our streams, and their channels.
    pub open spec fn streams(&self) -> Map<u32, u8> {
        channels_of(self.ours@)
    }

    pub fn new() -> (m: Self)
        ensures
            m.wf(),
            m.streams() == Map::<u32, u8>::empty(),
            m.reported is None,
    {
        Mixer { ours: Vec::new(), reported: None }
    }

    /// Says which of the listed streams has the given index.
    fn find(&self, index: u32) -> (k: Option<usize>)
        ensures
            match k {
                Some(k) => k < self.ours@.len() && self.ours@[k as int].index == index,
                None => forall|k: int| 0 <= k < self.ours@.len() ==> (#[trigger] self.ours@[k]).index != index,
            },
    {
        let mut k: usize = 0;
        while k < self.ours.len()
            invariant
                k <= self.ours.len(),
                forall|i: int| 0 <= i < k ==> (#[trigger] self.ours@[i]).index != index,
            decreases self.ours.len() - k,
        {
            if self.ours[k].index == index {
                return Some(k);
            }
            k = k + 1;
        }
        None
    }

    /// A stream is gone.
    pub fn remove(&mut self, index: u32)
        requires
            old(self).wf(),
        ensures
            final(self).wf(),
            final(self).streams() == old(self).streams().remove(index),
            final(self).reported == old(self).reported,
    {
        match self.find(index) {
            Some(k) => {
                proof {
                    lemma_without(self.ours@, k as int);
                }
                self.ours.remove(k);
            },
            None => {
                proof {
                    lemma_channels(self.ours@, index);
                    assert(self.streams().remove(index) =~= self.streams());
                }
            },
        }
    }

    /// Reports a reading, where it differs from the last one.
    pub fn read(&mut self, reading: u32) -> (report: Option<u32>)
        ensures
            final(self).ours == old(self).ours,
            final(self).reported == Some(reading),
            report == (if old(self).reported == Some(reading) {
                None
            } else {
                Some(reading)
            }),
    {
        let news: bool = match self.reported {
            Some(last) => last != reading,
            None => true,
        };
        self.reported = Some(reading);
        if news {
            Some(reading)
        } else {
            None
        }
    }

    /// Digests one listing of a stream: adopt it if it belongs to this process, and report its
    /// volume when it changed. The mixer carries the process id for every local client.
    pub fn digest(&mut self, pid: &Option<String>, own: &str, stream: Stream, reading: u32) -> (report: Option<u32>)
        requires
            old(self).wf(),
        ensures
            final(self).wf(),
            if (pid matches Some(pid) && pid@ == own@) {
                &&& final(self).streams() == old(self).streams().insert(stream.index, stream.channels)
                &&& final(self).reported == Some(reading)
                &&& report == (if old(self).reported == Some(reading) {
                    None
                } else {
                    Some(reading)
                })
            } else {
                *final(self) == *old(self) && report is None
            },
    {
        let ours: bool = match pid {
            Some(pid) => same(pid.as_str(), own),
            None => false,
        };
        if !ours {
            return None;
        }
        self.remove(stream.index);
        let ghost before = self.ours@;
        self.ours.push(stream);
        proof {
            assert(self.ours@.drop_last() =~= before);
            lemma_channels(before, stream.index);
            assert(self.streams() =~= old(self).streams().insert(stream.index, stream.channels));
        }
        self.read(reading)
    }
}

/// Of a burst of requests (wheel, held key), only the last counts.
pub fn last(requests: &Vec<u32>) -> (r: Option<u32>)
    ensures
        r == (if requests@.len() == 0 {
            None
        } else {
            Some(requests@.last())
        }),
{
    if requests.len() == 0 {
        None
    } else {
        Some(requests[requests.len() - 1])
    }
}

/// How often to look for new audio sessions once we have some. Short enough that a stream
/// reopened mid-track is picked back up within a beat, long enough to stay idle-cheap.
pub const RESCAN: Nanos = 2_000_000_000;

/// Whether to look for audio sessions: on a timer once we have some, and every round until then, since at
/// startup the engine may not have opened its stream yet.
pub fn rescan_due(scanned: Option<Nanos>, sessions: usize, now: Nanos) -> (due: bool)
    ensures
        due == (match scanned {
            None => true,
            Some(at) => sessions == 0 || crate::sink::elapsed(at, now) >= RESCAN,
        }),
{
    match scanned {
        None => true,
        Some(at) => sessions == 0 || now.saturating_sub(at) >= RESCAN,
    }
}

/// Our streams are those that are listed, each with the channels that it is listed with.
pub proof fn law_streams_keep_their_channels(ours: Seq<Stream>, k: int)
    requires
        is_listed_once(ours),
        0 <= k < ours.len(),
    ensures
        channels_of(ours).dom().contains(ours[k].index),
        channels_of(ours)[ours[k].index] == ours[k].channels,
    decreases ours.len(),
{
    if k < ours.len() - 1 {
        let before = ours.drop_last();
        assert(ours[k].index != ours[ours.len() - 1].index);
        assert(is_listed_once(before)) by {
            assert forall|i: int, j: int| 0 <= i < j < before.len() implies (#[trigger] before[i]).index != (
            #[trigger] before[j]).index by {
                assert(ours[i].index != ours[j].index);
            }
        }
        law_streams_keep_their_channels(before, k);
    }
}

} // verus!
