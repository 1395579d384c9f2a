//! The audio output: where the [`player`](crate::player) engine's decoded frames go.
//!
//! One blocking interface, because that blocking *is* the engine's pacing: it decodes exactly as fast as
//! the audio clock drains. Only the rate can change between tracks (everything is reduced to 16-bit stereo
//! before it gets here), which is handled by reopening the stream and letting the audio server
//! resample, so we never resample ourselves.
//!
//! When no device can be opened, playback falls back to [`Silence`], which paces off the wall clock so the
//! queue still advances in real time.
//!
//! Whoever holds the device does what is decided here.

use crate::player::{length, length_of, Nanos};
use crate::text::same;
use vstd::prelude::*;

verus! {

/// How the audio server identifies this application, e.g. in a volume mixer.
#[derive(Debug, Clone)]
pub struct Client {
    pub name: String,
    pub description: String,
}

/// The deviceless fallback: paces off the wall clock so a queue played without an audio device
/// still advances at the speed it would have, rather than spinning through itself as fast as it
/// decodes.
#[derive(Debug, Clone, Copy, PartialEq, Eq, Structural)]
pub struct Silence {
    pub rate: u32,
    /// When the stream started, and how many frames have been "played" since - the two together
    /// give the instant the next chunk is due, without drift accumulating per chunk.
    pub started: Nanos,
    pub frames: u64,
}

/// How long has passed since an instant; nothing where the clock shows less.
pub open spec fn elapsed(since: Nanos, now: Nanos) -> int {
    if now >= since {
        now - since
    } else {
        0
    }
}

impl Silence {
    pub fn new(rate: u32, now: Nanos) -> (s: Self)
        ensures
            s == (Silence { rate, started: now, frames: 0 }),
    {
        Silence { rate, started: now, frames: 0 }
    }

    /// Takes a chunk, and says how long to wait until it has been played. Nothing to wait for where we
    /// have fallen behind (a slow decode, a suspended process): the chunk is already overdue and we carry
    /// straight on.
    pub fn write(&mut self, frames: usize, now: Nanos) -> (wait: Option<u128>)
        requires
            old(self).rate > 0,
            old(self).frames + frames <= u64::MAX,
        ensures
            *final(self) == taken(*old(self), frames as nat),
            ({
                let due = length_of(final(self).frames, old(self).rate);
                let passed = elapsed(old(self).started, now);
                match wait {
                    Some(wait) => wait == due - passed,
                    None => due < passed,
                }
            }),
    {
        self.frames = self.frames + frames as u64;
        let due: u128 = length(self.frames, self.rate);
        let passed: u128 = now.saturating_sub(self.started) as u128;
        if due >= passed {
            Some(due - passed)
        } else {
            None
        }
    }
}

/// A silent stream that has taken some frames more.
pub open spec fn taken(s: Silence, frames: nat) -> Silence {
    Silence { frames: (s.frames + frames) as u64, ..s }
}

/// Chunks are due at absolute offsets from the start: however the frames are cut into chunks, and whatever
/// was waited for in between, the next one is due when all frames so far would have been played. A chunk
/// that ran late is not paid for twice.
pub proof fn law_silence_does_not_accumulate_drift(s: Silence, a: nat, b: nat, now: Nanos)
    requires
        s.frames + a + b <= u64::MAX,
    ensures
        taken(taken(s, a), b) == taken(s, a + b),
        length_of(taken(taken(s, a), b).frames, s.rate) - elapsed(s.started, now) == length_of(
            taken(s, a + b).frames,
            s.rate,
        ) - elapsed(s.started, now),
{
}

/// A chunk that is waited for takes its time: once the wait is over, as much time has passed as the frames
/// so far take.
pub proof fn law_silence_paces_off_the_wall_clock(s: Silence, now: Nanos, wait: int, later: Nanos)
    requires
        wait == length_of(s.frames, s.rate) - elapsed(s.started, now),
        now >= s.started,
        wait >= 0,
        later >= now + wait,
    ensures
        elapsed(s.started, later) >= length_of(s.frames, s.rate),
{
}

/// Where the frames go.
#[derive(Debug, Clone, Copy, PartialEq, Eq, Structural)]
pub enum Out {
    Device,
    /// No device could be opened: the queue still runs, just inaudibly.
    Silent(Silence),
}

/// An open output stream. Reopened only when a track's sample rate differs from the current one.
#[derive(Debug, Clone, Copy, PartialEq, Eq, Structural)]
pub struct Sink {
    /// The rate the stream was opened at, so the caller can tell when a track needs a new one.
    pub rate: u32,
    pub out: Out,
}

/// What is to be done with a chunk.
#[derive(Debug, Clone, Copy, PartialEq, Eq, Structural)]
pub enum Chunk {
    /// There is nothing in it.
    Drop,
    /// Hand it to the device, and say how that went.
    Feed,
    /// It is not heard: wait so long, where there is anything to wait for.
    Pass(Option<u128>),
}

/// How a chunk went.
#[derive(Debug, Clone, Copy, PartialEq, Eq, Structural)]
pub enum Fed {
    /// The device took it, and is still the one to be playing on.
    Taken,
    /// The device took it, but is no longer the one to be playing on, because the listener plugged in a
    /// headset or picked another output.
    Stale,
    /// The device is gone (unplugged, disabled).
    Failed,
}

impl Sink {
    /// The output at `rate`, given whether a device could be opened. Never fails: without a device the
    /// frames go nowhere (see [`Silence`]), which keeps a missing or busy sound card from taking the
    /// player down.
    pub fn new(rate: u32, opened: bool, now: Nanos) -> (sink: Self)
        ensures
            sink.rate == rate,
            sink.out == (if opened {
                Out::Device
            } else {
                Out::Silent(Silence { rate, started: now, frames: 0 })
            }),
    {
        let out: Out = if opened {
            Out::Device
        } else {
            Out::Silent(Silence::new(rate, now))
        };
        Sink { rate, out }
    }

    /// Whether the stream is to be reopened for a track of the given rate. The frames we output are
    /// always 16-bit stereo, so the rate is the only thing that can change between tracks.
    pub fn ensure_rate(&self, rate: u32) -> (reopen: bool)
        ensures
            reopen == (self.rate != rate),
    {
        self.rate != rate
    }

    /// Takes one chunk, and says what is to be done with it.
    pub fn write(&mut self, frames: usize, now: Nanos) -> (chunk: Chunk)
        requires
            old(self).out matches Out::Silent(s) ==> s.rate > 0 && s.frames + frames <= u64::MAX,
        ensures
            final(self).rate == old(self).rate,
            frames == 0 ==> chunk == Chunk::Drop && *final(self) == *old(self),
            frames > 0 ==> match old(self).out {
                Out::Device => chunk == Chunk::Feed && final(self).out == Out::Device,
                Out::Silent(s) => {
                    let after = taken(s, frames as nat);
                    let due = length_of(after.frames, s.rate);
                    let passed = elapsed(s.started, now);
                    &&& final(self).out == Out::Silent(after)
                    &&& match chunk {
                        Chunk::Pass(Some(wait)) => wait == due - passed,
                        Chunk::Pass(None) => due < passed,
                        _ => false,
                    }
                },
            },
    {
        if frames == 0 {
            return Chunk::Drop;
        }
        match self.out {
            Out::Device => Chunk::Feed,
            Out::Silent(silence) => {
                let mut silence: Silence = silence;
                let wait: Option<u128> = silence.write(frames, now);
                self.out = Out::Silent(silence);
                Chunk::Pass(wait)
            },
        }
    }

    /// Whether the stream is to be reopened, on whatever device there now is, after a chunk went as it did.
    /// Costs the chunk in hand and whatever the old device had buffered.
    pub fn reopens(fed: Fed) -> (reopen: bool)
        ensures
            reopen == (fed != Fed::Taken),
    {
        match fed {
            Fed::Taken => false,
            Fed::Stale => true,
            Fed::Failed => true,
        }
    }
}

/// How often to ask whether we are still on the default endpoint. Each check is an inter-process
/// call to the audio service, so not every chunk; short enough that plugging in a headset moves
/// the music within about the time the switch itself takes to settle.
pub const DEFAULT_CHECK: Nanos = 500_000_000;

/// The endpoint a stream was opened on, by its stable id, and when it was last confirmed to still be the
/// default. A stream is bound for life to its endpoint, and nothing about it fails when the default merely
/// moves elsewhere.
#[derive(Debug)]
pub struct Endpoint {
    pub id: String,
    pub checked: Nanos,
}

impl Endpoint {
    /// Whether it is time to ask for the default endpoint. Then it has been asked for now.
    pub fn is_due(&mut self, now: Nanos) -> (due: bool)
        ensures
            due == (elapsed(old(self).checked, now) >= DEFAULT_CHECK),
            final(self).id == old(self).id,
            final(self).checked == (if due {
                now
            } else {
                old(self).checked
            }),
    {
        if now.saturating_sub(self.checked) < DEFAULT_CHECK {
            false
        } else {
            self.checked = now;
            true
        }
    }

    /// Whether the stream is on another endpoint than the default one. A failure to ask counts as "no" -
    /// the audio service being briefly unreachable is not a reason to tear a working stream down, and an
    /// endpoint that has really gone will fail the next write instead.
    pub fn is_stale(&self, default: &Option<String>) -> (stale: bool)
        ensures
            stale == (match *default {
                Some(id) => id@ != self.id@,
                None => false,
            }),
    {
        match default {
            Some(id) => !same(id.as_str(), self.id.as_str()),
            None => false,
        }
    }
}

/// How many frames of a chunk the device can take now, given its buffer's size and how much of it is still
/// unplayed. None where it is full: nothing to do until the device has played some of it.
pub fn room(capacity: u32, padding: u32, left: usize) -> (n: Option<usize>)
    requires
        left > 0,
    ensures
        match n {
            Some(n) => padding < capacity && n == (if capacity - padding < left {
                capacity - padding
            } else {
                left as int
            }) && n > 0,
            None => padding >= capacity,
        },
{
    let room: u32 = capacity.saturating_sub(padding);
    if room == 0 {
        None
    } else if (room as usize) < left {
        Some(room as usize)
    } else {
        Some(left)
    }
}

} // verus!
