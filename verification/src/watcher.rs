//! Filesystem watching: notices changes under the music directory, so the library can rescan promptly
//! instead of waiting for the next periodic poll.
//!
//! Consumers get one report per *settled burst* of changes: filesystem events arrive in storms
//! (copying an album in produces hundreds), so nothing is reported until the directory has been
//! quiet for a while. What changed is irrelevant here -- the rescan is incremental anyway.

use crate::player::Nanos;
use vstd::prelude::*;

verus! {

/// How long the directory must stay quiet before a burst of changes is reported.
pub const QUIET_PERIOD: Nanos = 2_000_000_000;

/// A change in the directory, or a mere access.
#[derive(Debug, Clone, Copy, PartialEq, Eq, Structural)]
pub enum Change {
    /// Access events fire for mere reads -- including our own playback and scanning -- and can't change
    /// what a scan would find.
    Access,
    Other,
}

/// Whether an event counts as a change.
pub fn counts(change: Change) -> (r: bool)
    ensures
        r == (change != Change::Access),
{
    match change {
        Change::Access => false,
        Change::Other => true,
    }
}

/// What the debouncer waits for.
#[derive(Debug, Clone, Copy, PartialEq, Eq, Structural)]
pub enum Debounce {
    /// The first event of a burst.
    Quiet,
    /// The rest of it: another event, or nothing for the quiet period.
    Busy,
    /// Nothing: whoever sent the events is gone, or whoever receives the reports.
    Over,
}

/// What the debouncer is told.
#[derive(Debug, Clone, Copy, PartialEq, Eq, Structural)]
pub enum Wake {
    /// There was a change.
    Event,
    /// The quiet period has passed without one.
    Settled,
    /// The watcher is gone.
    Gone,
}

impl Debounce {
    /// Where the debouncer goes, and whether a burst is to be reported.
    pub open spec fn after(self, wake: Wake) -> (Debounce, bool) {
        match (self, wake) {
            (Debounce::Over, _) => (Debounce::Over, false),
            (_, Wake::Gone) => (Debounce::Over, false),
            (_, Wake::Event) => (Debounce::Busy, false),
            (Debounce::Busy, Wake::Settled) => (Debounce::Quiet, true),
            (Debounce::Quiet, Wake::Settled) => (Debounce::Quiet, false),
        }
    }

    /// Coalesces raw filesystem events into one report per settled burst: after the first event, it
    /// waits until nothing more has arrived for the quiet period, then reports once.
    pub fn step(&mut self, wake: Wake) -> (report: bool)
        ensures
            (*final(self), report) == old(self).after(wake),
    {
        match wake {
            Wake::Gone => {
                *self = Debounce::Over;
                false
            },
            Wake::Event => match *self {
                Debounce::Over => false,
                _ => {
                    *self = Debounce::Busy;
                    false
                },
            },
            Wake::Settled => match *self {
                Debounce::Busy => {
                    *self = Debounce::Quiet;
                    true
                },
                _ => false,
            },
        }
    }

    /// A report could not be handed over. A full channel only means that a report is already pending: the
    /// burst coalesces into it. A closed one ends the debouncing.
    pub fn refused(&mut self, closed: bool)
        ensures
            *final(self) == (if closed {
                Debounce::Over
            } else {
                *old(self)
            }),
    {
        if closed {
            *self = Debounce::Over;
        }
    }
}

/// The debouncer after some of what it is told.
pub open spec fn run(start: Debounce, wakes: Seq<Wake>) -> Debounce
    decreases wakes.len(),
{
    if wakes.len() == 0 {
        start
    } else {
        run(start, wakes.drop_last()).after(wakes.last()).0
    }
}

/// How often it reports.
pub open spec fn reports(start: Debounce, wakes: Seq<Wake>) -> nat
    decreases wakes.len(),
{
    if wakes.len() == 0 {
        0
    } else {
        reports(start, wakes.drop_last()) + if run(start, wakes.drop_last()).after(wakes.last()).1 {
            1nat
        } else {
            0nat
        }
    }
}

proof fn lemma_burst(events: Seq<Wake>)
    requires
        forall|k: int| 0 <= k < events.len() ==> #[trigger] events[k] == Wake::Event,
    ensures
        reports(Debounce::Quiet, events) == 0,
        run(Debounce::Quiet, events) == (if events.len() == 0 {
            Debounce::Quiet
        } else {
            Debounce::Busy
        }),
    decreases events.len(),
{
    if events.len() > 0 {
        let init = events.drop_last();
        assert forall|k: int| 0 <= k < init.len() implies #[trigger] init[k] == Wake::Event by {
            assert(init[k] == events[k]);
        }
        lemma_burst(init);
        assert(events[events.len() - 1] == Wake::Event);
    }
}

/// A burst of changes produces exactly one report, when it has settled; and nothing more after that, as
/// long as the directory stays quiet.
pub proof fn law_bursts_are_debounced_into_single_reports(events: Seq<Wake>, quiet: Seq<Wake>)
    requires
        events.len() > 0,
        forall|k: int| 0 <= k < events.len() ==> #[trigger] events[k] == Wake::Event,
        forall|k: int| 0 <= k < quiet.len() ==> #[trigger] quiet[k] == Wake::Settled,
    ensures
        reports(Debounce::Quiet, events) == 0,
        reports(Debounce::Quiet, events.push(Wake::Settled) + quiet) == 1,
        run(Debounce::Quiet, events.push(Wake::Settled) + quiet) == Debounce::Quiet,
    decreases quiet.len(),
{
    lemma_burst(events);
    let settled = events.push(Wake::Settled);
    if quiet.len() == 0 {
        assert(settled + quiet =~= settled);
        assert(settled.drop_last() =~= events);
    } else {
        let init = quiet.drop_last();
        assert forall|k: int| 0 <= k < init.len() implies #[trigger] init[k] == Wake::Settled by {
            assert(init[k] == quiet[k]);
        }
        law_bursts_are_debounced_into_single_reports(events, init);
        assert((settled + quiet).drop_last() =~= settled + init);
        assert((settled + quiet).last() == quiet.last());
        assert(quiet[quiet.len() - 1] == Wake::Settled);
    }
}

/// A burst of changes has settled once nothing has come for two seconds.
pub proof fn law_a_burst_settles_in_two_seconds()
    ensures
        QUIET_PERIOD == 2 * 1_000_000_000,
{
}

} // verus!
