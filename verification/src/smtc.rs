//! The Windows [`media`](crate::media) backend: what the System Media Transport Controls -- the
//! now-playing flyout above the volume OSD, the lock-screen card, and the media keys that go with
//! them -- are told, and what they ask for.

use crate::media::{same_url, Control, MetaView, Snapshot, SnapshotView};
use crate::mpris::positioned;
use crate::player::Nanos;
use crate::text::opt_text;
use vstd::prelude::*;

verus! {

/// A transport button.
#[derive(Debug, Clone, Copy, PartialEq, Eq, Structural)]
pub enum Button {
    Play,
    Pause,
    Stop,
    Next,
    Previous,
    /// Record, channel up/down and friends -- reachable on some remotes even when the flyout does not
    /// show them.
    Other,
}

/// The transport button as a [`Control`], or `None` for the ones that are not offered.
///
/// The single play/pause key on most keyboards arrives as Play or Pause depending on the
/// status last published, so there is no Toggle to map -- which is why publishing the
/// playback status promptly matters here.
pub fn as_control(button: Button) -> (r: Option<Control>)
    ensures
        r == (match button {
            Button::Play => Some(Control::Play),
            Button::Pause => Some(Control::Pause),
            Button::Stop => Some(Control::Stop),
            Button::Next => Some(Control::Next),
            Button::Previous => Some(Control::Prev),
            Button::Other => None,
        }),
{
    match button {
        Button::Play => Some(Control::Play),
        Button::Pause => Some(Control::Pause),
        Button::Stop => Some(Control::Stop),
        Button::Next => Some(Control::Next),
        Button::Previous => Some(Control::Prev),
        Button::Other => None,
    }
}

/// What a drag of the flyout's scrubber asks for. A WinRT time span counts 100-nanosecond units, and a
/// negative one is not a position; less than a microsecond is dropped towards zero.
pub fn position_requested(span: i64) -> (r: Option<Control>)
    ensures
        r == positioned(
            if span < 0 {
                -((-span) / 10)
            } else {
                span / 10
            },
        ),
{
    if span <= -10 {
        None
    } else if span < 0 {
        crate::mpris::set_position(0)
    } else {
        crate::mpris::set_position(span / 10)
    }
}

/// A time as a WinRT time span, which counts 100-nanosecond units.
pub fn time_span(d: Nanos) -> (ticks: i64)
    ensures
        ticks == d / 100,
{
    (d / 100) as i64
}

/// The scrubber's extent and where in it playback is, in nanoseconds.
#[derive(Debug, Clone, Copy, PartialEq, Eq, Structural)]
pub struct Timeline {
    pub end: Nanos,
    pub position: Nanos,
}

/// The timeline of a snapshot: it ends with the track, or at the position where the track's length is not
/// known, and the position stays in it.
pub open spec fn timeline_of(snapshot: SnapshotView) -> Timeline {
    let end = match snapshot.meta {
        Some(MetaView { duration: Some(d), .. }) => d,
        _ => snapshot.position,
    };
    Timeline {
        end,
        position: if snapshot.position <= end {
            snapshot.position
        } else {
            end
        },
    }
}

/// The scrubber's extent and where in it playback is. Start and end frame the track rather than the
/// queue, matching what the position is measured against.
pub fn timeline(snapshot: &Snapshot) -> (t: Timeline)
    ensures
        t == timeline_of(snapshot@),
        t.position <= t.end,
{
    let end: Nanos = match &snapshot.meta {
        Some(meta) => match meta.duration {
            Some(d) => d,
            None => snapshot.position,
        },
        None => snapshot.position,
    };
    let position: Nanos = if snapshot.position <= end {
        snapshot.position
    } else {
        end
    };
    Timeline { end, position }
}

/// What becomes of the cover on the card.
#[derive(Debug)]
pub enum Cover {
    /// The shell has it already: the cover is read from the file by the shell, asynchronously, so handing
    /// it the same reference twice is wasted work on both sides.
    Keep,
    /// The shell is pointed at this URL.
    Show(String),
    /// There is none.
    Clear,
}

/// The cover last handed to the shell, by its URL. It is remembered even where the shell could not open
/// it: such a cover will not start working on the next position tick.
pub struct CoverShown {
    pub url: Option<String>,
}

impl CoverShown {
    /// What a track's cover asks for, given what the shell was handed last.
    pub fn show(&mut self, cover_url: &Option<String>) -> (cover: Cover)
        ensures
            opt_text(final(self).url) == opt_text(*cover_url),
            match cover {
                Cover::Keep => opt_text(old(self).url) == opt_text(*cover_url),
                Cover::Show(url) => Some(url@) == opt_text(*cover_url) && opt_text(old(self).url) != Some(url@),
                Cover::Clear => cover_url is None && old(self).url is Some,
            },
    {
        if same_url(&self.url, cover_url) {
            Cover::Keep
        } else {
            match cover_url {
                Some(url) => {
                    self.url = Some(url.clone());
                    Cover::Show(url.clone())
                },
                None => {
                    self.url = None;
                    Cover::Clear
                },
            }
        }
    }

    /// The card is cleared: nothing is loaded.
    pub fn clear(&mut self)
        ensures
            final(self).url is None,
    {
        self.url = None;
    }
}

/// The timeline ends where the track does, or where it is while that is not known; the position is never behind
/// the end.
pub proof fn law_the_timeline_holds_the_position(snapshot: SnapshotView)
    ensures
        timeline_of(snapshot).position <= timeline_of(snapshot).end,
        snapshot.meta is Some && snapshot.meta->0.duration is Some ==> timeline_of(snapshot).end
            == snapshot.meta->0.duration->0,
        snapshot.meta is None || snapshot.meta->0.duration is None ==> timeline_of(snapshot).end == snapshot.position
            && timeline_of(snapshot).position == snapshot.position,
        snapshot.position <= timeline_of(snapshot).end ==> timeline_of(snapshot).position == snapshot.position,
{
}

} // verus!
