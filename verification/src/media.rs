//! OS media integration: media keys, and the now-playing state the desktop displays.
//!
//! The application publishes a [`Snapshot`] of its now-playing state on every
//! change; a worker coalesces bursts of them down to the latest before applying them to
//! the OS, so scrubbing the queue with a held key reaches the desktop as a handful of updates
//! rather than one per track. Requests coming back the other way - a media key, a button on a
//! desktop widget - arrive as [`Control`] events.
//!
//! Two backends, both of which the coalescing loop drives the same way:
//! [`mpris`](crate::mpris) on Linux (a small MPRIS server on the D-Bus session bus), and the System
//! Media Transport Controls on Windows ([`smtc`](crate::smtc)).

use crate::player::Nanos;
use crate::text::{opt_text, same};
use vstd::prelude::*;

verus! {

/// Minimum spacing between applied updates. Neither backend needs the throttling to keep
/// up - it just collapses the fastest scrub through the queue into a couple of updates
/// rather than one per track, while staying prompt.
pub const MIN_INTERVAL: Nanos = 50_000_000;

/// A snapshot of the now-playing state to reflect to the OS.
#[derive(Debug, Clone)]
pub struct Snapshot {
    /// The track's metadata, or `None` when nothing is loaded.
    pub meta: Option<Meta>,
    pub state: Playback,
    pub position: Nanos,
}

#[derive(Debug, Clone)]
pub struct Meta {
    pub title: String,
    pub album: String,
    pub artist: String,
    /// A `file://` URL to the cover image, for the desktop to display.
    pub cover_url: Option<String>,
    pub duration: Option<Nanos>,
}

#[derive(Debug, Clone, Copy, PartialEq, Eq, Structural)]
pub enum Playback {
    Playing,
    Paused,
    Stopped,
}

/// A control request from the OS (a media key, `playerctl`, or a widget button).
#[derive(Debug, Clone, Copy, PartialEq, Eq, Structural)]
pub enum Control {
    Play,
    Pause,
    Toggle,
    Stop,
    Next,
    Prev,
    /// Relative seek by this signed microsecond offset (MPRIS `Seek`).
    Seek(i64),
    /// Absolute seek to this position (MPRIS `SetPosition`).
    SetPosition(Nanos),
}

/// The texts and times of [`Meta`].
pub struct MetaView {
    pub title: Seq<char>,
    pub album: Seq<char>,
    pub artist: Seq<char>,
    pub cover_url: Option<Seq<char>>,
    pub duration: Option<Nanos>,
}

impl View for Meta {
    type V = MetaView;

    open spec fn view(&self) -> MetaView {
        MetaView {
            title: self.title@,
            album: self.album@,
            artist: self.artist@,
            cover_url: opt_text(self.cover_url),
            duration: self.duration,
        }
    }
}

/// What some metadata says, if there is any.
pub open spec fn opt_meta(meta: Option<Meta>) -> Option<MetaView> {
    match meta {
        Some(meta) => Some(meta@),
        None => None,
    }
}

/// A [`Snapshot`] by what it says.
pub struct SnapshotView {
    pub meta: Option<MetaView>,
    pub state: Playback,
    pub position: Nanos,
}

impl View for Snapshot {
    type V = SnapshotView;

    open spec fn view(&self) -> SnapshotView {
        SnapshotView { meta: opt_meta(self.meta), state: self.state, position: self.position }
    }
}

impl Meta {
    fn copy(&self) -> (m: Meta)
        ensures
            m@ == self@,
    {
        let cover_url: Option<String> = match &self.cover_url {
            Some(url) => Some(url.clone()),
            None => None,
        };
        Meta {
            title: self.title.clone(),
            album: self.album.clone(),
            artist: self.artist.clone(),
            cover_url,
            duration: self.duration,
        }
    }

    fn same(&self, other: &Meta) -> (r: bool)
        ensures
            r == (self@ == other@),
    {
        same(self.title.as_str(), other.title.as_str()) && same(self.album.as_str(), other.album.as_str()) && same(
            self.artist.as_str(),
            other.artist.as_str(),
        ) && same_url(&self.cover_url, &other.cover_url) && self.duration == other.duration
    }
}

/// Whether two optional texts are the same.
pub(crate) fn same_url(a: &Option<String>, b: &Option<String>) -> (r: bool)
    ensures
        r == (opt_text(*a) == opt_text(*b)),
{
    match (a, b) {
        (Some(a), Some(b)) => same(a.as_str(), b.as_str()),
        (None, None) => true,
        _ => false,
    }
}

/// The `file://` URL of a file.
pub uninterp spec fn file_url_of(path: Seq<char>) -> Option<Seq<char>>;

/// `url::Url::from_file_path`: the `file://` URL of an absolute path, by the rules of the platform that
/// the library is built for; none of any other path. The claim names the URL and does not spell it out.
#[verifier::external_body]
pub(crate) fn file_url(path: &str) -> (url: Option<String>)
    ensures
        opt_text(url) == file_url_of(path@),
{
    url::Url::from_file_path(path).ok().map(String::from)
}

/// Which parts of a [`Snapshot`] differ from the one last applied, so a backend can skip the
/// expensive half of an update. Metadata is comparatively heavy on both platforms - a properties
/// signal with a full dictionary, or a display-updater commit - and clients that redraw on it do
/// not want one per position tick.
#[derive(Debug, Clone, Copy, PartialEq, Eq, Structural)]
pub struct Changed {
    pub meta: bool,
    pub state: bool,
}

/// What the worker last applied to the OS.
pub struct Shown {
    pub meta: Option<Meta>,
    pub state: Option<Playback>,
}

/// The texts of what was last applied.
pub struct ShownView {
    pub meta: Option<MetaView>,
    pub state: Option<Playback>,
}

impl View for Shown {
    type V = ShownView;

    open spec fn view(&self) -> ShownView {
        ShownView { meta: opt_meta(self.meta), state: self.state }
    }
}

impl ShownView {
    /// What a snapshot changes of what is shown.
    pub open spec fn changed(self, snapshot: SnapshotView) -> Changed {
        Changed { meta: snapshot.meta != self.meta, state: self.state != Some(snapshot.state) }
    }

    /// What is shown once a snapshot has been applied.
    pub open spec fn after(self, snapshot: SnapshotView) -> ShownView {
        ShownView { meta: snapshot.meta, state: Some(snapshot.state) }
    }
}

impl Shown {
    /// Nothing has been applied yet.
    pub fn nothing() -> (s: Shown)
        ensures
            s@ == (ShownView { meta: None, state: None }),
    {
        Shown { meta: None, state: None }
    }

    /// Takes note of a snapshot about to be applied: which parts of it the OS does not show yet.
    pub fn note(&mut self, snapshot: &Snapshot) -> (changed: Changed)
        ensures
            changed == old(self)@.changed(snapshot@),
            final(self)@ == old(self)@.after(snapshot@),
    {
        let meta: bool = match (&self.meta, &snapshot.meta) {
            (Some(shown), Some(meta)) => !meta.same(shown),
            (None, None) => false,
            _ => true,
        };
        if meta {
            self.meta = match &snapshot.meta {
                Some(meta) => Some(meta.copy()),
                None => None,
            };
        }
        let state: bool = match self.state {
            Some(shown) => shown != snapshot.state,
            None => true,
        };
        if state {
            self.state = Some(snapshot.state);
        }
        Changed { meta, state }
    }
}

/// A snapshot, and everything already queued behind it: only the last of a burst matters.
pub fn coalesced(first: Snapshot, queued: Vec<Snapshot>) -> (latest: Snapshot)
    ensures
        latest == (if queued.len() == 0 {
            first
        } else {
            queued[queued.len() - 1]
        }),
{
    let mut queued = queued;
    match queued.pop() {
        Some(latest) => latest,
        None => first,
    }
}

/// Applying the same state again changes nothing that the OS shows, wherever playback has got to since.
pub proof fn law_position_alone_changes_nothing(shown: ShownView, a: SnapshotView, b: SnapshotView)
    requires
        a.meta == b.meta,
        a.state == b.state,
    ensures
        shown.after(a).changed(b) == (Changed { meta: false, state: false }),
        shown.after(a).after(b) == shown.after(a),
{
}

/// The first snapshot's state is always news.
pub proof fn law_the_first_state_is_shown(snapshot: SnapshotView)
    ensures
        (ShownView { meta: None, state: None }).changed(snapshot).state,
{
}

/// Updates are at least fifty milliseconds apart.
pub proof fn law_updates_are_spaced()
    ensures
        20 * MIN_INTERVAL == 1_000_000_000,
{
}

} // verus!
