//! The application model: all state, and the queue/album-run bookkeeping around it.

use crate::browse::{filtered, is_filtered, Filter, FilterView, PickerSubject};
use crate::hires::{HiResCache, HiResView};
use crate::library::{copy_cover, Album, CoverArt, Rgb, ScanOptions, ScanOptionsView, TrackInfo};
use crate::media::{Snapshot, SnapshotView};
use crate::path::{file_stem, file_stem_of, hash_text, parent, parent_of, text_writes};
use crate::player::{Cmd, CmdView, Entry, Nanos, PlayState, Repeat};
use crate::queue::distinct;
use crate::search::{rank, rank_of};
use crate::session::{Restored, SavedPlayer, SavedPlaylist};
use crate::sort::SortOrder;
use crate::text::same;
use core::ops::Range;
use std::collections::hash_map::DefaultHasher;
use std::hash::Hasher;
use vstd::prelude::*;
use vstd::std_specs::hash::DefaultHasherAdditionalSpecFns;
use vstd::string::*;

verus! {

/// What the window shows.
#[derive(Debug, Clone, Copy, PartialEq, Eq, Hash, Structural)]
pub enum Screen {
    Library,
    Player,
}

impl Screen {
    /// The screen behind this one in tab order, wrapping around; with two of them, also the one before.
    pub open spec fn other(self) -> Screen {
        match self {
            Screen::Library => Screen::Player,
            Screen::Player => Screen::Library,
        }
    }

    /// The next/previous view in tab order, wrapping around -- what Tab / Shift-Tab select.
    pub fn next(self) -> (s: Self)
        ensures
            s == self.other(),
    {
        match self {
            Screen::Library => Screen::Player,
            Screen::Player => Screen::Library,
        }
    }

    pub fn prev(self) -> (s: Self)
        ensures
            s == self.other(),
    {
        match self {
            Screen::Library => Screen::Player,
            Screen::Player => Screen::Library,
        }
    }
}

/// Going to the next view and back leads nowhere new.
pub proof fn law_views_go_in_a_ring(screen: Screen)
    ensures
        screen.other().other() == screen,
        screen.other() != screen,
{
}

#[derive(Debug, Clone, Copy, PartialEq, Eq, Structural)]
pub enum ScanState {
    Scanning,
    Complete,
}

/// A modal open over the current view; at most one at a time, by construction.
#[derive(Debug)]
pub enum Modal {
    /// An album's track menu (see [`TrackMenu`]).
    Tracks(TrackMenu),
    /// The player actions menu (shuffle, and eventually export and friends), opened from the
    /// player bar's ellipsis button.
    Actions,
    /// A searchable filter picker (see [`Picker`]), opened from the library's filter bar.
    Picker(Picker),
    /// The sort-order picker.
    Sort(SortMenu),
}

impl Modal {
    /// The payload-free kind, for contexts that only care which modal is up (the keyboard
    /// subscription identity, which must not churn as a menu's selection moves).
    pub fn kind(&self) -> (kind: ModalKind)
        ensures
            kind == self@.kind_of(),
    {
        match self {
            Modal::Tracks(_) => ModalKind::Tracks,
            Modal::Actions => ModalKind::Actions,
            Modal::Picker(_) => ModalKind::Picker,
            Modal::Sort(_) => ModalKind::Sort,
        }
    }
}

#[derive(Debug, Clone, Copy, PartialEq, Eq, Hash, Structural)]
pub enum ModalKind {
    Tracks,
    Actions,
    Picker,
    Sort,
}

/// An open filter picker: a search query over the subject's values, the values currently matching
/// it (recomputed as the query changes, ranked like the album search), and the keyboard selection
/// as a slot index -- slot 0 is the standing "(all)" entry that clears the filter, slot `n + 1` is
/// `matches[n]`.
#[derive(Debug)]
pub struct Picker {
    pub subject: PickerSubject,
    pub query: String,
    pub matches: Vec<String>,
    pub selected: usize,
}

/// An open filter picker by what it holds.
#[verifier::ext_equal]
pub struct PickerView {
    pub subject: PickerSubject,
    pub query: Seq<char>,
    pub found: Seq<String>,
    pub selected: usize,
}

/// The open track menu: which album (an index into [`App::albums`]) and which of its tracks the
/// keyboard selection sits on (Up/Down move it; Alt+Space queues, Ctrl+Space or Enter plays).
#[derive(Debug, Clone, Copy, PartialEq, Eq, Structural)]
pub struct TrackMenu {
    pub album: usize,
    pub selected: usize,
}

/// The open sort-order picker: which of [`SortOrder::all`] the selection sits on.
#[derive(Debug, Clone, Copy, PartialEq, Eq, Structural)]
pub struct SortMenu {
    pub selected: usize,
}

/// A modal by what it holds.
#[verifier::ext_equal]
pub enum ModalView {
    Tracks(TrackMenu),
    Actions,
    Picker(PickerView),
    Sort(SortMenu),
}

impl ModalView {
    /// Which modal it is.
    pub open spec fn kind_of(self) -> ModalKind {
        match self {
            ModalView::Tracks(_) => ModalKind::Tracks,
            ModalView::Actions => ModalKind::Actions,
            ModalView::Picker(_) => ModalKind::Picker,
            ModalView::Sort(_) => ModalKind::Sort,
        }
    }
}

impl View for Picker {
    type V = PickerView;

    open spec fn view(&self) -> PickerView {
        PickerView {
            subject: self.subject,
            query: self.query@,
            found: self.matches@,
            selected: self.selected,
        }
    }
}

impl View for Modal {
    type V = ModalView;

    open spec fn view(&self) -> ModalView {
        match self {
            Modal::Tracks(menu) => ModalView::Tracks(*menu),
            Modal::Actions => ModalView::Actions,
            Modal::Picker(picker) => ModalView::Picker(picker@),
            Modal::Sort(menu) => ModalView::Sort(*menu),
        }
    }
}

/// What modal is up, if any.
pub open spec fn opt_modal(modal: Option<Modal>) -> Option<ModalView> {
    match modal {
        Some(modal) => Some(modal@),
        None => None,
    }
}

/// A track in the queue, with what is shown of it.
#[derive(Debug, Clone)]
pub struct QueueItem {
    pub path: String,
    pub album_id: u64,
    pub title: String,
    pub artist: String,
    pub album: String,
    pub cover: Option<CoverArt>,
    /// The album's accent color, carried independently of the cover pixels (the index knows it at
    /// boot, long before thumbnails load) so the backdrop glow lights up immediately.
    pub accent: Option<Rgb>,
}

impl QueueItem {
    /// The same item.
    pub fn copy(&self) -> (item: QueueItem)
        ensures
            item == *self,
    {
        QueueItem {
            path: self.path.clone(),
            album_id: self.album_id,
            title: self.title.clone(),
            artist: self.artist.clone(),
            album: self.album.clone(),
            cover: copy_cover(&self.cover),
            accent: self.accent,
        }
    }
}

/// Where a session finds its music and keeps what it can regenerate.
#[derive(Debug, Clone)]
pub struct Places {
    pub music_dir: String,
    pub cache_file: Option<String>,
    pub covers_dir: Option<String>,
}

#[derive(Debug)]
pub struct App {
    pub places: Places,
    pub scan: ScanState,
    pub albums: Vec<Album>,
    /// Whether `albums` has drifted from the persisted album index since it was last written:
    /// set by scan events that actually change something, cleared when `Done` saves the index.
    /// Keeps the quiet periodic rescans from rewriting megabytes every time.
    pub index_dirty: bool,
    /// The library filter: which albums the grid shows, of everything in `albums`.
    pub filter: Filter,
    /// The order the grid shows them in.
    pub sort: SortOrder,
    /// The filtered view of `albums` the grid displays: indices into it, in display order
    /// (by `sort`; a search re-ranks by match quality). Derived state -- kept
    /// fresh by [`refresh_filter`] on every filter change and scan event. Grid messages carry
    /// indices into THIS list.
    pub filtered: Vec<usize>,
    pub screen: Screen,
    /// The library grid's selection, externalized from the grid widget (whose own state drops
    /// with the view) so it survives switching views. Purely a persistence mirror: the widget
    /// syncs from it each render and reports changes back; nothing here reads it.
    pub selected: Option<usize>,
    /// The modal open over the current view, if any: an album's track menu, or the player
    /// actions menu.
    pub modal: Option<Modal>,
    pub queue: Vec<QueueItem>,
    pub current: usize,
    /// The repeat mode, mirrored here for the UI and persistence; the engine holds its own copy
    /// (synced via [`Cmd::SetRepeat`]) since auto-advance happens there.
    pub repeat: Repeat,
    pub play_state: PlayState,
    pub pos: Nanos,
    pub len: Option<Nanos>,
    /// The position last requested of the player, held until playback actually reaches it. Lets a
    /// burst of relative seeks (a held arrow key) accumulate from the requested position rather
    /// than the round-trip-lagged reported one, and stops stale in-flight reports from yanking the
    /// bar back to the pre-seek spot.
    pub pending_seek: Option<Nanos>,
    /// When the last track skip from a held Home/End key fired, used to rate-limit its auto-repeat
    /// (see `skip_ready`). `None` until the first such skip.
    pub last_skip: Option<Nanos>,
    /// When the current held Home/End press began, so its auto-repeat can accelerate the longer
    /// it's held (see `skip_interval`). Reset on each fresh press.
    pub hold_start: Option<Nanos>,
    /// High-resolution cover art for the now-playing cover flow. The flow keeps a
    /// small window around `current` resident (see `ensure_hires`), but this cache outlives that
    /// window: it retains recently-played covers under an LRU bound, so hopping back to an album
    /// played moments ago shows its full-res cover instantly instead of decoding again.
    pub hires: HiResCache,
}

/// The model by what it holds.
#[verifier::ext_equal]
pub struct AppView {
    pub places: Places,
    pub scan: ScanState,
    pub albums: Seq<Album>,
    pub index_dirty: bool,
    pub filter: FilterView,
    pub sort: SortOrder,
    pub filtered: Seq<usize>,
    pub screen: Screen,
    pub selected: Option<usize>,
    pub modal: Option<ModalView>,
    pub queue: Seq<QueueItem>,
    pub current: usize,
    pub repeat: Repeat,
    pub play_state: PlayState,
    pub pos: Nanos,
    pub len: Option<Nanos>,
    pub pending_seek: Option<Nanos>,
    pub last_skip: Option<Nanos>,
    pub hold_start: Option<Nanos>,
    pub hires: HiResView,
}

impl View for App {
    type V = AppView;

    open spec fn view(&self) -> AppView {
        AppView {
            places: self.places,
            scan: self.scan,
            albums: self.albums@,
            index_dirty: self.index_dirty,
            filter: self.filter@,
            sort: self.sort,
            filtered: self.filtered@,
            screen: self.screen,
            selected: self.selected,
            modal: opt_modal(self.modal),
            queue: self.queue@,
            current: self.current,
            repeat: self.repeat,
            play_state: self.play_state,
            pos: self.pos,
            len: self.len,
            pending_seek: self.pending_seek,
            last_skip: self.last_skip,
            hold_start: self.hold_start,
            hires: self.hires@,
        }
    }
}

impl AppView {
    /// What the grid shows is what the filter lets through, in the order of the sort.
    pub open spec fn is_fresh(self) -> bool {
        is_filtered(self.filtered, self.albums, self.filter, self.sort)
    }
}

impl App {
    /// The grid is fresh, and the cache is in order.
    pub open spec fn wf(&self) -> bool {
        &&& self@.is_fresh()
        &&& self.hires.wf()
    }
}

/// A list that scrolls to keep its selection in view.
#[derive(Debug, Clone, Copy, PartialEq, Eq, Structural)]
pub enum List {
    Picker,
    Sort,
    Tracks,
}

/// A live change to the UI scale factor: Ctrl +/- step it, Ctrl+= resets to the configured value.
#[derive(Debug, Clone, Copy, PartialEq, Eq, Structural)]
pub enum Zoom {
    In,
    Out,
    Reset,
}

/// What the model asks of the world around it.
#[derive(Debug)]
pub enum Effect {
    /// A command for the playback engine.
    Send(Cmd),
    /// The now-playing state, for the OS.
    Publish(Snapshot),
    /// The queue's tracks, to be remembered.
    SavePlaylist(SavedPlaylist),
    /// The session state around the queue, to be remembered.
    SavePlayer(SavedPlayer),
    /// The album list, to be remembered.
    SaveIndex,
    /// A scan of the library.
    Scan(ScanOptions),
    /// A decode of a high-resolution cover.
    Decode { id: u64, file: String },
    /// The thumbnail with this id is shown from now on.
    HoldCover(u64),
    /// Only thumbnails with these ids are still shown.
    RetireCovers { live: Vec<u64> },
    /// The cover flow rests at this album run, without sweeping there.
    FlowTo(usize),
    /// The frame clock starts anew: an animation begins after an idle stretch.
    ResetClock,
    /// The album search field takes the keyboard.
    FocusSearch,
    /// The picker's search field takes the keyboard.
    FocusPicker,
    /// No field has the keyboard.
    Unfocus,
    /// Whether the album search field has the keyboard decides what a Tab means.
    AskFocus { backwards: bool, otherwise: Screen },
    /// A list scrolls to where `slot` is on the way from 0 to `last`.
    Snap { list: List, slot: usize, last: usize },
    /// The UI is scaled.
    Zoom(Zoom),
    /// The volume is nudged by this many percent of 100%.
    BumpVolume(i32),
}

/// What the model asks for, by what it holds.
#[verifier::ext_equal]
pub enum EffectView {
    Send(CmdView),
    Publish(SnapshotView),
    SavePlaylist { version: u32, tracks: Seq<String> },
    SavePlayer(SavedPlayer),
    SaveIndex,
    Scan(ScanOptionsView),
    Decode { id: u64, file: String },
    HoldCover(u64),
    RetireCovers { live: Set<u64> },
    FlowTo(usize),
    ResetClock,
    FocusSearch,
    FocusPicker,
    Unfocus,
    AskFocus { backwards: bool, otherwise: Screen },
    Snap { list: List, slot: usize, last: usize },
    Zoom(Zoom),
    BumpVolume(i32),
}

impl View for Effect {
    type V = EffectView;

    open spec fn view(&self) -> EffectView {
        match self {
            Effect::Send(cmd) => EffectView::Send(cmd@),
            Effect::Publish(snapshot) => EffectView::Publish(snapshot@),
            Effect::SavePlaylist(saved) => EffectView::SavePlaylist {
                version: saved.version,
                tracks: saved.tracks@,
            },
            Effect::SavePlayer(saved) => EffectView::SavePlayer(*saved),
            Effect::SaveIndex => EffectView::SaveIndex,
            Effect::Scan(options) => EffectView::Scan(options@),
            Effect::Decode { id, file } => EffectView::Decode { id: *id, file: *file },
            Effect::HoldCover(id) => EffectView::HoldCover(*id),
            Effect::RetireCovers { live } => EffectView::RetireCovers { live: live@.to_set() },
            Effect::FlowTo(run) => EffectView::FlowTo(*run),
            Effect::ResetClock => EffectView::ResetClock,
            Effect::FocusSearch => EffectView::FocusSearch,
            Effect::FocusPicker => EffectView::FocusPicker,
            Effect::Unfocus => EffectView::Unfocus,
            Effect::AskFocus { backwards, otherwise } => EffectView::AskFocus {
                backwards: *backwards,
                otherwise: *otherwise,
            },
            Effect::Snap { list, slot, last } => EffectView::Snap { list: *list, slot: *slot, last: *last },
            Effect::Zoom(zoom) => EffectView::Zoom(*zoom),
            Effect::BumpVolume(percent) => EffectView::BumpVolume(*percent),
        }
    }
}

/// What some effects ask for.
pub open spec fn asked(effects: Seq<Effect>) -> Seq<EffectView> {
    effects.map_values(|e: Effect| e@)
}

/// The engine-facing form of an item.
pub open spec fn entry_of(item: QueueItem) -> Entry {
    Entry { path: item.path, album: item.album_id }
}

/// The engine-facing form of the queue.
pub open spec fn entries_of(items: Seq<QueueItem>) -> Seq<Entry> {
    items.map_values(|item: QueueItem| entry_of(item))
}

/// The engine-facing form of the queue: each track's path plus its album grouping key, which
/// repeat-album advancement walks (see [`Entry`]).
pub fn entries(items: &Vec<QueueItem>) -> (r: Vec<Entry>)
    ensures
        r@ == entries_of(items@),
{
    let mut r: Vec<Entry> = Vec::new();
    while r.len() < items.len()
        invariant
            r.len() <= items.len(),
            r@ == entries_of(items@).take(r.len() as int),
        decreases items.len() - r.len(),
    {
        let item: &QueueItem = &items[r.len()];
        r.push(Entry { path: item.path.clone(), album: item.album_id });
        assert(r@ =~= entries_of(items@).take(r.len() as int));
    }
    assert(r@ =~= entries_of(items@));
    r
}

/// The first of some tracks with the given path, from the `k`-th on.
pub open spec fn track_with(tracks: Seq<TrackInfo>, path: Seq<char>, k: int) -> Option<TrackInfo>
    decreases tracks.len() - k,
{
    if k >= tracks.len() {
        None
    } else if tracks[k].path@ == path {
        Some(tracks[k])
    } else {
        track_with(tracks, path, k + 1)
    }
}

/// A queue item once an album is known: filled with the album's tags, id, and cover art where it is one
/// of the album's tracks.
pub open spec fn hydrated(item: QueueItem, album: Album) -> QueueItem {
    match track_with(album.tracks@, item.path@, 0) {
        Some(track) => QueueItem {
            path: item.path,
            album_id: album.id,
            title: track.title,
            artist: album.artist,
            album: album.title,
            cover: album.cover,
            accent: album.accent,
        },
        None => item,
    }
}

/// A queue once an album is known.
pub open spec fn all_hydrated(queue: Seq<QueueItem>, album: Album) -> Seq<QueueItem> {
    queue.map_values(|item: QueueItem| hydrated(item, album))
}

fn find_track(album: &Album, path: &str) -> (k: Option<usize>)
    ensures
        match k {
            Some(k) => k < album.tracks.len() && track_with(album.tracks@, path@, 0) == Some(
                album.tracks[k as int],
            ),
            None => track_with(album.tracks@, path@, 0) is None,
        },
{
    let mut k: usize = 0;
    while k < album.tracks.len()
        invariant
            k <= album.tracks.len(),
            track_with(album.tracks@, path@, 0) == track_with(album.tracks@, path@, k as int),
        decreases album.tracks.len() - k,
    {
        if same(album.tracks[k].path.as_str(), path) {
            return Some(k);
        }
        k = k + 1;
    }
    None
}

/// Fills the queue items belonging to `album` with its tags, id, and cover art -- how a restored,
/// paths-only queue hydrates as the library reports albums (from the persisted index at boot, and
/// from every scan event thereafter).
pub fn hydrate_queue(queue: &mut Vec<QueueItem>, album: &Album)
    ensures
        final(queue)@ == all_hydrated(old(queue)@, *album),
{
    let ghost before = queue@;
    let mut ix: usize = 0;
    while ix < queue.len()
        invariant
            ix <= queue.len() == before.len(),
            forall|k: int| 0 <= k < ix ==> #[trigger] queue@[k] == hydrated(before[k], *album),
            forall|k: int| ix <= k < queue.len() ==> #[trigger] queue@[k] == before[k],
        decreases queue.len() - ix,
    {
        let found: Option<usize> = find_track(album, queue[ix].path.as_str());
        if let Some(k) = found {
            let item = QueueItem {
                path: queue[ix].path.clone(),
                album_id: album.id,
                title: album.tracks[k].title.clone(),
                artist: album.artist.clone(),
                album: album.title.clone(),
                cover: copy_cover(&album.cover),
                accent: album.accent,
            };
            queue.set(ix, item);
        }
        ix = ix + 1;
    }
    assert(queue@ =~= all_hydrated(before, *album));
}

/// A queue once some albums are known, one after the other.
pub open spec fn hydrated_by(queue: Seq<QueueItem>, albums: Seq<Album>) -> Seq<QueueItem>
    decreases albums.len(),
{
    if albums.len() == 0 {
        queue
    } else {
        all_hydrated(hydrated_by(queue, albums.drop_last()), albums.last())
    }
}

/// The order that a session dresses its queue in: outward from the playing track, as far as `d` slots away
/// from it -- current, next, previous, next-but-one, ...
pub open spec fn outward(n: int, current: int, d: int) -> Seq<int>
    decreases d,
{
    if d <= 0 {
        Seq::empty()
    } else {
        let near = outward(n, current, d - 1);
        let ahead = if current + (d - 1) < n {
            near.push(current + (d - 1))
        } else {
            near
        };
        if d - 1 > 0 && current >= d - 1 {
            ahead.push(current - (d - 1))
        } else {
            ahead
        }
    }
}

/// The album ids at some slots of a queue.
pub open spec fn ids_at(queue: Seq<QueueItem>, slots: Seq<int>) -> Seq<u64> {
    slots.map_values(|k: int| queue[k].album_id)
}

/// The queue's albums as a cover-loading priority.
pub open spec fn priority_of(queue: Seq<QueueItem>, current: usize) -> Seq<u64> {
    let n = queue.len() as int;
    let start = if current < n {
        current as int
    } else {
        n - 1
    };
    distinct(ids_at(queue, outward(n, start, n)))
}

fn consider(ids: &mut Vec<u64>, id: u64, Ghost(seen): Ghost<Seq<u64>>)
    requires
        old(ids)@ == distinct(seen),
    ensures
        final(ids)@ == distinct(seen.push(id)),
{
    assert(seen.push(id).drop_last() =~= seen);
    let mut k: usize = 0;
    while k < ids.len()
        invariant
            k <= ids.len(),
            ids@ == distinct(seen),
            seen.push(id).drop_last() == seen,
            forall|l: int| 0 <= l < k ==> ids@[l] != id,
        decreases ids.len() - k,
    {
        if ids[k] == id {
            return;
        }
        k = k + 1;
    }
    ids.push(id);
}

/// The queue's albums as a cover-loading priority: distinct album ids ordered circularly outward
/// from the playing track -- current, next, previous, next-but-one, ... -- so a session restored
/// into the player dresses the covers nearest the flow's center first.
pub fn cover_priority(queue: &Vec<QueueItem>, current: usize) -> (ids: Vec<u64>)
    ensures
        ids@ == priority_of(queue@, current),
{
    let n: usize = queue.len();
    let mut ids: Vec<u64> = Vec::new();
    assert(ids_at(queue@, Seq::empty()) =~= Seq::empty());
    if n == 0 {
        return ids;
    }
    let current: usize = if current < n {
        current
    } else {
        n - 1
    };
    let mut d: usize = 0;
    while d < n
        invariant
            d <= n == queue.len(),
            current < n,
            ids@ == distinct(ids_at(queue@, outward(n as int, current as int, d as int))),
        decreases n - d,
    {
        let ghost mut slots = outward(n as int, current as int, d as int);
        if d < n - current {
            let id: u64 = queue[current + d].album_id;
            consider(&mut ids, id, Ghost(ids_at(queue@, slots)));
            proof {
                let more = slots.push(current + d);
                assert(ids_at(queue@, more) =~= ids_at(queue@, slots).push(id));
                slots = more;
            }
        }
        if d > 0 && current >= d {
            let id: u64 = queue[current - d].album_id;
            consider(&mut ids, id, Ghost(ids_at(queue@, slots)));
            proof {
                let more = slots.push(current - d);
                assert(ids_at(queue@, more) =~= ids_at(queue@, slots).push(id));
                slots = more;
            }
        }
        d = d + 1;
    }
    ids
}

/// The key of a track's parent directory.
pub open spec fn dir_key_of(dir: Option<Seq<char>>) -> u64 {
    DefaultHasher::spec_finish(
        match dir {
            Some(dir) => text_writes(dir),
            None => Seq::empty(),
        },
    )
}

/// The key of a directory, if there is one.
pub fn hash_dir(dir: &Option<String>) -> (key: u64)
    ensures
        key == dir_key_of(crate::text::opt_text(*dir)),
{
    let mut hasher: DefaultHasher = DefaultHasher::new();
    if let Some(dir) = dir {
        hash_text(&mut hasher, dir.as_str());
        assert(hasher@ =~= text_writes(dir@));
    }
    hasher.finish()
}

/// A provisional album grouping key for a track not yet matched to the library: its parent
/// directory (a serviceable stand-in for the tag-derived album until the tags arrive), hashed
/// into the album-id key space. Replaced by the real album id when the scan hydrates the item.
pub fn dir_key(path: &str) -> (key: u64)
    ensures
        key == dir_key_of(parent_of(path@)),
{
    let dir: Option<String> = parent(path);
    hash_dir(&dir)
}

/// `ix` is where a run of tracks from the same album starts.
pub open spec fn starts_run(queue: Seq<QueueItem>, ix: int) -> bool {
    ix == 0 || queue[ix - 1].album_id != queue[ix].album_id
}

/// The runs among the first `n` tracks of a queue.
pub open spec fn runs_upto(queue: Seq<QueueItem>, n: int) -> Seq<Range<usize>>
    decreases n,
{
    if n <= 0 {
        Seq::empty()
    } else {
        let runs = runs_upto(queue, n - 1);
        if starts_run(queue, n - 1) {
            runs.push(Range { start: (n - 1) as usize, end: n as usize })
        } else {
            runs.drop_last().push(Range { start: runs.last().start, end: n as usize })
        }
    }
}

/// The queue's contiguous runs of tracks from the same album.
pub open spec fn runs_of(queue: Seq<QueueItem>) -> Seq<Range<usize>> {
    runs_upto(queue, queue.len() as int)
}

/// A range of the first `n` tracks of a queue is a run: it starts where an album does, and is all of one
/// album.
pub open spec fn is_run(queue: Seq<QueueItem>, run: Range<usize>, n: int) -> bool {
    &&& run.start < run.end <= n
    &&& starts_run(queue, run.start as int)
    &&& forall|i: int|
        run.start <= i < run.end ==> (#[trigger] queue[i]).album_id == queue[run.start as int].album_id
}

/// The `k`-th of some runs ends where the next one starts.
pub open spec fn meets_next(runs: Seq<Range<usize>>, k: int) -> bool {
    runs[k].end == runs[k + 1].start
}

/// Some runs follow on each other from the first track to the `n`-th.
pub open spec fn are_runs(queue: Seq<QueueItem>, runs: Seq<Range<usize>>, n: int) -> bool {
    &&& n > 0 ==> runs.len() > 0 && runs[0].start == 0 && runs[runs.len() - 1].end == n
    &&& forall|k: int| 0 <= k < runs.len() ==> is_run(queue, #[trigger] runs[k], n)
    &&& forall|k: int| 0 <= k < runs.len() - 1 ==> #[trigger] meets_next(runs, k)
}

pub(crate) proof fn lemma_runs(queue: Seq<QueueItem>, n: int)
    requires
        0 <= n <= queue.len() <= usize::MAX,
    ensures
        are_runs(queue, runs_upto(queue, n), n),
    decreases n,
{
    if n > 0 {
        lemma_runs(queue, n - 1);
        let before = runs_upto(queue, n - 1);
        let runs = runs_upto(queue, n);
        let m = before.len();
        if starts_run(queue, n - 1) {
            assert forall|k: int| 0 <= k < runs.len() implies is_run(queue, #[trigger] runs[k], n) by {
                if k < m {
                    assert(is_run(queue, before[k], n - 1));
                }
            }
            assert forall|k: int| 0 <= k < runs.len() - 1 implies #[trigger] meets_next(runs, k) by {
                if k + 1 < m {
                    assert(meets_next(before, k));
                }
            }
        } else {
            let last = before[m - 1];
            assert(is_run(queue, last, n - 1));
            assert(queue[n - 2].album_id == queue[last.start as int].album_id);
            let grown = Range { start: last.start, end: n as usize };
            assert(is_run(queue, grown, n));
            assert forall|k: int| 0 <= k < runs.len() implies is_run(queue, #[trigger] runs[k], n) by {
                if k < m - 1 {
                    assert(is_run(queue, before[k], n - 1));
                }
            }
            assert forall|k: int| 0 <= k < runs.len() - 1 implies #[trigger] meets_next(runs, k) by {
                assert(meets_next(before, k));
            }
        }
    }
}

/// The runs follow on each other from the first track to the last; all tracks of a run are from one
/// album, and the next run is from another.
pub proof fn law_runs_part_the_queue(queue: Seq<QueueItem>)
    requires
        queue.len() <= usize::MAX,
    ensures
        are_runs(queue, runs_of(queue), queue.len() as int),
{
    lemma_runs(queue, queue.len() as int);
}

/// The queue's contiguous runs of tracks from the same album, as ranges into the queue. The
/// Cover Flow shows one cover per run rather than one per track.
pub fn album_runs(queue: &Vec<QueueItem>) -> (runs: Vec<Range<usize>>)
    ensures
        runs@ == runs_of(queue@),
{
    let mut runs: Vec<Range<usize>> = Vec::new();
    let mut ix: usize = 0;
    while ix < queue.len()
        invariant
            ix <= queue.len(),
            runs@ == runs_upto(queue@, ix as int),
        decreases queue.len() - ix,
    {
        proof {
            lemma_runs(queue@, ix as int);
        }
        let n: usize = runs.len();
        if ix > 0 && queue[ix - 1].album_id == queue[ix].album_id {
            let start: usize = runs[n - 1].start;
            runs.pop();
            runs.push(Range { start, end: ix + 1 });
        } else {
            runs.push(Range { start: ix, end: ix + 1 });
        }
        ix = ix + 1;
    }
    runs
}

/// The first of some runs, from the `k`-th on, that holds a track.
pub open spec fn run_holding(runs: Seq<Range<usize>>, track: int, k: int) -> Option<int>
    decreases runs.len() - k,
{
    if k >= runs.len() {
        None
    } else if runs[k].start <= track < runs[k].end {
        Some(k)
    } else {
        run_holding(runs, track, k + 1)
    }
}

/// The index of the run that holds a track; the first one where none does.
pub open spec fn run_index(runs: Seq<Range<usize>>, track: int) -> int {
    match run_holding(runs, track, 0) {
        Some(k) => k,
        None => 0,
    }
}

/// The index of the run containing the given track index.
pub fn run_of(runs: &Vec<Range<usize>>, track: usize) -> (ix: usize)
    ensures
        ix == run_index(runs@, track as int),
        runs.len() > 0 ==> ix < runs.len(),
{
    let mut k: usize = 0;
    while k < runs.len()
        invariant
            k <= runs.len(),
            run_holding(runs@, track as int, 0) == run_holding(runs@, track as int, k as int),
        decreases runs.len() - k,
    {
        if runs[k].start <= track && track < runs[k].end {
            return k;
        }
        k = k + 1;
    }
    0
}

proof fn lemma_run_holding(queue: Seq<QueueItem>, track: int, k: int)
    requires
        queue.len() <= usize::MAX,
        0 <= k < runs_of(queue).len(),
        runs_of(queue)[k].start <= track < queue.len(),
    ensures
        run_holding(runs_of(queue), track, k) matches Some(r) && k <= r < runs_of(queue).len()
            && runs_of(queue)[r].start <= track < runs_of(queue)[r].end,
    decreases runs_of(queue).len() - k,
{
    let runs = runs_of(queue);
    lemma_runs(queue, queue.len() as int);
    assert(is_run(queue, runs[k], queue.len() as int));
    if track >= runs[k].end {
        assert(meets_next(runs, k));
        lemma_run_holding(queue, track, k + 1);
    }
}

/// The run that the index names holds the track, as long as the queue does.
pub proof fn law_a_track_is_in_its_run(queue: Seq<QueueItem>, track: int)
    requires
        queue.len() <= usize::MAX,
        0 <= track < queue.len(),
    ensures
        ({
            let runs = runs_of(queue);
            let ix = run_index(runs, track);
            &&& 0 <= ix < runs.len()
            &&& runs[ix].start <= track < runs[ix].end
        }),
{
    lemma_runs(queue, queue.len() as int);
    lemma_run_holding(queue, track, 0);
}

impl AppView {
    /// The Cover Flow target position for the currently playing track.
    pub open spec fn flow(self) -> int {
        run_index(runs_of(self.queue), self.current as int)
    }

    /// The currently playing album's id; 0 when nothing is playing.
    pub open spec fn playing_album(self) -> u64 {
        if self.current < self.queue.len() {
            self.queue[self.current as int].album_id
        } else {
            0
        }
    }
}

/// The Cover Flow target position for the currently playing track.
pub fn flow_target(app: &App) -> (run: usize)
    ensures
        run == app@.flow(),
{
    let runs: Vec<Range<usize>> = album_runs(&app.queue);
    run_of(&runs, app.current)
}

/// The currently playing album's id (a stable, near-unique per-album value); 0 when nothing is
/// playing.
pub fn current_album_id(app: &App) -> (id: u64)
    ensures
        id == app@.playing_album(),
{
    if app.current < app.queue.len() {
        app.queue[app.current].album_id
    } else {
        0
    }
}

/// Where the currently playing album's glow sits, as a cell of a grid of 7 columns and 4 rows. Scattered
/// per album by its id (already a well-mixed hash);
/// the low digit picks the column, a higher one the row, so the two axes don't correlate.
pub fn glow_cell(album_id: u64) -> (cell: (usize, usize))
    ensures
        cell.0 == album_id % 7,
        cell.1 == (album_id / 7) % 4,
{
    ((album_id % 7) as usize, (album_id / 7 % 4) as usize)
}

/// The queue item of one track of an album.
pub open spec fn item_of(album: Album, track: TrackInfo) -> QueueItem {
    QueueItem {
        path: track.path,
        album_id: album.id,
        title: track.title,
        artist: album.artist,
        album: album.title,
        cover: album.cover,
        accent: album.accent,
    }
}

/// The queue items of an album.
pub open spec fn items_of(album: Album) -> Seq<QueueItem> {
    album.tracks@.map_values(|track: TrackInfo| item_of(album, track))
}

/// The queue items of an album, in its order.
pub fn queue_items(album: &Album) -> (items: Vec<QueueItem>)
    ensures
        items@ == items_of(*album),
{
    let mut items: Vec<QueueItem> = Vec::new();
    while items.len() < album.tracks.len()
        invariant
            items.len() <= album.tracks.len(),
            items@ == items_of(*album).take(items.len() as int),
        decreases album.tracks.len() - items.len(),
    {
        let track: &TrackInfo = &album.tracks[items.len()];
        items.push(
            QueueItem {
                path: track.path.clone(),
                album_id: album.id,
                title: track.title.clone(),
                artist: album.artist.clone(),
                album: album.title.clone(),
                cover: copy_cover(&album.cover),
                accent: album.accent,
            },
        );
        assert(items@ =~= items_of(*album).take(items.len() as int));
    }
    assert(items@ =~= items_of(*album));
    items
}

/// `after` is the model with the grid refreshed.
pub open spec fn refreshes(before: AppView, after: AppView) -> bool {
    &&& after.is_fresh()
    &&& after == (AppView { filtered: after.filtered, ..before })
}

/// Recomputes [`App::filtered`] from the filter inputs and the sort order (see
/// [`filtered`](crate::browse::filtered)).
pub fn refresh_filter(app: &mut App)
    requires
        old(app).hires.wf(),
    ensures
        final(app).wf(),
        refreshes(old(app)@, final(app)@),
{
    let shown: Vec<usize> = filtered(&app.albums, &app.filter, app.sort);
    app.filtered = shown;
}

impl App {
    /// The open track menu, if that is the modal that's up.
    pub fn track_menu(&self) -> (menu: Option<TrackMenu>)
        ensures
            menu == (match self@.modal {
                Some(ModalView::Tracks(menu)) => Some(menu),
                _ => None,
            }),
    {
        match &self.modal {
            Some(Modal::Tracks(menu)) => Some(*menu),
            _ => None,
        }
    }
}

/// A restored track that the library has not been asked about: the file stem for a title, and the parent
/// directory for an album.
pub open spec fn is_placeholder(item: QueueItem, path: String) -> bool {
    &&& item.path == path
    &&& item.title@ == (match file_stem_of(path@) {
        Some(stem) => stem,
        None => Seq::empty(),
    })
    &&& item.artist@ == Seq::<char>::empty()
    &&& item.album@ == Seq::<char>::empty()
    &&& item.album_id == dir_key_of(parent_of(path@))
    &&& item.cover is None
    &&& item.accent is None
}

/// Some restored tracks that the library has not been asked about.
pub open spec fn are_placeholders(items: Seq<QueueItem>, paths: Seq<String>) -> bool {
    &&& items.len() == paths.len()
    &&& forall|k: int| 0 <= k < items.len() ==> is_placeholder(#[trigger] items[k], paths[k])
}

/// The model of a session that starts where another left off, given its queue as far as the album index
/// knows it.
pub open spec fn restored_app(
    places: Places,
    albums: Seq<Album>,
    shown: Seq<usize>,
    queue: Seq<QueueItem>,
    restored: Restored,
) -> AppView {
    AppView {
        places,
        scan: ScanState::Scanning,
        albums,
        index_dirty: false,
        filter: crate::browse::no_filter(),
        sort: restored.sort,
        filtered: shown,
        screen: if queue.len() > 0 {
            Screen::Player
        } else {
            Screen::Library
        },
        selected: None,
        modal: None,
        queue,
        current: restored.current,
        repeat: restored.repeat,
        play_state: PlayState::Paused,
        pos: 0,
        len: None,
        pending_seek: None,
        last_skip: None,
        hold_start: None,
        hires: HiResView { entries: Seq::empty(), pending: Set::empty() },
    }
}

/// What such a session asks for: the flow rests on the current album, the engine opens the current track
/// paused, and the library is scanned, the queue's covers first.
pub open spec fn restored_effects(app: AppView) -> Seq<EffectView> {
    let queue = if app.queue.len() > 0 {
        seq![
            EffectView::Send(
                CmdView::SetQueue {
                    tracks: entries_of(app.queue),
                    start: app.current,
                    play: PlayState::Paused,
                },
            ),
        ]
    } else {
        Seq::empty()
    };
    seq![
        EffectView::FlowTo(app.flow() as usize),
        EffectView::Send(CmdView::SetRepeat(app.repeat)),
    ] + queue + seq![
        EffectView::Scan(
            ScanOptionsView {
                root: app.places.music_dir,
                priority: priority_of(app.queue, app.current),
                known_covers: Set::empty(),
                cache_file: app.places.cache_file,
                covers_dir: app.places.covers_dir,
            },
        ),
    ]
}

/// A copy of an optional text.
pub(crate) fn copy_opt(s: &Option<String>) -> (r: Option<String>)
    ensures
        r == *s,
{
    match s {
        Some(s) => Some(s.clone()),
        None => None,
    }
}

fn placeholder(path: &String) -> (item: QueueItem)
    ensures
        is_placeholder(item, *path),
{
    let title: String = match file_stem(path.as_str()) {
        Some(stem) => stem,
        None => String::new(),
    };
    let item = QueueItem {
        title,
        artist: String::new(),
        album: String::new(),
        album_id: dir_key(path.as_str()),
        cover: None,
        accent: None,
        path: path.clone(),
    };
    assert(item.artist@ =~= Seq::<char>::empty());
    assert(item.title@ =~= (match file_stem_of(path@) {
        Some(stem) => stem,
        None => Seq::empty(),
    }));
    item
}

/// Starts a session from what the last one left: its queue, paused at its current track, and the album
/// index.
///
/// Only paths were persisted -- items start as placeholders (the file stem for a title, the parent
/// directory hashed as a provisional album key) and the index, then the scan, hydrates real tags and album
/// ids by path, with covers following by album id. The index makes the whole library visible immediately
/// (covers stream in from the thumbnail cache); the scan reconciles it like any rescan.
pub fn boot(places: Places, restored: Restored, index: Vec<Album>) -> (r: (App, Vec<Effect>))
    ensures
        r.0.wf(),
        exists|items: Seq<QueueItem>| #[trigger] are_placeholders(items, restored.tracks@) && r.0@.queue
            == hydrated_by(items, index@),
        r.0@ == restored_app(places, index@, r.0@.filtered, r.0@.queue, restored),
        asked(r.1@) == restored_effects(r.0@),
{
    let mut queue: Vec<QueueItem> = Vec::new();
    while queue.len() < restored.tracks.len()
        invariant
            queue.len() <= restored.tracks.len(),
            are_placeholders(queue@, restored.tracks@.take(queue.len() as int)),
        decreases restored.tracks.len() - queue.len(),
    {
        let ghost before = queue@;
        let item: QueueItem = placeholder(&restored.tracks[queue.len()]);
        queue.push(item);
        assert forall|k: int| 0 <= k < queue.len() implies is_placeholder(
            #[trigger] queue@[k],
            restored.tracks@.take(queue.len() as int)[k],
        ) by {
            if k < before.len() {
                assert(queue@[k] == before[k]);
                assert(restored.tracks@.take(before.len() as int)[k] == restored.tracks@.take(
                    queue.len() as int,
                )[k]);
            }
        }
    }
    assert(restored.tracks@.take(queue.len() as int) =~= restored.tracks@);
    let ghost items = queue@;
    let mut ix: usize = 0;
    assert(index@.take(0) =~= Seq::empty());
    while ix < index.len()
        invariant
            ix <= index.len(),
            queue@ == hydrated_by(items, index@.take(ix as int)),
        decreases index.len() - ix,
    {
        assert(index@.take(ix + 1).drop_last() =~= index@.take(ix as int));
        hydrate_queue(&mut queue, &index[ix]);
        ix = ix + 1;
    }
    assert(index@.take(ix as int) =~= index@);
    let screen: Screen = if queue.len() > 0 {
        Screen::Player
    } else {
        Screen::Library
    };
    let mut app = App {
        places,
        scan: ScanState::Scanning,
        albums: index,
        index_dirty: false,
        filter: Filter::default(),
        sort: restored.sort,
        filtered: Vec::new(),
        screen,
        selected: None,
        modal: None,
        queue,
        current: restored.current,
        repeat: restored.repeat,
        play_state: PlayState::Paused,
        pos: 0,
        len: None,
        pending_seek: None,
        last_skip: None,
        hold_start: None,
        hires: HiResCache::new(),
    };
    refresh_filter(&mut app);
    let mut effects: Vec<Effect> = Vec::new();
    // Rest the cover flow on the current album rather than sweeping to it from the far end.
    effects.push(Effect::FlowTo(flow_target(&app)));
    effects.push(Effect::Send(Cmd::SetRepeat(app.repeat)));
    if app.queue.len() > 0 {
        effects.push(
            Effect::Send(
                Cmd::SetQueue { tracks: entries(&app.queue), start: app.current, play: PlayState::Paused },
            ),
        );
    }
    let options = ScanOptions {
        root: app.places.music_dir.clone(),
        // Dress the restored queue's covers first, outward from the playing album: they're
        // what a session booting into the player is looking at.
        priority: cover_priority(&app.queue, app.current),
        known_covers: Vec::new(),
        cache_file: copy_opt(&app.places.cache_file),
        covers_dir: copy_opt(&app.places.covers_dir),
    };
    assert(options@.known_covers =~= Set::empty());
    effects.push(Effect::Scan(options));
    assert(asked(effects@) =~= restored_effects(app@));
    (app, effects)
}

/// How well an album title matches a search query (see [`rank`](crate::search::rank)).
pub fn search_rank(title: &str, query: &str) -> (r: Option<usize>)
    ensures
        match r {
            Some(n) => rank_of(title@, query@) == Some(n as nat),
            None => rank_of(title@, query@) is None,
        },
{
    rank(title, query)
}

proof fn lemma_track_with(tracks: Seq<TrackInfo>, path: Seq<char>, k: int)
    requires
        0 <= k <= tracks.len(),
    ensures
        match track_with(tracks, path, k) {
            Some(track) => track.path@ == path && tracks.contains(track),
            None => forall|l: int| k <= l < tracks.len() ==> (#[trigger] tracks[l]).path@ != path,
        },
    decreases tracks.len() - k,
{
    if k < tracks.len() {
        if tracks[k].path@ == path {
            assert(tracks.contains(tracks[k]));
        } else {
            lemma_track_with(tracks, path, k + 1);
        }
    }
}

/// An item of the queue takes on what an album says of it, where the album has its file: the title of the track,
/// and the album's name, artist, cover and accent. Any other item stays as it is.
pub proof fn law_items_take_on_their_album(item: QueueItem, album: Album)
    ensures
        ({
            let after = hydrated(item, album);
            &&& after.path == item.path
            &&& (forall|l: int| 0 <= l < album.tracks@.len() ==> (#[trigger] album.tracks@[l]).path@ != item.path@)
                ==> after == item
            &&& (exists|l: int| 0 <= l < album.tracks@.len() && (#[trigger] album.tracks@[l]).path@ == item.path@) ==> {
                &&& after.album_id == album.id
                &&& after.album == album.title
                &&& after.artist == album.artist
                &&& after.cover == album.cover
                &&& after.accent == album.accent
                &&& exists|l: int|
                    0 <= l < album.tracks@.len() && (#[trigger] album.tracks@[l]).path@ == item.path@ && after.title
                        == album.tracks@[l].title
            }
        }),
{
    lemma_track_with(album.tracks@, item.path@, 0);
    match track_with(album.tracks@, item.path@, 0) {
        Some(track) => {
            let l = choose|l: int| 0 <= l < album.tracks@.len() && album.tracks@[l] == track;
            assert(album.tracks@[l].path@ == item.path@);
        },
        None => {},
    }
}

/// A session starts where the last one left off: with its queue, its current track, its repeat mode and its order,
/// paused, in the player where there is a queue; and the engine is told so.
pub proof fn law_a_session_starts_where_the_last_left_off(
    places: Places,
    albums: Seq<Album>,
    shown: Seq<usize>,
    queue: Seq<QueueItem>,
    restored: Restored,
)
    ensures
        ({
            let app = restored_app(places, albums, shown, queue, restored);
            let effects = restored_effects(app);
            &&& app.queue == queue
            &&& app.albums == albums
            &&& app.current == restored.current
            &&& app.repeat == restored.repeat
            &&& app.sort == restored.sort
            &&& app.play_state == PlayState::Paused
            &&& app.pos == 0
            &&& app.scan == ScanState::Scanning
            &&& app.modal is None
            &&& queue.len() > 0 ==> app.screen == Screen::Player
            &&& queue.len() == 0 ==> app.screen == Screen::Library
            &&& effects.contains(EffectView::Send(CmdView::SetRepeat(restored.repeat)))
            &&& queue.len() > 0 ==> effects.contains(
                EffectView::Send(
                    CmdView::SetQueue {
                        tracks: entries_of(queue),
                        start: restored.current,
                        play: PlayState::Paused,
                    },
                ),
            )
            &&& effects.last() matches EffectView::Scan(options) && options.root == places.music_dir
        }),
{
    let app = restored_app(places, albums, shown, queue, restored);
    let effects = restored_effects(app);
    assert(effects[1] == EffectView::Send(CmdView::SetRepeat(restored.repeat)));
    if queue.len() > 0 {
        assert(effects[2] == EffectView::Send(
            CmdView::SetQueue { tracks: entries_of(queue), start: restored.current, play: PlayState::Paused },
        ));
    }
}

/// The queue's albums are asked for from the playing track outward: a slot that is nearer comes before one that is
/// farther, and of two that are as near the one ahead.
pub proof fn law_near_tracks_come_first(n: int, current: int, d: int, i: int, j: int)
    requires
        0 <= current < n,
        0 <= i < j < outward(n, current, d).len(),
    ensures
        ({
            let a = outward(n, current, d)[i];
            let b = outward(n, current, d)[j];
            let near = if a >= current {
                a - current
            } else {
                current - a
            };
            let far = if b >= current {
                b - current
            } else {
                current - b
            };
            &&& 0 <= a < n && 0 <= b < n
            &&& near < far || (near == far && a > b)
        }),
    decreases d,
{
    lemma_outward(n, current, d);
}

proof fn lemma_outward(n: int, current: int, d: int)
    requires
        0 <= current < n,
    ensures
        forall|i: int|
            0 <= i < outward(n, current, d).len() ==> 0 <= (#[trigger] outward(n, current, d)[i]) < n && current - d
                < outward(n, current, d)[i] < current + d,
        forall|i: int, j: int|
            0 <= i < j < outward(n, current, d).len() ==> {
                let a = #[trigger] outward(n, current, d)[i];
                let b = #[trigger] outward(n, current, d)[j];
                let near = if a >= current {
                    a - current
                } else {
                    current - a
                };
                let far = if b >= current {
                    b - current
                } else {
                    current - b
                };
                near < far || (near == far && a > b)
            },
    decreases d,
{
    if d > 0 {
        lemma_outward(n, current, d - 1);
        let before = outward(n, current, d - 1);
        let all = outward(n, current, d);
        let m = before.len() as int;
        let e = d - 1;
        assert(m <= all.len() <= m + 2);
        assert forall|i: int| 0 <= i < all.len() implies 0 <= (#[trigger] all[i]) < n && current - d < all[i] < current + d && (i < m
            ==> all[i] == before[i]) && (i == m ==> all[i] == current + e || (all[i] == current - e && e > 0 && all.len()
            == m + 1)) && (i == m + 1 ==> all[i] == current - e && all[m] == current + e && e > 0) by {
            if i < m {
                assert(all[i] == before[i]);
            }
        }
        assert forall|i: int, j: int| 0 <= i < j < all.len() implies {
            let a = #[trigger] all[i];
            let b = #[trigger] all[j];
            let near = if a >= current {
                a - current
            } else {
                current - a
            };
            let far = if b >= current {
                b - current
            } else {
                current - b
            };
            near < far || (near == far && a > b)
        } by {
            if j < m {
                assert(all[i] == before[i] && all[j] == before[j]);
            } else if i < m {
                assert(all[i] == before[i]);
            }
        }
    } else {
        assert(outward(n, current, d) =~= Seq::empty());
    }
}

} // verus!
