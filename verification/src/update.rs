//! The messages, and how each of them changes the model.

use crate::browse::{are_picker_matches, no_filter, picker_matches, Filter, FilterView, PickerSubject};
use crate::hires::{HiResView, Pixels};
use crate::library::{Album, CoverArt, ScanEvent, ScanOptions, ScanOptionsView, TrackInfo};
use crate::media::{file_url, file_url_of, Control, Meta, MetaView, Playback, Snapshot, SnapshotView};
use crate::model::{
    album_runs, all_hydrated, asked, copy_opt, entries, entries_of, flow_target, hydrate_queue, items_of, queue_items,
    refresh_filter, refreshes, run_index, run_of, runs_of, App, AppView, Effect, EffectView, List, Modal, ModalView,
    Picker, PickerView, QueueItem, ScanState, Screen, SortMenu, TrackMenu, Zoom,
};
use crate::player::{Cmd, CmdView, Event, Nanos, PlayState};
use crate::queue::{shuffled, Grouping, Scope};
use crate::session::{SavedPlayer, SavedPlaylist, PLAYER_VERSION, PLAYLIST_VERSION};
use crate::sort::{compare_texts, text_ordering, SortOrder};
use crate::text::{lowercase, lowercased, same};
use core::ops::Range;
use std::cmp::Ordering;
use vstd::prelude::*;
use vstd::string::*;

verus! {

#[derive(Debug, Clone)]
pub enum Msg {
    Library(ScanEvent),
    /// Time to poll the music directory for changes.
    Rescan,
    Show(Screen),
    /// Adjust the live UI scale: Ctrl +/- step it, Ctrl+= resets to the configured value.
    Zoom(Zoom),
    PlayAlbum(usize),
    QueueAlbum(usize),
    /// Warm the global cache with an album's high-res cover ahead of a likely play: the library
    /// grid fires this when the cursor enters an album's play bubble, so the decode overlaps the
    /// moment between hover and click and the cover is ready (or nearly) by the time the flow shows
    /// it. Idempotent -- a hover that never becomes a click just ages back out of the LRU.
    PreloadAlbum(usize),
    /// The library grid's selection changed; store it so it survives view switches (the grid's
    /// own state drops with the view). Like every grid message, the
    /// index is into the *filtered* album list.
    AlbumSelected(Option<usize>),
    /// The album-title search field changed: refresh the filtered grid.
    SearchChanged(String),
    /// Ctrl+F, from any view: bring up the library and focus the album search field.
    FocusSearch,
    /// A plain character typed in the library outside any field: append it to the album search
    /// and focus the field, so just starting to type searches (the rest of the keys land in the
    /// field directly, once focused).
    SearchTyped(String),
    /// Clear every library filter (the bar's ✕ button, or Ctrl+W), showing the whole library
    /// again. Also unfocuses any filter input and dismisses an open filter picker, so it works
    /// as a full "out of the filtering business" gesture mid-typing.
    ClearFilters,
    /// Play all albums matching the current filter, in their displayed order, replacing the
    /// queue (the filter bar's ▶ button, or Ctrl+Enter in the library).
    PlayAll,
    /// Append all albums matching the current filter, in their displayed order, to the queue
    /// (the filter bar's ＋ button, or Alt+Enter in the library).
    QueueAll,
    /// Open the searchable filter picker for the given subject (a filter-bar chip), focusing its
    /// search field.
    OpenPicker(PickerSubject),
    /// Tab / Shift+Tab (`backwards`), outside a modal: cycle the views -- unless the album search
    /// field holds focus, in which case it moves between the filter inputs instead. Only the
    /// widget tree knows where focus lives, so the decision is deferred (see [`tab_answered`]).
    TabPressed { backwards: bool },
    /// Move between the filter inputs -- sort picker, genre picker, artist picker, album search,
    /// following the bar -- from the one currently open/focused (Tab / Shift+Tab in a picker, the
    /// sort menu, or the focused search field).
    CycleFilterInput { backwards: bool },
    /// Open the sort-order picker (the filter bar's sort chip).
    OpenSort,
    /// Move the sort picker's keyboard selection one option up or down (arrow keys).
    SortMove(MenuDir),
    /// The cursor entered a sort picker row: move the selection there.
    SortHover(usize),
    /// Pick the sort picker row under the mouse (a click).
    SortChoose(usize),
    /// Pick the sort picker's selected row (Enter).
    SortPick,
    /// The picker's search field changed: re-rank its matches and reset the selection to the top.
    PickerQuery(String),
    /// Move the picker's keyboard selection one slot up or down (arrow keys -- they pass through
    /// the focused search field, so this works while typing).
    PickerMove(MenuDir),
    /// The cursor entered a picker row: move the selection there.
    PickerHover(usize),
    /// Pick the picker row under the mouse (a click).
    PickerChoose(usize),
    /// Pick the picker's selected row (Enter -- via the search field while it has
    /// focus, or the key binding otherwise).
    PickerPick,
    /// Open the modal listing an album's tracks (the card's list bubble, a left-click on its
    /// cover, or Enter on the selection), to play or queue tracks individually.
    OpenTrackMenu(usize),
    /// Open the player actions menu (the player bar's ellipsis button): shuffle and friends.
    OpenActionsMenu,
    /// Dismiss whatever modal is up (Escape, or a click outside it).
    CloseModal,
    /// Cycle the repeat mode: off -> track -> album -> playlist -> off (Alt+r, and the
    /// player bar's repeat button).
    CycleRepeat,
    /// Shuffle the queue, in place and visibly, per the grouping (single tracks, or whole albums
    /// with their tracks kept together) and scope (everything behind the playing item, or
    /// literally everything). Alt+s/Alt+z shuffle the other albums/tracks, Ctrl+s/Ctrl+z all; see
    /// [`App::shuffle_with`].
    Shuffle { grouping: Grouping, scope: Scope },
    /// Rest playback at an edge of the queue, paused and ready to play (Ctrl+Home / Ctrl+End).
    RestAt(QueueEdge),
    /// Clear the queue entirely (Ctrl+K, or the actions menu): playback stops, the player bar
    /// disappears, and the session restores queueless -- a fresh start.
    ClearQueue,
    /// Move the track menu's keyboard selection one track up or down (arrow keys).
    MenuMove(MenuDir),
    /// The cursor entered a track menu row: move the selection there, so the mouse and the arrow
    /// keys drive the same highlight.
    MenuHover(usize),
    /// Append the track menu's selected track to the queue (Alt+Space), stepping the selection to the
    /// next track so successive presses queue an album run.
    MenuQueue,
    /// Play the track menu's selected track, replacing the queue (Ctrl+Space or Enter).
    MenuPlay,
    /// Play a single track, replacing the queue with it (a play bubble in the track menu).
    PlayTrack { album: usize, track: usize },
    /// Append a single track to the queue (an enqueue bubble in the track menu).
    QueueTrack { album: usize, track: usize },
    Player(Event<Nanos>),
    Media(Control),
    Toggle,
    /// Step to the next track (End, and the on-screen button). `repeat` marks a held-key
    /// auto-repeat, which the handler rate-limits; a fresh press or button click passes `false`.
    Next { repeat: bool },
    Prev,
    /// Restart the current track, or step to the previous one if playback is already near the
    /// start (Home). Position-dependent, so it's resolved here rather than in the key mapping.
    /// `repeat` marks a held-key auto-repeat, rate-limited like [`Next`](Msg::Next).
    PrevOrRestart { repeat: bool },
    /// Jump between albums in the queue (PageUp/PageDown). PageUp restarts the current album, or
    /// steps to the previous one if already at its first track; PageDown jumps to the next album.
    PrevAlbum,
    NextAlbum,
    CoverClicked(usize),
    /// The mouse wheel turned over the player body (anywhere but the bars) by this many whole notches:
    /// the vertical component
    /// steps the playing-track selection through the queue -- up towards its start, down towards
    /// its end -- and the horizontal component walks whole albums, like PageUp/PageDown (scroll
    /// left restarts or steps back, scroll right jumps to the next album).
    PlayerScrolled { up: i64, left: i64 },
    /// Nudge the volume by so many percent of 100% (Up/Down in the player: ±5%; repeats welcome, so a
    /// held key ramps).
    BumpVolume(i32),
    /// The seek bar was released at this position.
    SeekReleased(Nanos),
    /// A relative or absolute seek, from the keyboard or the OS media keys.
    Seek(Seek),
    /// A high-resolution cover finished decoding (`None` if the decode failed), to be stored in the
    /// global high-res cache (see [`App::ensure_hires`]).
    HiResLoaded { id: u64, pixels: Option<Pixels> },
}

/// A seek that isn't a drag of the bar: a jump relative to the current position, or to the start
/// of the track.
#[derive(Debug, Clone, Copy, PartialEq, Eq, Structural)]
pub enum Seek {
    By(SeekDir, Nanos),
    ToStart,
}

#[derive(Debug, Clone, Copy, PartialEq, Eq, Structural)]
pub enum SeekDir {
    Forward,
    Backward,
}

/// A keyboard move of a menu's selection.
#[derive(Debug, Clone, Copy, PartialEq, Eq, Structural)]
pub enum MenuDir {
    Up,
    Down,
}

/// The queue edge a [`Msg::RestAt`] rests playback on.
#[derive(Debug, Clone, Copy, PartialEq, Eq, Structural)]
pub enum QueueEdge {
    First,
    Last,
}

/// How many album runs on each side of the playing one the cover flow ensures are held in the
/// high-res cache (plus the current run itself). Asymmetric because skipping forward is more common
/// than back. There is no separate eviction here: covers that fall outside this span stay in the
/// global cache until its LRU bound retires them (see [`HiResCache`](crate::hires::HiResCache)), so
/// a short hop back finds them still resident and instant.
pub const ENSURE_PREV: usize = 8;

pub const ENSURE_NEXT: usize = 10;

/// How close a reported position must be to a pending seek's target to count as "arrived", after
/// which live reports drive the bar again. Wide enough that the first report once playback catches
/// up clears it, narrow relative to a seek step so it doesn't clear mid-scrub while holding a key.
pub const SEEK_SETTLE: Nanos = 1_000_000_000;

/// Below this, Home steps back a track rather than restarting the current one.
pub const NEAR_START: Nanos = 1_500_000_000;

/// What becomes of the model, and what it asks for.
#[verifier::ext_equal]
pub struct Turn {
    pub app: AppView,
    pub effects: Seq<EffectView>,
}

/// The paths of some items.
pub open spec fn paths_of(queue: Seq<QueueItem>) -> Seq<String> {
    queue.map_values(|item: QueueItem| item.path)
}

/// A selection moved one step, and kept among the slots up to `last`.
pub open spec fn step_of(selected: usize, dir: MenuDir, last: usize) -> usize {
    match dir {
        MenuDir::Up => if selected == 0 {
            0
        } else {
            (selected - 1) as usize
        },
        MenuDir::Down => if selected < last {
            (selected + 1) as usize
        } else {
            last
        },
    }
}

fn step(selected: usize, dir: MenuDir, last: usize) -> (r: usize)
    ensures
        r == step_of(selected, dir, last),
{
    match dir {
        MenuDir::Up => selected.saturating_sub(1),
        MenuDir::Down => if selected < last {
            selected + 1
        } else {
            last
        },
    }
}

/// The tracks of two albums are the same, in the same order.
pub open spec fn same_tracks(a: Seq<TrackInfo>, b: Seq<TrackInfo>) -> bool {
    &&& a.len() == b.len()
    &&& forall|k: int|
        0 <= k < a.len() ==> (#[trigger] a[k]).path@ == b[k].path@ && a[k].title@ == b[k].title@
}

/// A report says nothing new of an album. (Covers and accents are never reported.)
pub open spec fn says_nothing_new(album: Album, report: Album) -> bool {
    &&& album.title@ == report.title@
    &&& album.artist@ == report.artist@
    &&& album.genre@ == report.genre@
    &&& album.year == report.year
    &&& album.cover_id == report.cover_id
    &&& same_tracks(album.tracks@, report.tracks@)
}

/// The first of some albums, from the `k`-th on, with the given id.
pub open spec fn album_with(albums: Seq<Album>, id: u64, k: int) -> Option<int>
    decreases albums.len() - k,
{
    if k >= albums.len() {
        None
    } else if albums[k].id == id {
        Some(k)
    } else {
        album_with(albums, id, k + 1)
    }
}

/// An album comes after another in the library: by artist, then by title, case aside.
pub open spec fn comes_after(a: Album, b: Album) -> bool {
    match text_ordering(lowercase(a.artist@), lowercase(b.artist@), 0) {
        Ordering::Greater => true,
        Ordering::Less => false,
        Ordering::Equal => text_ordering(lowercase(a.title@), lowercase(b.title@), 0) is Greater,
    }
}

/// Where an album goes in the library, from the `k`-th place on: before the first album that comes after
/// it.
pub open spec fn place_for(albums: Seq<Album>, album: Album, k: int) -> int
    decreases albums.len() - k,
{
    if k >= albums.len() {
        albums.len() as int
    } else if comes_after(albums[k], album) {
        k
    } else {
        place_for(albums, album, k + 1)
    }
}

/// A report, with the art already loaded where the cover is unchanged (the scanner
/// skips re-decoding and re-sending it); the accent follows the cover.
pub open spec fn with_cover_of(report: Album, album: Album) -> Album {
    if album.cover_id == report.cover_id {
        Album { cover: album.cover, accent: album.accent, ..report }
    } else {
        report
    }
}

/// The art is the current cover choice of one of the albums it came for.
pub open spec fn takes_art(album: Album, ids: Seq<u64>, art: CoverArt) -> bool {
    ids.contains(album.id) && album.cover_id == Some(art.id)
}

/// An album with the given id takes the art.
pub open spec fn is_accepted(albums: Seq<Album>, ids: Seq<u64>, art: CoverArt, id: u64) -> bool {
    exists|k: int| 0 <= k < albums.len() && (#[trigger] albums[k]).id == id && takes_art(albums[k], ids, art)
}

/// An album of the library takes the art.
pub open spec fn any_accepted(albums: Seq<Album>, ids: Seq<u64>, art: CoverArt) -> bool {
    exists|k: int| 0 <= k < albums.len() && takes_art(#[trigger] albums[k], ids, art)
}

/// An album once cover art has come.
pub open spec fn dressed(album: Album, albums: Seq<Album>, ids: Seq<u64>, art: CoverArt) -> Album {
    if is_accepted(albums, ids, art, album.id) {
        Album { cover: Some(art), accent: Some(art.accent), ..album }
    } else {
        album
    }
}

/// A queue item once cover art has come.
pub open spec fn dressed_item(item: QueueItem, albums: Seq<Album>, ids: Seq<u64>, art: CoverArt) -> QueueItem {
    if is_accepted(albums, ids, art, item.album_id) {
        QueueItem { cover: Some(art), accent: Some(art.accent), ..item }
    } else {
        item
    }
}

/// Some album's accent is another than the art's.
pub open spec fn is_news(albums: Seq<Album>, ids: Seq<u64>, art: CoverArt) -> bool {
    exists|k: int|
        0 <= k < albums.len() && is_accepted(albums, ids, art, (#[trigger] albums[k]).id) && albums[k].accent
            != Some(art.accent)
}

/// Some album of a library shows the cover with the given id.
pub open spec fn album_shows(albums: Seq<Album>, id: u64) -> bool {
    exists|k: int|
        0 <= k < albums.len() && (#[trigger] albums[k]).cover is Some && albums[k].cover->0.id == id
}

/// Some item of a queue shows the cover with the given id.
pub open spec fn item_shows(queue: Seq<QueueItem>, id: u64) -> bool {
    exists|k: int| 0 <= k < queue.len() && (#[trigger] queue[k]).cover is Some && queue[k].cover->0.id == id
}

/// The albums of a library that a scan still found.
pub open spec fn still_there(albums: Seq<Album>, ids: Seq<u64>) -> Seq<Album>
    decreases albums.len(),
{
    if albums.len() == 0 {
        Seq::empty()
    } else {
        let before = still_there(albums.drop_last(), ids);
        if ids.contains(albums.last().id) {
            before.push(albums.last())
        } else {
            before
        }
    }
}

/// The items of the first `n` shown albums.
pub open spec fn shown_items(albums: Seq<Album>, shown: Seq<usize>, n: int) -> Seq<QueueItem>
    decreases n,
{
    if n <= 0 {
        Seq::empty()
    } else {
        shown_items(albums, shown, n - 1) + items_of(albums[shown[n - 1] as int])
    }
}

/// The position that a seek goes to.
pub open spec fn seek_target(pos: Nanos, len: Option<Nanos>, seek: Seek) -> Nanos {
    let target = match seek {
        Seek::By(SeekDir::Forward, dt) => if pos + dt <= u64::MAX {
            pos + dt
        } else {
            u64::MAX as int
        },
        Seek::By(SeekDir::Backward, dt) => if pos >= dt {
            pos - dt
        } else {
            0
        },
        Seek::ToStart => 0,
    };
    match len {
        Some(len) => if target <= len {
            target as u64
        } else {
            len
        },
        None => target as u64,
    }
}

/// The minimum spacing between held-key skips, as a function of how long the key has been held.
pub open spec fn interval_of(held: Nanos) -> Nanos {
    if held >= 2_000_000_000 {
        50_000_000
    } else {
        125_000_000
    }
}

/// The time from one point to another; none where the other is not later.
pub open spec fn since(now: Nanos, earlier: Nanos) -> Nanos {
    if now >= earlier {
        (now - earlier) as u64
    } else {
        0
    }
}

/// How far two times are apart.
pub open spec fn apart(a: Nanos, b: Nanos) -> int {
    if a >= b {
        a - b
    } else {
        b - a
    }
}

/// A signed number of microseconds, as a seek.
pub open spec fn seek_of(micros: i64) -> Seek {
    let size = if micros >= 0 {
        micros as int
    } else {
        -micros
    };
    let dt = if size * 1000 <= u64::MAX {
        (size * 1000) as u64
    } else {
        u64::MAX
    };
    Seek::By(
        if micros >= 0 {
            SeekDir::Forward
        } else {
            SeekDir::Backward
        },
        dt,
    )
}

/// The track that PageUp goes to: the first of the current album, or -- where that is the current one
/// already -- of the album before.
pub open spec fn prev_album_of(queue: Seq<QueueItem>, current: usize) -> Option<usize> {
    let runs = runs_of(queue);
    let cur = run_index(runs, current as int);
    if runs.len() == 0 {
        None
    } else if runs[cur].start != current {
        Some(runs[cur].start)
    } else if cur > 0 {
        Some(runs[cur - 1].start)
    } else {
        None
    }
}

/// The track that PageDown goes to: the first of the next album.
pub open spec fn next_album_of(queue: Seq<QueueItem>, current: usize) -> Option<usize> {
    let runs = runs_of(queue);
    let next = run_index(runs, current as int) + 1;
    if next < runs.len() {
        Some(runs[next].start)
    } else {
        None
    }
}

/// A jump, if there is somewhere to jump to.
pub open spec fn jump(target: Option<usize>) -> Seq<EffectView> {
    match target {
        Some(ix) => seq![EffectView::Send(CmdView::JumpTo(ix))],
        None => Seq::empty(),
    }
}

/// The track that the wheel selects: as many slots up as it turned, and kept in the queue.
pub open spec fn scrolled_to(current: usize, len: nat, up: i64) -> int {
    let target = current - up;
    if target < 0 {
        0
    } else if target >= len {
        len - 1
    } else {
        target
    }
}

/// What querying the covers of the runs from `lo` up to `k` makes of the cache, and asks for.
pub open spec fn warmed(
    hires: HiResView,
    queue: Seq<QueueItem>,
    runs: Seq<Range<usize>>,
    lo: int,
    k: int,
) -> (HiResView, Seq<EffectView>)
    decreases k - lo,
{
    if k <= lo {
        (hires, Seq::empty())
    } else {
        let before = warmed(hires, queue, runs, lo, k - 1);
        match queue[runs[k - 1].start as int].cover {
            Some(art) => (
                before.0.queried(art.id),
                if before.0.demands(art.id) {
                    before.1.push(EffectView::Decode { id: art.id, file: art.file })
                } else {
                    before.1
                },
            ),
            None => before,
        }
    }
}

impl AppView {
    /// Nothing changes.
    pub open spec fn still(self) -> Turn {
        Turn { app: self, effects: Seq::empty() }
    }

    /// Nothing changes, and something is asked for.
    pub open spec fn asking(self, effect: EffectView) -> Turn {
        Turn { app: self, effects: seq![effect] }
    }

    /// Nothing changes, and the engine is sent a command.
    pub open spec fn sending(self, cmd: CmdView) -> Turn {
        self.asking(EffectView::Send(cmd))
    }

    /// The queue's tracks, to be remembered.
    pub open spec fn playlist_saved(self) -> EffectView {
        EffectView::SavePlaylist { version: PLAYLIST_VERSION, tracks: paths_of(self.queue) }
    }

    /// The session state around the queue, to be remembered.
    pub open spec fn player_saved(self) -> EffectView {
        EffectView::SavePlayer(
            SavedPlayer {
                version: PLAYER_VERSION,
                current: self.current,
                repeat: self.repeat,
                sort: self.sort,
            },
        )
    }

    /// The queue is replaced, and played from the top.
    pub open spec fn playing(self, items: Seq<QueueItem>) -> Turn {
        let app = AppView { queue: items, current: 0, screen: Screen::Player, ..self };
        Turn {
            app,
            effects: seq![
                EffectView::Send(
                    CmdView::SetQueue { tracks: entries_of(items), start: 0, play: PlayState::Playing },
                ),
                EffectView::FlowTo(0),
                app.playlist_saved(),
                app.player_saved(),
            ],
        }
    }

    /// The queue grows.
    pub open spec fn queueing(self, items: Seq<QueueItem>) -> Turn {
        let app = AppView { queue: self.queue + items, ..self };
        Turn {
            app,
            effects: seq![EffectView::Send(CmdView::Append { tracks: entries_of(items) }), app.playlist_saved()],
        }
    }

    /// The high-res cover of an album is warmed.
    pub open spec fn preloading(self, ix: int) -> Turn {
        if 0 <= ix < self.albums.len() && self.albums[ix].cover is Some {
            let art = self.albums[ix].cover->0;
            Turn {
                app: AppView { hires: self.hires.queried(art.id), ..self },
                effects: if self.hires.demands(art.id) {
                    seq![EffectView::Decode { id: art.id, file: art.file }]
                } else {
                    Seq::empty()
                },
            }
        } else {
            self.still()
        }
    }

    /// The high-res covers around the playing album are warmed.
    pub open spec fn ensuring(self) -> Turn {
        let runs = runs_of(self.queue);
        if runs.len() == 0 {
            self.still()
        } else {
            let center = run_index(runs, self.current as int);
            let lo = if center >= ENSURE_PREV {
                center - ENSURE_PREV
            } else {
                0
            };
            let hi = if center + ENSURE_NEXT < runs.len() {
                center + ENSURE_NEXT
            } else {
                runs.len() - 1
            };
            let (hires, effects) = warmed(self.hires, self.queue, runs, lo, hi + 1);
            Turn { app: AppView { hires, ..self }, effects }
        }
    }

    /// The now-playing state, given the URL of the cover.
    pub open spec fn now_playing(self, cover_url: Option<Seq<char>>) -> SnapshotView {
        SnapshotView {
            meta: if self.current < self.queue.len() {
                let item = self.queue[self.current as int];
                Some(
                    MetaView {
                        title: item.title@,
                        album: item.album@,
                        artist: item.artist@,
                        cover_url,
                        duration: self.len,
                    },
                )
            } else {
                None
            },
            state: match self.play_state {
                PlayState::Playing => Playback::Playing,
                PlayState::Paused => Playback::Paused,
            },
            position: self.pos,
        }
    }

    /// The URL of the playing track's cover, if there is one.
    pub open spec fn playing_cover(self) -> Option<Seq<char>> {
        if self.current < self.queue.len() && self.queue[self.current as int].cover is Some {
            file_url_of(self.queue[self.current as int].cover->0.file@)
        } else {
            None
        }
    }

    /// The now-playing state, for the OS.
    pub open spec fn published(self) -> EffectView {
        EffectView::Publish(self.now_playing(self.playing_cover()))
    }

    /// The track menu's selection moves.
    pub open spec fn menu_stepped(self, dir: MenuDir) -> Turn {
        match self.modal {
            Some(ModalView::Tracks(menu)) => if menu.album < self.albums.len() && self.albums[menu.album as int].tracks@.len()
                > 0 {
                let last = (self.albums[menu.album as int].tracks@.len() - 1) as usize;
                let selected = step_of(menu.selected, dir, last);
                Turn {
                    app: AppView {
                        modal: Some(ModalView::Tracks(TrackMenu { album: menu.album, selected })),
                        ..self
                    },
                    effects: seq![EffectView::Snap { list: List::Tracks, slot: selected, last }],
                }
            } else {
                self.still()
            },
            _ => self.still(),
        }
    }

    /// The sort picker opens, on the current order.
    pub open spec fn sort_opened(self) -> Turn {
        Turn {
            app: AppView {
                modal: Some(ModalView::Sort(SortMenu { selected: slot_of_order(self.sort, 0) as usize })),
                ..self
            },
            effects: seq![EffectView::Unfocus],
        }
    }

    /// The picker's selection moves.
    pub open spec fn picker_stepped(self, dir: MenuDir) -> Turn {
        match self.modal {
            Some(ModalView::Picker(picker)) => {
                let last = picker.found.len() as usize;
                let selected = step_of(picker.selected, dir, last);
                Turn {
                    app: AppView {
                        modal: Some(ModalView::Picker(PickerView { selected, ..picker })),
                        ..self
                    },
                    effects: seq![EffectView::Snap { list: List::Picker, slot: selected, last }],
                }
            },
            _ => self.still(),
        }
    }

    /// The sort picker's selection moves.
    pub open spec fn sort_stepped(self, dir: MenuDir) -> Turn {
        match self.modal {
            Some(ModalView::Sort(menu)) => {
                let last = (SortOrder::every().len() - 1) as usize;
                let selected = step_of(menu.selected, dir, last);
                Turn {
                    app: AppView { modal: Some(ModalView::Sort(SortMenu { selected })), ..self },
                    effects: seq![EffectView::Snap { list: List::Sort, slot: selected, last }],
                }
            },
            _ => self.still(),
        }
    }

    /// A filter picker has opened, on all the subject's values.
    pub open spec fn picker_opened(self, subject: PickerSubject, turn: Turn) -> bool {
        &&& turn.effects == seq![EffectView::FocusPicker]
        &&& turn.app.modal matches Some(ModalView::Picker(picker)) && {
            &&& turn.app == (AppView { modal: turn.app.modal, ..self })
            &&& picker.subject == subject
            &&& picker.query == Seq::<char>::empty()
            &&& picker.selected == 0
            &&& are_picker_matches(picker.found, self.albums, subject, Seq::empty())
        }
    }

    /// The picker's query has changed.
    pub open spec fn query_changed(self, query: Seq<char>, turn: Turn) -> bool {
        match self.modal {
            Some(ModalView::Picker(picker)) => {
                &&& turn.effects == seq![EffectView::Snap { list: List::Picker, slot: 0, last: 0 }]
                &&& turn.app.modal matches Some(ModalView::Picker(after)) && {
                    &&& turn.app == (AppView { modal: turn.app.modal, ..self })
                    &&& after == (PickerView { query, found: after.found, selected: 0, ..picker })
                    &&& are_picker_matches(after.found, self.albums, picker.subject, query)
                }
            },
            _ => turn == self.still(),
        }
    }

    /// A value has been picked for a filter.
    pub open spec fn filter_picked(self, slot: usize, turn: Turn) -> bool {
        match self.modal {
            Some(ModalView::Picker(picker)) => if slot <= picker.found.len() {
                let value = if slot == 0 {
                    None
                } else {
                    Some(picker.found[slot - 1]@)
                };
                let filter = match picker.subject {
                    PickerSubject::Genre => FilterView { genre: value, ..self.filter },
                    PickerSubject::Artist => FilterView { artist: value, ..self.filter },
                };
                turn.effects == Seq::<EffectView>::empty() && refreshes(
                    AppView { filter, modal: None, selected: None, ..self },
                    turn.app,
                )
            } else {
                turn == self.still()
            },
            _ => turn == self.still(),
        }
    }

    /// An order has been picked.
    pub open spec fn sort_picked(self, slot: usize, turn: Turn) -> bool {
        if slot < SortOrder::every().len() {
            refreshes(
                AppView { sort: SortOrder::every()[slot as int], modal: None, selected: None, ..self },
                turn.app,
            ) && turn.effects == seq![turn.app.player_saved()]
        } else {
            turn == self.still()
        }
    }

    /// A seek.
    pub open spec fn sought(self, seek: Seek) -> Turn {
        let target = seek_target(self.pos, self.len, seek);
        (AppView { pos: target, pending_seek: Some(target), ..self }).sending(CmdView::Seek(target))
    }

    /// Whether a skip fires now.
    pub open spec fn may_skip(self, repeat: bool, now: Nanos) -> bool {
        !repeat || match self.last_skip {
            None => true,
            Some(last) => since(now, last) >= interval_of(
                match self.hold_start {
                    Some(start) => since(now, start),
                    None => 0,
                },
            ),
        }
    }

    /// A key that skips has been pressed, or is held.
    pub open spec fn skipping(self, repeat: bool, now: Nanos) -> AppView {
        if !repeat {
            AppView { hold_start: Some(now), last_skip: Some(now), ..self }
        } else if self.may_skip(repeat, now) {
            AppView { last_skip: Some(now), ..self }
        } else {
            self
        }
    }

    /// The queue in another order.
    pub open spec fn reordered(self, order: Seq<usize>) -> Seq<QueueItem> {
        Seq::new(order.len(), |k: int| self.queue[order[k] as int])
    }

    /// The queue is shuffled, by the given seed.
    pub open spec fn shuffling(self, grouping: Grouping, scope: Scope, seed: u64) -> Turn {
        if self.queue.len() == 0 {
            self.still()
        } else {
            let ids = self.queue.map_values(|item: QueueItem| item.album_id);
            let order = shuffled(ids, self.current, grouping, scope, seed);
            let queue = self.reordered(order);
            let modal = match self.modal {
                Some(ModalView::Actions) => None,
                other => other,
            };
            let (current, cmd) = match scope {
                Scope::Others => {
                    let current = slot_in(order, self.current, 0) as usize;
                    (current, CmdView::Reorder { tracks: entries_of(queue), current })
                },
                Scope::All => (
                    0usize,
                    CmdView::SetQueue { tracks: entries_of(queue), start: 0, play: PlayState::Paused },
                ),
            };
            let app = AppView { modal, queue, current, ..self };
            Turn {
                app,
                effects: seq![
                    EffectView::Send(cmd),
                    EffectView::FlowTo(app.flow() as usize),
                    app.playlist_saved(),
                    app.player_saved(),
                ],
            }
        }
    }

    /// The queue is shuffled, by some seed.
    pub open spec fn shuffled_somehow(self, grouping: Grouping, scope: Scope, turn: Turn) -> bool {
        exists|seed: u64| turn == #[trigger] self.shuffling(grouping, scope, seed)
    }

    /// An album as a scan reports it: nothing where the report says nothing new, else the library with
    /// it.
    pub open spec fn reported(self, album: Album) -> Option<AppView> {
        match album_with(self.albums, album.id, 0) {
            Some(ix) => if says_nothing_new(self.albums[ix], album) {
                None
            } else {
                Some(self.taking_in(self.albums.remove(ix), with_cover_of(album, self.albums[ix])))
            },
            None => Some(self.taking_in(self.albums, album)),
        }
    }

    /// The library is another one, with an album more.
    pub open spec fn taking_in(self, albums: Seq<Album>, album: Album) -> AppView {
        AppView {
            albums: albums.insert(place_for(albums, album, 0), album),
            index_dirty: true,
            queue: all_hydrated(self.queue, album),
            ..self
        }
    }

    /// Cover art has come, and the albums and items that it is for have it.
    pub open spec fn covered(self, ids: Seq<u64>, art: CoverArt) -> AppView {
        AppView {
            albums: self.albums.map_values(|a: Album| dressed(a, self.albums, ids, art)),
            queue: self.queue.map_values(|i: QueueItem| dressed_item(i, self.albums, ids, art)),
            index_dirty: self.index_dirty || is_news(self.albums, ids, art),
            ..self
        }
    }

    /// Cover art has come.
    pub open spec fn covering(self, ids: Seq<u64>, art: CoverArt) -> Turn {
        let app = self.covered(ids, art);
        let held = if any_accepted(self.albums, ids, art) {
            seq![EffectView::HoldCover(art.id)]
        } else {
            Seq::empty()
        };
        if self.current < self.queue.len() && is_accepted(
            self.albums,
            ids,
            art,
            self.queue[self.current as int].album_id,
        ) {
            let turn = app.ensuring();
            Turn { app: turn.app, effects: held + seq![app.published()] + turn.effects }
        } else {
            Turn { app, effects: held }
        }
    }

    /// A scan has ended, given the ids of what it found.
    pub open spec fn scanned(self, ids: Seq<u64>) -> AppView {
        let albums = still_there(self.albums, ids);
        AppView {
            albums,
            index_dirty: self.index_dirty || albums.len() != self.albums.len(),
            scan: ScanState::Complete,
            ..self
        }
    }

    /// A scan has ended: what is gone leaves the grid, and the index is saved where anything changed.
    pub open spec fn done(self, ids: Seq<u64>, turn: Turn) -> bool {
        let app = self.scanned(ids);
        let live = Set::new(|id: u64| album_shows(app.albums, id) || item_shows(app.queue, id));
        let retired = seq![EffectView::RetireCovers { live }];
        &&& refreshes(AppView { index_dirty: false, ..app }, turn.app)
        &&& turn.effects == if app.index_dirty {
            retired.push(EffectView::SaveIndex)
        } else {
            retired
        }
    }

    /// The options of a periodic re-scan.
    pub open spec fn rescanning(self) -> ScanOptionsView {
        ScanOptionsView {
            root: self.places.music_dir,
            priority: Seq::empty(),
            known_covers: Set::new(|id: u64| album_shows(self.albums, id)),
            cache_file: self.places.cache_file,
            covers_dir: self.places.covers_dir,
        }
    }

    /// An event of the engine.
    pub open spec fn notified(self, event: Event<Nanos>) -> Turn {
        match event {
            Event::TrackStarted { ix, len } => {
                let app = AppView { current: ix, len, pos: 0, pending_seek: None, ..self };
                let turn = app.ensuring();
                Turn {
                    app: turn.app,
                    effects: seq![EffectView::ResetClock, app.published()] + turn.effects + seq![
                        turn.app.player_saved(),
                    ],
                }
            },
            Event::Progress(t) => match self.pending_seek {
                Some(target) if apart(t, target) > SEEK_SETTLE => self.still(),
                _ => {
                    let app = AppView { pending_seek: None, pos: t, ..self };
                    app.asking(app.published())
                },
            },
            Event::PlayState(state) => {
                let app = AppView { play_state: state, ..self };
                app.asking(app.published())
            },
            Event::QueueEnded => {
                let pos = match self.len {
                    Some(len) => len,
                    None => 0,
                };
                let app = AppView { play_state: PlayState::Paused, pos, pending_seek: None, ..self };
                app.asking(
                    EffectView::Publish(
                        SnapshotView { meta: None, state: Playback::Stopped, position: pos },
                    ),
                )
            },
        }
    }

    /// A request of the OS.
    pub open spec fn controlled(self, control: Control) -> Turn {
        match control {
            Control::Play => match self.play_state {
                PlayState::Paused => self.sending(CmdView::TogglePlayPause),
                PlayState::Playing => self.still(),
            },
            Control::Pause => self.pausing(),
            Control::Stop => self.pausing(),
            Control::Toggle => self.sending(CmdView::TogglePlayPause),
            Control::Next => self.sending(CmdView::Next),
            Control::Prev => self.sending(CmdView::Prev),
            Control::Seek(offset) => self.sought(seek_of(offset)),
            Control::SetPosition(t) => self.sending(CmdView::Seek(t)),
        }
    }

    /// There is no stopped-with-a-track-open state; pausing is the closest thing.
    pub open spec fn pausing(self) -> Turn {
        match self.play_state {
            PlayState::Playing => self.sending(CmdView::TogglePlayPause),
            PlayState::Paused => self.still(),
        }
    }

    /// The item of one track of an album of the library.
    pub open spec fn item_at(self, album: usize, track: usize) -> Option<QueueItem> {
        if album < self.albums.len() && track < self.albums[album as int].tracks@.len() {
            Some(items_of(self.albums[album as int])[track as int])
        } else {
            None
        }
    }

    /// The album that a cell of the grid shows.
    pub open spec fn album_at(self, cell: usize) -> Option<int> {
        if cell < self.filtered.len() {
            Some(self.filtered[cell as int] as int)
        } else {
            None
        }
    }

    /// The cover flow is clicked.
    pub open spec fn clicked(self, ix: usize) -> Turn {
        let runs = runs_of(self.queue);
        if ix == run_index(runs, self.current as int) {
            self.sending(CmdView::TogglePlayPause)
        } else if ix < runs.len() {
            self.sending(CmdView::JumpTo(runs[ix as int].start))
        } else {
            self.still()
        }
    }

    /// The wheel turned over the player.
    pub open spec fn scrolled(self, up: i64, left: i64) -> Turn {
        let target = scrolled_to(self.current, self.queue.len(), up);
        let rows = if up != 0 && self.queue.len() > 0 && target != self.current {
            seq![EffectView::Send(CmdView::JumpTo(target as usize))]
        } else {
            Seq::empty()
        };
        let albums = if left > 0 {
            jump(prev_album_of(self.queue, self.current))
        } else if left < 0 {
            jump(next_album_of(self.queue, self.current))
        } else {
            Seq::empty()
        };
        Turn { app: self, effects: rows + albums }
    }

    /// Tab among the filter inputs, from the one that is open.
    pub open spec fn input_stop(self) -> int {
        match self.modal {
            Some(ModalView::Sort(_)) => 0,
            Some(ModalView::Picker(picker)) => match picker.subject {
                PickerSubject::Genre => 1,
                PickerSubject::Artist => 2,
            },
            _ => 3,
        }
    }

    /// The next of the filter inputs opens; they form a ring of four.
    pub open spec fn input_cycled(self, backwards: bool, turn: Turn) -> bool {
        let next = (self.input_stop() + if backwards {
            3int
        } else {
            1int
        }) % 4;
        if next == 0 {
            turn == self.sort_opened()
        } else if next == 1 {
            self.picker_opened(PickerSubject::Genre, turn)
        } else if next == 2 {
            self.picker_opened(PickerSubject::Artist, turn)
        } else {
            turn == (AppView { modal: None, ..self }).asking(EffectView::FocusSearch)
        }
    }
}

/// Which of all orders the given one is, from the `k`-th on; the first where it is none of them.
pub open spec fn slot_of_order(order: SortOrder, k: int) -> int
    decreases SortOrder::every().len() - k,
{
    if k >= SortOrder::every().len() {
        0
    } else if SortOrder::every()[k] == order {
        k
    } else {
        slot_of_order(order, k + 1)
    }
}

/// Where a slot has gone in an order, from the `k`-th place on; the first where it is nowhere.
pub open spec fn slot_in(order: Seq<usize>, slot: usize, k: int) -> int
    decreases order.len() - k,
{
    if k >= order.len() {
        0
    } else if order[k] == slot {
        k
    } else {
        slot_in(order, slot, k + 1)
    }
}

/// What a Tab means, once it is known whether the album search field has the keyboard: an empty answer
/// (the field isn't rendered -- another view, an empty library) switches views like an unfocused one.
pub fn tab_answered(searching: Option<bool>, backwards: bool, otherwise: Screen) -> (msg: Msg)
    ensures
        msg == (if searching == Some(true) {
            Msg::CycleFilterInput { backwards }
        } else {
            Msg::Show(otherwise)
        }),
{
    match searching {
        Some(true) => Msg::CycleFilterInput { backwards },
        _ => Msg::Show(otherwise),
    }
}

fn nothing() -> (effects: Vec<Effect>)
    ensures
        asked(effects@) == Seq::<EffectView>::empty(),
{
    let effects: Vec<Effect> = Vec::new();
    assert(asked(effects@) =~= Seq::<EffectView>::empty());
    effects
}

fn one(effect: Effect) -> (effects: Vec<Effect>)
    ensures
        asked(effects@) == seq![effect@],
{
    let mut effects: Vec<Effect> = Vec::new();
    effects.push(effect);
    assert(asked(effects@) =~= seq![effect@]);
    effects
}

fn send(cmd: Cmd) -> (effects: Vec<Effect>)
    ensures
        asked(effects@) == seq![EffectView::Send(cmd@)],
{
    one(Effect::Send(cmd))
}

/// Appends the effects of a further step.
fn extend(effects: &mut Vec<Effect>, more: Vec<Effect>)
    ensures
        asked(final(effects)@) == asked(old(effects)@) + asked(more@),
{
    let ghost added = more@;
    let mut more = more;
    effects.append(&mut more);
    assert(asked(effects@) =~= asked(old(effects)@) + asked(added));
}

impl App {
    /// Snapshots the queue's tracks, to be remembered. Asked for by
    /// everything that changes the queue, so a crash or an exit at any point loses nothing.
    fn save_playlist(&self) -> (effect: Effect)
        ensures
            effect@ == self@.playlist_saved(),
    {
        let mut tracks: Vec<String> = Vec::new();
        while tracks.len() < self.queue.len()
            invariant
                tracks.len() <= self.queue.len(),
                tracks@ == paths_of(self.queue@).take(tracks.len() as int),
            decreases self.queue.len() - tracks.len(),
        {
            tracks.push(self.queue[tracks.len()].path.clone());
            assert(tracks@ =~= paths_of(self.queue@).take(tracks.len() as int));
        }
        assert(tracks@ =~= paths_of(self.queue@));
        Effect::SavePlaylist(SavedPlaylist::new(tracks))
    }

    /// Snapshots the session state around the queue (current track, repeat mode, sort order);
    /// asked for by everything that changes any of them. Split from [`App::save_playlist`]: these changes
    /// are frequent and needn't rewrite the whole track list.
    fn save_player(&self) -> (effect: Effect)
        ensures
            effect@ == self@.player_saved(),
    {
        Effect::SavePlayer(SavedPlayer::new(self.current, self.repeat, self.sort))
    }

    /// Replaces the queue with the given items and switches to the player view, playing from the top.
    pub fn play_items(&mut self, items: Vec<QueueItem>) -> (effects: Vec<Effect>)
        requires
            old(self).wf(),
        ensures
            final(self).wf(),
            (Turn { app: final(self)@, effects: asked(effects@) }) == old(self)@.playing(items@),
    {
        let tracks = entries(&items);
        self.queue = items;
        self.current = 0;
        self.screen = Screen::Player;
        let mut effects: Vec<Effect> = Vec::new();
        effects.push(Effect::Send(Cmd::SetQueue { tracks, start: 0, play: PlayState::Playing }));
        effects.push(Effect::FlowTo(0));
        effects.push(self.save_playlist());
        effects.push(self.save_player());
        assert(asked(effects@) =~= old(self)@.playing(items@).effects);
        effects
    }

    /// Appends the given items to the queue.
    pub fn queue_more(&mut self, items: Vec<QueueItem>) -> (effects: Vec<Effect>)
        requires
            old(self).wf(),
        ensures
            final(self).wf(),
            (Turn { app: final(self)@, effects: asked(effects@) }) == old(self)@.queueing(items@),
    {
        let ghost added = items@;
        let mut items = items;
        let tracks = entries(&items);
        self.queue.append(&mut items);
        let mut effects: Vec<Effect> = Vec::new();
        effects.push(Effect::Send(Cmd::Append { tracks }));
        effects.push(self.save_playlist());
        assert(asked(effects@) =~= old(self)@.queueing(added).effects);
        effects
    }

    /// Resolves a grid message's index (into the filtered list) to a real album index, or `None` for
    /// a stale cell (the filter can change under an in-flight message).
    fn shown_album(&self, cell: usize) -> (ix: Option<usize>)
        requires
            self.wf(),
        ensures
            match ix {
                Some(ix) => self@.album_at(cell) == Some(ix as int) && ix < self.albums.len(),
                None => self@.album_at(cell) is None,
            },
    {
        if cell < self.filtered.len() {
            Some(self.filtered[cell])
        } else {
            None
        }
    }

    /// Warms the global high-res cache with the cover of the album at `ix` (see
    /// [`HiResCache::query`](crate::hires::HiResCache::query));
    /// idempotent, so callers fire it on any hint that the album is about to play.
    fn preload_cover(&mut self, ix: usize) -> (effects: Vec<Effect>)
        requires
            old(self).wf(),
        ensures
            final(self).wf(),
            (Turn { app: final(self)@, effects: asked(effects@) }) == old(self)@.preloading(ix as int),
    {
        if ix < self.albums.len() {
            if let Some(art) = &self.albums[ix].cover {
                let id: u64 = art.id;
                let file: String = art.file.clone();
                if self.hires.query(id) {
                    return one(Effect::Decode { id, file });
                }
                return nothing();
            }
        }
        nothing()
    }

    /// Queries the high-res cache for the covers around the playing album, so it decodes the ones it
    /// doesn't already hold and keeps the on-screen window hot in its LRU. The cache owns all the
    /// fetch-or-decode bookkeeping (see [`HiResCache::query`](crate::hires::HiResCache::query)); this
    /// just declares the window.
    pub fn ensure_hires(&mut self) -> (effects: Vec<Effect>)
        requires
            old(self).wf(),
        ensures
            final(self).wf(),
            (Turn { app: final(self)@, effects: asked(effects@) }) == old(self)@.ensuring(),
    {
        let runs: Vec<Range<usize>> = album_runs(&self.queue);
        if runs.len() == 0 {
            return nothing();
        }
        let center: usize = run_of(&runs, self.current);
        let lo: usize = center.saturating_sub(ENSURE_PREV);
        let hi: usize = if runs.len() - 1 - center > ENSURE_NEXT {
            center + ENSURE_NEXT
        } else {
            runs.len() - 1
        };
        let ghost before = self@;
        let mut effects: Vec<Effect> = Vec::new();
        assert(asked(effects@) =~= Seq::empty());
        let mut k: usize = lo;
        while k <= hi
            invariant
                lo <= k <= hi + 1 <= runs.len(),
                self.wf(),
                runs@ == runs_of(self.queue@),
                before.queue == self.queue@,
                self@ == (AppView { hires: self.hires@, ..before }),
                (self.hires@, asked(effects@)) == warmed(before.hires, before.queue, runs@, lo as int, k as int),
            decreases hi + 1 - k,
        {
            proof {
                assert(self.queue.len() <= usize::MAX);
                crate::model::law_runs_part_the_queue(self.queue@);
                assert(crate::model::is_run(self.queue@, runs@[k as int], self.queue@.len() as int));
            }
            let ghost sofar = effects@;
            if let Some(art) = &self.queue[runs[k].start].cover {
                let id: u64 = art.id;
                let file: String = art.file.clone();
                if self.hires.query(id) {
                    effects.push(Effect::Decode { id, file });
                    assert(asked(effects@) =~= asked(sofar).push(EffectView::Decode { id, file }));
                }
            }
            k = k + 1;
        }
        effects
    }

    /// The now-playing state, given the URL of the cover.
    pub fn snapshot(&self, cover_url: Option<String>) -> (snapshot: Snapshot)
        ensures
            snapshot@ == self@.now_playing(crate::text::opt_text(cover_url)),
    {
        let meta: Option<Meta> = if self.current < self.queue.len() {
            let item: &QueueItem = &self.queue[self.current];
            Some(
                Meta {
                    title: item.title.clone(),
                    album: item.album.clone(),
                    artist: item.artist.clone(),
                    cover_url,
                    duration: self.len,
                },
            )
        } else {
            None
        };
        let state: Playback = match self.play_state {
            PlayState::Playing => Playback::Playing,
            PlayState::Paused => Playback::Paused,
        };
        Snapshot { meta, state, position: self.pos }
    }

    /// Publishes the current now-playing state to the OS media integration. Fire-and-forget: the
    /// media worker coalesces a burst of these down to the latest and rate-limits the actual pushes,
    /// so callers need not throttle.
    fn publish_media(&self) -> (effect: Effect)
        ensures
            effect@ == self@.published(),
    {
        // Absolute file:// URL so the OS can load the cover regardless of our working directory.
        let cover_url: Option<String> = if self.current < self.queue.len() {
            match &self.queue[self.current].cover {
                Some(art) => file_url(art.file.as_str()),
                None => None,
            }
        } else {
            None
        };
        Effect::Publish(self.snapshot(cover_url))
    }

    /// Moves the track menu's keyboard selection one step, clamped to the album's tracks, and snaps
    /// the menu's scrollable so the selection stays in view. Snapping is proportional (selection at
    /// fraction f of the list scrolls to fraction f), which keeps the selected row visible at every
    /// position without knowing the list's pixel geometry.
    fn menu_step(&mut self, dir: MenuDir) -> (effects: Vec<Effect>)
        requires
            old(self).wf(),
        ensures
            final(self).wf(),
            (Turn { app: final(self)@, effects: asked(effects@) }) == old(self)@.menu_stepped(dir),
    {
        match self.track_menu() {
            Some(menu) => {
                if menu.album >= self.albums.len() || self.albums[menu.album].tracks.len() == 0 {
                    return nothing();
                }
                let last: usize = self.albums[menu.album].tracks.len() - 1;
                let selected: usize = step(menu.selected, dir, last);
                self.modal = Some(Modal::Tracks(TrackMenu { album: menu.album, selected }));
                one(Effect::Snap { list: List::Tracks, slot: selected, last })
            },
            None => nothing(),
        }
    }

    /// Opens the sort-order picker, its selection on the current order. No text field to focus (the
    /// option set is fixed), so unfocus any filter input, so the modal's keys reach it (see
    /// [`key_to_msg`](crate::keys::key_to_msg)).
    fn open_sort(&mut self) -> (effects: Vec<Effect>)
        requires
            old(self).wf(),
        ensures
            final(self).wf(),
            (Turn { app: final(self)@, effects: asked(effects@) }) == old(self)@.sort_opened(),
    {
        let selected: usize = order_slot(self.sort);
        self.modal = Some(Modal::Sort(SortMenu { selected }));
        one(Effect::Unfocus)
    }

    /// Opens the filter picker for `subject` and focuses its search field, so typing starts
    /// filtering immediately.
    fn open_picker(&mut self, subject: PickerSubject) -> (effects: Vec<Effect>)
        requires
            old(self).wf(),
        ensures
            final(self).wf(),
            old(self)@.picker_opened(subject, Turn { app: final(self)@, effects: asked(effects@) }),
    {
        proof {
            reveal_strlit("");
        }
        let found: Vec<String> = picker_matches(&self.albums, subject, "");
        assert(""@ =~= Seq::<char>::empty());
        let query: String = String::new();
        assert(query@ =~= Seq::<char>::empty());
        self.modal = Some(Modal::Picker(Picker { subject, query, matches: found, selected: 0 }));
        one(Effect::FocusPicker)
    }

    /// Applies the picker's slot `slot` to the filter: slot 0 (the standing "(all)" entry) clears it,
    /// slot `n + 1` picks `matches[n]`. Closes the picker, drops the grid selection (it indexes the
    /// filtered list, which is about to change), and refreshes the grid. A stale slot keeps the picker
    /// open.
    pub fn pick_filter(&mut self, slot: usize) -> (effects: Vec<Effect>)
        requires
            old(self).wf(),
        ensures
            final(self).wf(),
            old(self)@.filter_picked(slot, Turn { app: final(self)@, effects: asked(effects@) }),
    {
        let (subject, value): (PickerSubject, Option<String>) = match &self.modal {
            Some(Modal::Picker(picker)) => {
                if slot > picker.matches.len() {
                    return nothing();
                }
                if slot == 0 {
                    (picker.subject, None)
                } else {
                    (picker.subject, Some(picker.matches[slot - 1].clone()))
                }
            },
            _ => return nothing(),
        };
        match subject {
            PickerSubject::Genre => self.filter.genre = value,
            PickerSubject::Artist => self.filter.artist = value,
        }
        self.modal = None;
        self.selected = None;
        refresh_filter(self);
        nothing()
    }

    /// Moves the picker's keyboard selection one slot, clamped to its entries ("(all)" plus the
    /// matches), and snaps the list so the selection stays in view -- proportional, like the track
    /// menu (see [`App::menu_step`]).
    fn picker_step(&mut self, dir: MenuDir) -> (effects: Vec<Effect>)
        requires
            old(self).wf(),
        ensures
            final(self).wf(),
            (Turn { app: final(self)@, effects: asked(effects@) }) == old(self)@.picker_stepped(dir),
    {
        match &mut self.modal {
            Some(Modal::Picker(picker)) => {
                let last: usize = picker.matches.len();  // slots run 0..=len
                let selected: usize = step(picker.selected, dir, last);
                picker.selected = selected;
                one(Effect::Snap { list: List::Picker, slot: selected, last })
            },
            _ => nothing(),
        }
    }

    /// Moves the sort picker's keyboard selection one option, clamped, and snaps the list to it.
    fn sort_step(&mut self, dir: MenuDir) -> (effects: Vec<Effect>)
        requires
            old(self).wf(),
        ensures
            final(self).wf(),
            (Turn { app: final(self)@, effects: asked(effects@) }) == old(self)@.sort_stepped(dir),
    {
        match &mut self.modal {
            Some(Modal::Sort(menu)) => {
                let last: usize = 11;
                let selected: usize = step(menu.selected, dir, last);
                menu.selected = selected;
                one(Effect::Snap { list: List::Sort, slot: selected, last })
            },
            _ => nothing(),
        }
    }

    /// Applies the sort picker's slot `slot`: sets the order, closes the picker, drops the grid
    /// selection (it indexes the filtered list, which is about to reorder), refreshes the grid, and
    /// persists the new order (it survives restarts).
    pub fn pick_sort(&mut self, slot: usize) -> (effects: Vec<Effect>)
        requires
            old(self).wf(),
        ensures
            final(self).wf(),
            old(self)@.sort_picked(slot, Turn { app: final(self)@, effects: asked(effects@) }),
    {
        let all: [SortOrder; 12] = SortOrder::all();
        if slot >= 12 {
            return nothing();
        }
        self.sort = all[slot];
        self.modal = None;
        self.selected = None;
        refresh_filter(self);
        one(self.save_player())
    }

    /// The queue item for one track of the album at `album`, or `None` if either index is out of
    /// range (a rescan can reshuffle the list under an open track menu).
    fn track_item(&self, album: usize, track: usize) -> (item: Option<QueueItem>)
        ensures
            item == self@.item_at(album, track),
    {
        if album < self.albums.len() && track < self.albums[album].tracks.len() {
            let items: Vec<QueueItem> = queue_items(&self.albums[album]);
            Some(items[track].copy())
        } else {
            None
        }
    }

    /// Performs a [`Seek`]. The target is taken relative to [`pos`](App::pos) -- which is itself moved
    /// optimistically below -- so a burst of relative seeks accumulates instead of all reading the
    /// same round-trip-lagged position. Relative seeks saturate at zero and clamp to the track length.
    pub fn do_seek(&mut self, seek: Seek) -> (effects: Vec<Effect>)
        requires
            old(self).wf(),
        ensures
            final(self).wf(),
            (Turn { app: final(self)@, effects: asked(effects@) }) == old(self)@.sought(seek),
    {
        let target: Nanos = match seek {
            Seek::By(SeekDir::Forward, dt) => self.pos.saturating_add(dt),
            Seek::By(SeekDir::Backward, dt) => self.pos.saturating_sub(dt),
            Seek::ToStart => 0,
        };
        let target: Nanos = match self.len {
            Some(len) => if target <= len {
                target
            } else {
                len
            },
            None => target,
        };
        // Move the bar now and remember the target: the next relative seek reads this position, and
        // reports still in flight are ignored until playback reaches it (see the Progress handler).
        self.pos = target;
        self.pending_seek = Some(target);
        send(Cmd::Seek(target))
    }

    /// Whether a Home/End track skip should fire now, with staged auto-repeat acceleration. A fresh
    /// press (`repeat` false) always fires and starts a new hold; while the key stays down the skip
    /// rate ramps up the longer it's held (see [`skip_interval`]), so a quick tap stays precise but a
    /// sustained hold races through a long queue.
    pub fn skip_ready(&mut self, repeat: bool, now: Nanos) -> (ready: bool)
        requires
            old(self).wf(),
        ensures
            final(self).wf(),
            ready == old(self)@.may_skip(repeat, now),
            final(self)@ == old(self)@.skipping(repeat, now),
    {
        if !repeat {
            self.hold_start = Some(now);
            self.last_skip = Some(now);
            return true;
        }
        let held: Nanos = match self.hold_start {
            Some(start) => now.saturating_sub(start),
            None => 0,
        };
        if let Some(last) = self.last_skip {
            if now.saturating_sub(last) < skip_interval(held) {
                return false;
            }
        }
        self.last_skip = Some(now);
        true
    }

    /// PageUp: restart the current album, or -- if playback is already at its first track -- step to
    /// the previous album. Mirrors Home's restart-or-step behavior at album granularity. No-op before
    /// the first album.
    fn prev_album(&self) -> (effects: Vec<Effect>)
        ensures
            asked(effects@) == jump(prev_album_of(self@.queue, self@.current)),
    {
        let runs: Vec<Range<usize>> = album_runs(&self.queue);
        if runs.len() == 0 {
            return nothing();
        }
        let cur: usize = run_of(&runs, self.current);
        if runs[cur].start != self.current {
            send(Cmd::JumpTo(runs[cur].start))
        } else if cur > 0 {
            send(Cmd::JumpTo(runs[cur - 1].start))
        } else {
            nothing()
        }
    }

    /// PageDown: jump to the start of the next album. No-op past the last album.
    fn next_album(&self) -> (effects: Vec<Effect>)
        ensures
            asked(effects@) == jump(next_album_of(self@.queue, self@.current)),
    {
        let runs: Vec<Range<usize>> = album_runs(&self.queue);
        let cur: usize = run_of(&runs, self.current);
        if runs.len() > 0 && cur < runs.len() - 1 {
            send(Cmd::JumpTo(runs[cur + 1].start))
        } else {
            nothing()
        }
    }
}

/// The minimum spacing between held-key skips, as a function of how long the key has been held:
/// 8/s for the first 2s, then 20/s. Holding accelerates through a long queue while a short press
/// keeps fine, one-at-a-time control.
pub fn skip_interval(held: Nanos) -> (interval: Nanos)
    ensures
        interval == interval_of(held),
{
    if held >= 2_000_000_000 {
        50_000_000
    } else {
        125_000_000
    }
}

fn order_slot(order: SortOrder) -> (slot: usize)
    ensures
        slot == slot_of_order(order, 0),
{
    let all: [SortOrder; 12] = SortOrder::all();
    let mut k: usize = 0;
    while k < 12
        invariant
            k <= 12,
            all@ == SortOrder::every(),
            slot_of_order(order, 0) == slot_of_order(order, k as int),
        decreases 12 - k,
    {
        if all[k] == order {
            return k;
        }
        k = k + 1;
    }
    0
}

fn tracks_are_same(a: &Vec<TrackInfo>, b: &Vec<TrackInfo>) -> (r: bool)
    ensures
        r == same_tracks(a@, b@),
{
    if a.len() != b.len() {
        return false;
    }
    let mut k: usize = 0;
    while k < a.len()
        invariant
            k <= a.len() == b.len(),
            forall|l: int|
                0 <= l < k ==> (#[trigger] a@[l]).path@ == b@[l].path@ && a@[l].title@ == b@[l].title@,
        decreases a.len() - k,
    {
        if !same(a[k].path.as_str(), b[k].path.as_str()) || !same(a[k].title.as_str(), b[k].title.as_str()) {
            assert(a@[k as int].path@ != b@[k as int].path@ || a@[k as int].title@ != b@[k as int].title@);
            return false;
        }
        k = k + 1;
    }
    true
}

fn is_unchanged(album: &Album, report: &Album) -> (r: bool)
    ensures
        r == says_nothing_new(*album, *report),
{
    same(album.title.as_str(), report.title.as_str()) && same(album.artist.as_str(), report.artist.as_str()) && same(
        album.genre.as_str(),
        report.genre.as_str(),
    ) && album.year == report.year && album.cover_id == report.cover_id && tracks_are_same(
        &album.tracks,
        &report.tracks,
    )
}

fn find_album(albums: &Vec<Album>, id: u64) -> (ix: Option<usize>)
    ensures
        match ix {
            Some(ix) => album_with(albums@, id, 0) == Some(ix as int) && ix < albums.len(),
            None => album_with(albums@, id, 0) is None,
        },
{
    let mut k: usize = 0;
    while k < albums.len()
        invariant
            k <= albums.len(),
            album_with(albums@, id, 0) == album_with(albums@, id, k as int),
        decreases albums.len() - k,
    {
        if albums[k].id == id {
            return Some(k);
        }
        k = k + 1;
    }
    None
}

fn is_after(a: &Album, artist: &str, title: &str, Ghost(b): Ghost<Album>) -> (r: bool)
    requires
        artist@ == lowercase(b.artist@),
        title@ == lowercase(b.title@),
    ensures
        r == comes_after(*a, b),
{
    let a_artist: String = lowercased(a.artist.as_str());
    match compare_texts(a_artist.as_str(), artist) {
        Ordering::Greater => true,
        Ordering::Less => false,
        Ordering::Equal => {
            let a_title: String = lowercased(a.title.as_str());
            match compare_texts(a_title.as_str(), title) {
                Ordering::Greater => true,
                _ => false,
            }
        },
    }
}

fn find_place(albums: &Vec<Album>, album: &Album) -> (k: usize)
    ensures
        k == place_for(albums@, *album, 0),
        k <= albums.len(),
{
    let artist: String = lowercased(album.artist.as_str());
    let title: String = lowercased(album.title.as_str());
    let mut k: usize = 0;
    while k < albums.len()
        invariant
            k <= albums.len(),
            artist@ == lowercase(album.artist@),
            title@ == lowercase(album.title@),
            place_for(albums@, *album, 0) == place_for(albums@, *album, k as int),
        decreases albums.len() - k,
    {
        if is_after(&albums[k], artist.as_str(), title.as_str(), Ghost(*album)) {
            return k;
        }
        k = k + 1;
    }
    k
}

fn contains(ids: &Vec<u64>, id: u64) -> (r: bool)
    ensures
        r == ids@.contains(id),
{
    let mut k: usize = 0;
    while k < ids.len()
        invariant
            k <= ids.len(),
            forall|l: int| 0 <= l < k ==> ids@[l] != id,
        decreases ids.len() - k,
    {
        if ids[k] == id {
            assert(ids@[k as int] == id);
            return true;
        }
        k = k + 1;
    }
    false
}

/// An album among the first `n` with the given id takes the art.
spec fn accepted_upto(albums: Seq<Album>, ids: Seq<u64>, art: CoverArt, id: u64, n: int) -> bool {
    exists|k: int| 0 <= k < n && (#[trigger] albums[k]).id == id && takes_art(albums[k], ids, art)
}

/// The ids of the albums that take the art.
fn accepted_ids(albums: &Vec<Album>, ids: &Vec<u64>, art: &CoverArt) -> (accepted: Vec<u64>)
    ensures
        forall|id: u64| #[trigger] accepted@.contains(id) <==> is_accepted(albums@, ids@, *art, id),
        accepted.len() > 0 <==> any_accepted(albums@, ids@, *art),
{
    let mut accepted: Vec<u64> = Vec::new();
    let mut k: usize = 0;
    while k < albums.len()
        invariant
            k <= albums.len(),
            forall|l: int|
                0 <= l < k && takes_art(#[trigger] albums@[l], ids@, *art) ==> accepted@.contains(albums@[l].id),
            forall|m: int|
                0 <= m < accepted.len() ==> accepted_upto(
                    albums@,
                    ids@,
                    *art,
                    #[trigger] accepted@[m],
                    k as int,
                ),
        decreases albums.len() - k,
    {
        let ghost before = accepted@;
        let takes: bool = contains(ids, albums[k].id) && match albums[k].cover_id {
            Some(id) => id == art.id,
            None => false,
        };
        assert(takes == takes_art(albums@[k as int], ids@, *art));
        if takes {
            accepted.push(albums[k].id);
            assert(accepted@[before.len() as int] == albums@[k as int].id);
        }
        assert forall|l: int| 0 <= l < k + 1 && takes_art(#[trigger] albums@[l], ids@, *art) implies accepted@.contains(
            albums@[l].id,
        ) by {
            if l < k {
                let m = choose|m: int| 0 <= m < before.len() && before[m] == albums@[l].id;
                assert(accepted@[m] == albums@[l].id);
            }
        }
        assert forall|m: int| 0 <= m < accepted.len() implies accepted_upto(
            albums@,
            ids@,
            *art,
            #[trigger] accepted@[m],
            k + 1,
        ) by {
            if m < before.len() {
                assert(accepted_upto(albums@, ids@, *art, before[m], k as int));
            } else {
                assert(albums@[k as int].id == accepted@[m]);
            }
        }
        k = k + 1;
    }
    assert forall|id: u64| #[trigger] accepted@.contains(id) implies is_accepted(albums@, ids@, *art, id) by {
        let m = choose|m: int| 0 <= m < accepted.len() && accepted@[m] == id;
        assert(accepted_upto(albums@, ids@, *art, accepted@[m], k as int));
    }
    if accepted.len() > 0 {
        assert(accepted_upto(albums@, ids@, *art, accepted@[0], k as int));
        assert(any_accepted(albums@, ids@, *art));
    }
    accepted
}

impl App {
    /// Takes in an album that a scan reports. Re-scans (and the boot scan reconciling the persisted index)
    /// re-report every album, the overwhelming majority unchanged: that is detected first and the event
    /// dropped on the floor. Thousands arrive in a burst on the main thread, and the rest of the work
    /// (hydration, sorted re-insert, a full filter refresh) would hitch the UI
    /// for a beat on every rescan.
    pub fn report_album(&mut self, album: Album)
        requires
            old(self).wf(),
        ensures
            final(self).wf(),
            match old(self)@.reported(album) {
                None => final(self)@ == old(self)@,
                Some(app) => refreshes(app, final(self)@),
            },
    {
        let ghost report = album;
        let mut album = album;
        match find_album(&self.albums, album.id) {
            Some(ix) => {
                if is_unchanged(&self.albums[ix], &album) {
                    return;
                }
                let known: Album = self.albums.remove(ix);
                // Keep the already-loaded cover art when the cover is unchanged (the scanner
                // skips re-decoding and re-sending it); the accent follows the cover.
                if known.cover_id == album.cover_id {
                    album.cover = known.cover;
                    album.accent = known.accent;
                }
                assert(album == with_cover_of(report, old(self)@.albums[ix as int]));
            },
            None => {},
        }
        self.index_dirty = true;
        // A queue restored from disk carries only paths (placeholder tags, provisional album
        // keys) until the library reports its albums: hydrate matching items by path. Covers
        // not yet decoded follow by album id through the Cover events.
        hydrate_queue(&mut self.queue, &album);
        // Keep the browser sorted; scan order is nondeterministic (directories complete
        // in parallel).
        let ix: usize = find_place(&self.albums, &album);
        self.albums.insert(ix, album);
        assert(self@ == old(self)@.reported(report)->0);
        refresh_filter(self);
    }

    /// Applies cover art that finished loading. Only albums whose current cover choice this art satisfies
    /// take it: an album can outgrow a queued cover mid-scan (see [`ScanEvent::Cover`]), and the stale
    /// decode must not overwrite the winner -- neither on the album nor on its queue items.
    pub fn apply_cover(&mut self, ids: &Vec<u64>, art: &CoverArt) -> (effects: Vec<Effect>)
        requires
            old(self).wf(),
        ensures
            final(self).wf(),
            (Turn { app: final(self)@, effects: asked(effects@) }) == old(self)@.covering(ids@, *art),
    {
        let ghost before = self@;
        let accepted: Vec<u64> = accepted_ids(&self.albums, ids, art);
        let mut effects: Vec<Effect> = nothing();
        if accepted.len() > 0 {
            effects = one(Effect::HoldCover(art.id));
        }
        let mut k: usize = 0;
        while k < self.albums.len()
            invariant
                k <= self.albums.len() == before.albums.len(),
                self.hires.wf(),
                forall|id: u64|
                    #[trigger] accepted@.contains(id) <==> is_accepted(before.albums, ids@, *art, id),
                forall|l: int|
                    0 <= l < k ==> #[trigger] self.albums@[l] == dressed(
                        before.albums[l],
                        before.albums,
                        ids@,
                        *art,
                    ),
                forall|l: int| k <= l < self.albums.len() ==> #[trigger] self.albums@[l] == before.albums[l],
                self.index_dirty == (before.index_dirty || exists|l: int|
                    0 <= l < k && accepted@.contains((#[trigger] before.albums[l]).id)
                        && before.albums[l].accent != Some(art.accent)),
                self@ == (AppView { albums: self.albums@, index_dirty: self.index_dirty, ..before }),
            decreases self.albums.len() - k,
        {
            assert(self.albums@[k as int] == before.albums[k as int]);
            let id: u64 = self.albums[k].id;
            if contains(&accepted, id) {
                assert(is_accepted(before.albums, ids@, *art, id));
                // Freshly computed, so an accent the index got wrong (or an algorithm change)
                // heals on the next index save.
                let news: bool = match self.albums[k].accent {
                    Some(accent) => accent != art.accent,
                    None => true,
                };
                if news {
                    self.index_dirty = true;
                }
                dress_album(&mut self.albums, k, art);
            } else {
                assert(!is_accepted(before.albums, ids@, *art, id));
            }
            k = k + 1;
        }
        assert(self.albums@ =~= before.covered(ids@, *art).albums);
        assert(self.index_dirty == before.covered(ids@, *art).index_dirty) by {
            if is_news(before.albums, ids@, *art) {
                let l = choose|l: int|
                    0 <= l < before.albums.len() && is_accepted(
                        before.albums,
                        ids@,
                        *art,
                        (#[trigger] before.albums[l]).id,
                    ) && before.albums[l].accent != Some(art.accent);
                assert(accepted@.contains(before.albums[l].id));
            }
        }
        let mut k: usize = 0;
        while k < self.queue.len()
            invariant
                k <= self.queue.len() == before.queue.len(),
                self.hires.wf(),
                forall|id: u64|
                    #[trigger] accepted@.contains(id) <==> is_accepted(before.albums, ids@, *art, id),
                forall|l: int|
                    0 <= l < k ==> #[trigger] self.queue@[l] == dressed_item(
                        before.queue[l],
                        before.albums,
                        ids@,
                        *art,
                    ),
                forall|l: int| k <= l < self.queue.len() ==> #[trigger] self.queue@[l] == before.queue[l],
                self@ == (AppView {
                    albums: before.covered(ids@, *art).albums,
                    index_dirty: before.covered(ids@, *art).index_dirty,
                    queue: self.queue@,
                    ..before
                }),
            decreases self.queue.len() - k,
        {
            assert(self.queue@[k as int] == before.queue[k as int]);
            let id: u64 = self.queue[k].album_id;
            if contains(&accepted, id) {
                assert(is_accepted(before.albums, ids@, *art, id));
                dress_item(&mut self.queue, k, art);
            } else {
                assert(!is_accepted(before.albums, ids@, *art, id));
            }
            k = k + 1;
        }
        assert(self.queue@ =~= before.covered(ids@, *art).queue);
        assert(self@ == before.covered(ids@, *art));
        proof {
            lemma_covered_is_fresh(before, ids@, *art);
        }
        // The playing track's cover art may just have arrived -- notably right after boot,
        // when a restored queue's covers all hydrate through the scan. Re-publish it, and
        // (re)fill the cover flow's high-res window that TrackStarted found coverless.
        if self.current < self.queue.len() {
            assert(self.queue@[self.current as int].album_id == before.queue[self.current as int].album_id);
            let id: u64 = self.queue[self.current].album_id;
            if contains(&accepted, id) {
                assert(is_accepted(before.albums, ids@, *art, id));
                let published: Effect = self.publish_media();
                extend(&mut effects, one(published));
                let more: Vec<Effect> = self.ensure_hires();
                extend(&mut effects, more);
                assert(asked(effects@) =~= before.covering(ids@, *art).effects);
                return effects;
            }
            assert(!is_accepted(before.albums, ids@, *art, id));
        }
        effects
    }
}

fn dress_album(albums: &mut Vec<Album>, k: usize, art: &CoverArt)
    requires
        k < old(albums).len(),
    ensures
        final(albums)@ == old(albums)@.update(
            k as int,
            Album { cover: Some(*art), accent: Some(art.accent), ..old(albums)@[k as int] },
        ),
{
    let mut album: Album = albums.remove(k);
    album.cover = Some(art.copy());
    album.accent = Some(art.accent);
    albums.insert(k, album);
    assert(albums@ =~= old(albums)@.update(k as int, album));
}

fn dress_item(queue: &mut Vec<QueueItem>, k: usize, art: &CoverArt)
    requires
        k < old(queue).len(),
    ensures
        final(queue)@ == old(queue)@.update(
            k as int,
            QueueItem { cover: Some(*art), accent: Some(art.accent), ..old(queue)@[k as int] },
        ),
{
    let mut item: QueueItem = queue.remove(k);
    item.cover = Some(art.copy());
    item.accent = Some(art.accent);
    queue.insert(k, item);
    assert(queue@ =~= old(queue)@.update(k as int, item));
}

proof fn lemma_covered_is_fresh(app: AppView, ids: Seq<u64>, art: CoverArt)
    requires
        app.is_fresh(),
    ensures
        app.covered(ids, art).is_fresh(),
{
    let albums = app.albums;
    let after = app.covered(ids, art).albums;
    assert forall|k: int| 0 <= k < albums.len() implies {
        let a = #[trigger] after[k];
        let b = albums[k];
        a.id == b.id && a.title == b.title && a.artist == b.artist && a.genre == b.genre && a.year == b.year
    } by {}
    crate::browse::lemma_same_albums_show_the_same(app.filtered, albums, after, app.filter, app.sort);
}

/// Adds the ids of the covers that a library shows to `ids`.
fn album_covers(albums: &Vec<Album>, ids: &mut Vec<u64>)
    ensures
        forall|id: u64|
            #[trigger] final(ids)@.contains(id) <==> old(ids)@.contains(id) || album_shows(albums@, id),
{
    let ghost start = ids@;
    let mut k: usize = 0;
    while k < albums.len()
        invariant
            k <= albums.len(),
            forall|id: u64|
                #[trigger] ids@.contains(id) <==> start.contains(id) || album_shows(albums@.take(k as int), id),
        decreases albums.len() - k,
    {
        let ghost before = ids@;
        if let Some(art) = &albums[k].cover {
            ids.push(art.id);
        }
        proof {
            let first = albums@.take(k as int);
            let upto = albums@.take(k + 1);
            assert forall|id: u64| #[trigger] ids@.contains(id) <==> start.contains(id) || album_shows(upto, id) by {
                lemma_contains_pushed(before, ids@, id);
                assert(before.contains(id) <==> start.contains(id) || album_shows(first, id));
                if album_shows(first, id) {
                    let l = choose|l: int|
                        0 <= l < first.len() && (#[trigger] first[l]).cover is Some && first[l].cover->0.id == id;
                    assert(upto[l] == first[l]);
                }
                if album_shows(upto, id) {
                    let l = choose|l: int|
                        0 <= l < upto.len() && (#[trigger] upto[l]).cover is Some && upto[l].cover->0.id == id;
                    if l < k {
                        assert(first[l] == upto[l]);
                    }
                }
                assert(upto[k as int] == albums@[k as int]);
            }
        }
        k = k + 1;
    }
    assert(albums@.take(k as int) =~= albums@);
}

/// Adds the ids of the covers that a queue shows to `ids`.
fn item_covers(queue: &Vec<QueueItem>, ids: &mut Vec<u64>)
    ensures
        forall|id: u64|
            #[trigger] final(ids)@.contains(id) <==> old(ids)@.contains(id) || item_shows(queue@, id),
{
    let ghost start = ids@;
    let mut k: usize = 0;
    while k < queue.len()
        invariant
            k <= queue.len(),
            forall|id: u64|
                #[trigger] ids@.contains(id) <==> start.contains(id) || item_shows(queue@.take(k as int), id),
        decreases queue.len() - k,
    {
        let ghost before = ids@;
        if let Some(art) = &queue[k].cover {
            ids.push(art.id);
        }
        proof {
            let first = queue@.take(k as int);
            let upto = queue@.take(k + 1);
            assert forall|id: u64| #[trigger] ids@.contains(id) <==> start.contains(id) || item_shows(upto, id) by {
                lemma_contains_pushed(before, ids@, id);
                assert(before.contains(id) <==> start.contains(id) || item_shows(first, id));
                if item_shows(first, id) {
                    let l = choose|l: int|
                        0 <= l < first.len() && (#[trigger] first[l]).cover is Some && first[l].cover->0.id == id;
                    assert(upto[l] == first[l]);
                }
                if item_shows(upto, id) {
                    let l = choose|l: int|
                        0 <= l < upto.len() && (#[trigger] upto[l]).cover is Some && upto[l].cover->0.id == id;
                    if l < k {
                        assert(first[l] == upto[l]);
                    }
                }
                assert(upto[k as int] == queue@[k as int]);
            }
        }
        k = k + 1;
    }
    assert(queue@.take(k as int) =~= queue@);
}

proof fn lemma_contains_pushed(before: Seq<u64>, after: Seq<u64>, id: u64)
    requires
        after == before || (after.len() > 0 && after == before.push(after.last())),
    ensures
        after.contains(id) <==> before.contains(id) || (after != before && after.last() == id),
{
    if after != before {
        let last = after.last();
        vstd::seq_lib::lemma_seq_contains_after_push(before, last, id);
        assert(after =~= before.push(last));
    }
}

/// The albums that a scan still found.
fn retained(albums: Vec<Album>, ids: &Vec<u64>) -> (left: Vec<Album>)
    ensures
        left@ == still_there(albums@, ids@),
{
    let ghost all = albums@;
    let mut rest = albums;
    // Turned over, so that they come off in their order.
    let mut turned: Vec<Album> = Vec::new();
    while rest.len() > 0
        invariant
            rest@ == all.take(rest.len() as int),
            rest.len() <= all.len(),
            turned.len() == all.len() - rest.len(),
            forall|k: int| 0 <= k < turned.len() ==> #[trigger] turned@[k] == all[all.len() - 1 - k],
        decreases rest.len(),
    {
        if let Some(album) = rest.pop() {
            turned.push(album);
        }
        assert(rest@ =~= all.take(rest.len() as int));
    }
    let mut left: Vec<Album> = Vec::new();
    assert(all.take(0) =~= Seq::empty());
    while turned.len() > 0
        invariant
            turned.len() <= all.len(),
            forall|k: int| 0 <= k < turned.len() ==> #[trigger] turned@[k] == all[all.len() - 1 - k],
            left@ == still_there(all.take(all.len() - turned.len()), ids@),
        decreases turned.len(),
    {
        let ghost n = all.len() - turned.len();
        assert(all.take(n + 1).drop_last() =~= all.take(n));
        if let Some(album) = turned.pop() {
            assert(album == all[n]);
            if contains(ids, album.id) {
                left.push(album);
            }
        }
    }
    assert(all.take(all.len() as int) =~= all);
    left
}

impl App {
    /// The scan is complete: what is gone leaves the library, covers nothing shows any more are retired,
    /// and the settled album list is persisted for the next launch's instant grid -- only when this
    /// scan actually changed something, so the quiet periodic rescans don't churn the disk.
    pub fn finish_scan(&mut self, album_ids: &Vec<u64>) -> (effects: Vec<Effect>)
        requires
            old(self).wf(),
        ensures
            final(self).wf(),
            old(self)@.done(album_ids@, Turn { app: final(self)@, effects: asked(effects@) }),
    {
        let before: usize = self.albums.len();
        let mut albums: Vec<Album> = Vec::new();
        std::mem::swap(&mut albums, &mut self.albums);
        self.albums = retained(albums, album_ids);
        if self.albums.len() != before {
            self.index_dirty = true;
        }
        self.scan = ScanState::Complete;
        assert(self@ == old(self)@.scanned(album_ids@));
        // Retire the covers nothing shows any more: an album gone from the library,
        // or one whose artwork was replaced. The queue counts as a holder -- it outlives the
        // albums it was filled from.
        let mut live: Vec<u64> = Vec::new();
        album_covers(&self.albums, &mut live);
        item_covers(&self.queue, &mut live);
        assert(live@.to_set() =~= Set::new(
            |id: u64| album_shows(self@.albums, id) || item_shows(self@.queue, id),
        )) by {
            assert forall|id: u64| live@.to_set().contains(id) <==> album_shows(self@.albums, id) || item_shows(
                self@.queue,
                id,
            ) by {
                assert(live@.to_set().contains(id) <==> live@.contains(id));
            }
        }
        let mut effects: Vec<Effect> = one(Effect::RetireCovers { live });
        if self.index_dirty {
            self.index_dirty = false;
            extend(&mut effects, one(Effect::SaveIndex));
        }
        assert(asked(effects@) =~= if old(self)@.scanned(album_ids@).index_dirty {
            seq![EffectView::RetireCovers { live: live@.to_set() }].push(EffectView::SaveIndex)
        } else {
            seq![EffectView::RetireCovers { live: live@.to_set() }]
        });
        refresh_filter(self);
        effects
    }

    /// Options for a periodic re-scan: skip re-decoding all the cover art already held. No cover
    /// priority -- the covers that matter are long loaded by now.
    pub fn rescan_options(&self) -> (options: ScanOptions)
        ensures
            options@ == self@.rescanning(),
    {
        let mut known_covers: Vec<u64> = Vec::new();
        album_covers(&self.albums, &mut known_covers);
        let options = ScanOptions {
            root: self.places.music_dir.clone(),
            priority: Vec::new(),
            known_covers,
            cache_file: copy_opt(&self.places.cache_file),
            covers_dir: copy_opt(&self.places.covers_dir),
        };
        assert forall|id: u64| options@.known_covers.contains(id) <==> album_shows(self@.albums, id) by {
            assert(options@.known_covers.contains(id) <==> known_covers@.contains(id));
        }
        assert(options@.known_covers =~= self@.rescanning().known_covers);
        assert(options@.priority =~= Seq::empty());
        options
    }

    /// Takes note of an event of the engine.
    pub fn notify(&mut self, event: Event<Nanos>) -> (effects: Vec<Effect>)
        requires
            old(self).wf(),
        ensures
            final(self).wf(),
            (Turn { app: final(self)@, effects: asked(effects@) }) == old(self)@.notified(event),
    {
        match event {
            Event::TrackStarted { ix, len } => {
                self.current = ix;
                self.len = len;
                self.pos = 0;
                // A new track invalidates any seek still settling against the old one.
                self.pending_seek = None;
                // A new album (re)starts the glow/cover-flow animation after a possibly long
                // idle stretch; reset the frame clock so the first frame's dt is one frame, not
                // the whole idle gap (which would jump the animation far in a single step).
                let mut effects: Vec<Effect> = one(Effect::ResetClock);
                let published: Effect = self.publish_media();
                extend(&mut effects, one(published));
                // The playing album moved: ensure the cover flow's high-res window around it, and
                // remember the new position for the next restore.
                let more: Vec<Effect> = self.ensure_hires();
                extend(&mut effects, more);
                let saved: Effect = self.save_player();
                extend(&mut effects, one(saved));
                assert(asked(effects@) =~= old(self)@.notified(event).effects);
                effects
            },
            Event::Progress(t) => {
                // While a seek is settling, ignore reports until playback reaches (roughly) the
                // requested position: earlier reports still in flight would otherwise yank the
                // optimistically-placed bar back to where playback was before the seek.
                if let Some(target) = self.pending_seek {
                    let apart: u64 = if t >= target {
                        t - target
                    } else {
                        target - t
                    };
                    if apart > SEEK_SETTLE {
                        return nothing();
                    }
                }
                self.pending_seek = None;
                self.pos = t;
                // Publish freely -- the media worker coalesces a burst down to the latest, so the
                // position stream doubles as the heartbeat that flushes a pending track change.
                one(self.publish_media())
            },
            Event::PlayState(state) => {
                self.play_state = state;
                one(self.publish_media())
            },
            Event::QueueEnded => {
                self.play_state = PlayState::Paused;
                // The queue may have ended through a skip: rest the bar at the end rather than
                // wherever the last track happened to be.
                self.pos = match self.len {
                    Some(len) => len,
                    None => 0,
                };
                self.pending_seek = None;
                // Report Stopped to the OS (the bar still shows the last track, but nothing plays).
                one(Effect::Publish(Snapshot { meta: None, state: Playback::Stopped, position: self.pos }))
            },
        }
    }

    /// Does what the OS requests.
    pub fn control(&mut self, control: Control) -> (effects: Vec<Effect>)
        requires
            old(self).wf(),
        ensures
            final(self).wf(),
            (Turn { app: final(self)@, effects: asked(effects@) }) == old(self)@.controlled(control),
    {
        match control {
            Control::Play => match self.play_state {
                PlayState::Paused => send(Cmd::TogglePlayPause),
                PlayState::Playing => nothing(),
            },
            // There is no stopped-with-a-track-open state; pausing is the closest thing.
            Control::Pause | Control::Stop => match self.play_state {
                PlayState::Playing => send(Cmd::TogglePlayPause),
                PlayState::Paused => nothing(),
            },
            Control::Toggle => send(Cmd::TogglePlayPause),
            Control::Next => send(Cmd::Next),
            Control::Prev => send(Cmd::Prev),
            Control::Seek(offset) => self.do_seek(as_seek(offset)),
            Control::SetPosition(t) => send(Cmd::Seek(t)),
        }
    }

    /// Shuffles the queue in place, visibly, by the given seed: the reordering IS the new playlist
    /// (persisted like any
    /// other queue change, so a restart resumes the same order), and the cover flow snaps to the
    /// cursor's new position rather than sweeping. See [`Scope`] for what moves and what keeps
    /// playing: Alt+s/Alt+z shuffle the others, Ctrl+s/Ctrl+z everything -- always, regardless of
    /// playback state.
    pub fn shuffle_with(&mut self, grouping: Grouping, scope: Scope, seed: u64) -> (effects: Vec<Effect>)
        requires
            old(self).wf(),
        ensures
            final(self).wf(),
            (Turn { app: final(self)@, effects: asked(effects@) }) == old(self)@.shuffling(grouping, scope, seed),
    {
        if self.queue.len() == 0 {
            return nothing();
        }
        // Shuffling from the actions menu: the action dismisses it.
        if let Some(Modal::Actions) = &self.modal {
            self.modal = None;
        }
        let ghost ids = self.queue@.map_values(|item: QueueItem| item.album_id);
        let mut albums: Vec<u64> = Vec::new();
        while albums.len() < self.queue.len()
            invariant
                albums.len() <= self.queue.len(),
                ids == self.queue@.map_values(|item: QueueItem| item.album_id),
                albums@ == ids.take(albums.len() as int),
            decreases self.queue.len() - albums.len(),
        {
            albums.push(self.queue[albums.len()].album_id);
            assert(albums@ =~= ids.take(albums.len() as int));
        }
        assert(albums@ =~= ids);
        let order: Vec<usize> = crate::queue::shuffle(albums.as_slice(), self.current, grouping, scope, seed);
        proof {
            crate::queue::law_shuffle_is_a_permutation(ids, self.current, grouping, scope, seed);
            assert forall|k: int| 0 <= k < order.len() implies (#[trigger] order@[k]) < self.queue.len() by {
                assert(order@.contains(order@[k]));
            }
        }
        let mut queue: Vec<QueueItem> = Vec::new();
        while queue.len() < order.len()
            invariant
                queue.len() <= order.len(),
                forall|k: int| 0 <= k < order.len() ==> (#[trigger] order@[k]) < self.queue.len(),
                queue@ == self@.reordered(order@).take(queue.len() as int),
            decreases order.len() - queue.len(),
        {
            let k: usize = queue.len();
            assert(order@[k as int] < self.queue.len());
            queue.push(self.queue[order[k]].copy());
            assert(queue@ =~= self@.reordered(order@).take(queue.len() as int));
        }
        assert(queue@ =~= self@.reordered(order@));
        let tracks = entries(&queue);
        let cmd: Cmd = match scope {
            // The engine is handed the same tracks in the new order and only the cursor follows the
            // playing track (see `Cmd::Reorder`).
            Scope::Others => {
                self.current = find_slot(&order, self.current);
                Cmd::Reorder { tracks, current: self.current }
            },
            // A fresh start: the new first track opens paused, ready to play.
            Scope::All => {
                self.current = 0;
                Cmd::SetQueue { tracks, start: 0, play: PlayState::Paused }
            },
        };
        self.queue = queue;
        let mut effects: Vec<Effect> = Vec::new();
        effects.push(Effect::Send(cmd));
        effects.push(Effect::FlowTo(flow_target(self)));
        effects.push(self.save_playlist());
        effects.push(self.save_player());
        assert(self@ == old(self)@.shuffling(grouping, scope, seed).app);
        assert(asked(effects@) =~= old(self)@.shuffling(grouping, scope, seed).effects);
        effects
    }

    /// Shuffles the queue (see [`App::shuffle_with`]), by a seed from the clock.
    pub fn shuffle_queue(&mut self, grouping: Grouping, scope: Scope) -> (effects: Vec<Effect>)
        requires
            old(self).wf(),
        ensures
            final(self).wf(),
            old(self)@.shuffled_somehow(grouping, scope, Turn { app: final(self)@, effects: asked(effects@) }),
    {
        let seed: u64 = crate::queue::seed();
        self.shuffle_with(grouping, scope, seed)
    }

    /// The items of all the albums that the grid shows, in its order.
    fn all_items(&self) -> (items: Vec<QueueItem>)
        requires
            self.wf(),
        ensures
            items@ == shown_items(self@.albums, self@.filtered, self@.filtered.len() as int),
    {
        let mut items: Vec<QueueItem> = Vec::new();
        let mut k: usize = 0;
        while k < self.filtered.len()
            invariant
                k <= self.filtered.len(),
                self.wf(),
                items@ == shown_items(self@.albums, self@.filtered, k as int),
            decreases self.filtered.len() - k,
        {
            assert(self.filtered@[k as int] < self.albums@.len());
            let mut more: Vec<QueueItem> = queue_items(&self.albums[self.filtered[k]]);
            items.append(&mut more);
            k = k + 1;
        }
        items
    }

    fn scroll(&self, up: i64, left: i64) -> (effects: Vec<Effect>)
        ensures
            (Turn { app: self@, effects: asked(effects@) }) == self@.scrolled(up, left),
    {
        let mut effects: Vec<Effect> = nothing();
        // Scrolling up moves the selection towards the queue's start, like a list. Jumps
        // rather than the transport commands: Cmd::Prev restarts the track when far enough
        // in, and Cmd::Next past the last track would end the queue -- a selection clamps.
        if up != 0 && self.queue.len() > 0 {
            let target: i128 = self.current as i128 - up as i128;
            let target: usize = if target < 0 {
                0
            } else if target >= self.queue.len() as i128 {
                self.queue.len() - 1
            } else {
                target as usize
            };
            if target != self.current {
                effects = send(Cmd::JumpTo(target));
            }
        }
        if left > 0 {
            extend(&mut effects, self.prev_album());
        } else if left < 0 {
            extend(&mut effects, self.next_album());
        }
        assert(asked(effects@) =~= self@.scrolled(up, left).effects);
        effects
    }

    fn click(&self, ix: usize) -> (effects: Vec<Effect>)
        ensures
            (Turn { app: self@, effects: asked(effects@) }) == self@.clicked(ix),
    {
        let runs: Vec<Range<usize>> = album_runs(&self.queue);
        if ix == run_of(&runs, self.current) {
            send(Cmd::TogglePlayPause)
        } else if ix < runs.len() {
            send(Cmd::JumpTo(runs[ix].start))
        } else {
            nothing()
        }
    }

    /// The filter inputs, in bar order; Tab walks this ring. The current stop is read from
    /// the open modal (or the focused search field, when none is up).
    fn cycle_input(&mut self, backwards: bool) -> (effects: Vec<Effect>)
        requires
            old(self).wf(),
        ensures
            final(self).wf(),
            old(self)@.input_cycled(backwards, Turn { app: final(self)@, effects: asked(effects@) }),
    {
        let current: usize = match &self.modal {
            Some(Modal::Sort(_)) => 0,
            Some(Modal::Picker(picker)) => match picker.subject {
                PickerSubject::Genre => 1,
                PickerSubject::Artist => 2,
            },
            _ => 3,
        };
        let next: usize = if backwards {
            (current + 3) % 4
        } else {
            (current + 1) % 4
        };
        if next == 0 {
            self.open_sort()
        } else if next == 1 {
            self.open_picker(PickerSubject::Genre)
        } else if next == 2 {
            self.open_picker(PickerSubject::Artist)
        } else {
            self.modal = None;
            one(Effect::FocusSearch)
        }
    }
}

fn as_seek(micros: i64) -> (seek: Seek)
    ensures
        seek == seek_of(micros),
{
    let size: u64 = if micros >= 0 {
        micros as u64
    } else {
        (-(micros as i128)) as u64
    };
    let dt: u64 = match size.checked_mul(1000) {
        Some(dt) => dt,
        None => u64::MAX,
    };
    if micros >= 0 {
        Seek::By(SeekDir::Forward, dt)
    } else {
        Seek::By(SeekDir::Backward, dt)
    }
}

fn find_slot(order: &Vec<usize>, slot: usize) -> (k: usize)
    ensures
        k == slot_in(order@, slot, 0),
{
    let mut k: usize = 0;
    while k < order.len()
        invariant
            k <= order.len(),
            slot_in(order@, slot, 0) == slot_in(order@, slot, k as int),
        decreases order.len() - k,
    {
        if order[k] == slot {
            return k;
        }
        k = k + 1;
    }
    0
}

/// What a message is about.
#[derive(Debug, Clone, Copy, PartialEq, Eq, Structural)]
pub enum Topic {
    /// A scan of the library.
    Scan,
    /// The library and its grid.
    Browse,
    /// The filter's inputs.
    Pick,
    /// The menus.
    Menu,
    /// The queue as a whole.
    Queue,
    /// Playback.
    Transport,
}

/// What a message is about.
pub open spec fn topic_of(msg: Msg) -> Topic {
    match msg {
        Msg::Library(_) => Topic::Scan,
        Msg::Rescan => Topic::Scan,
        Msg::Show(_) => Topic::Browse,
        Msg::Zoom(_) => Topic::Browse,
        Msg::PlayAlbum(_) => Topic::Browse,
        Msg::QueueAlbum(_) => Topic::Browse,
        Msg::PreloadAlbum(_) => Topic::Browse,
        Msg::AlbumSelected(_) => Topic::Browse,
        Msg::OpenTrackMenu(_) => Topic::Browse,
        Msg::SearchChanged(_) => Topic::Browse,
        Msg::FocusSearch => Topic::Browse,
        Msg::SearchTyped(_) => Topic::Browse,
        Msg::ClearFilters => Topic::Browse,
        Msg::PlayAll => Topic::Browse,
        Msg::QueueAll => Topic::Browse,
        Msg::TabPressed { .. } => Topic::Browse,
        Msg::OpenPicker(_) => Topic::Pick,
        Msg::CycleFilterInput { .. } => Topic::Pick,
        Msg::PickerQuery(_) => Topic::Pick,
        Msg::PickerMove(_) => Topic::Pick,
        Msg::PickerHover(_) => Topic::Pick,
        Msg::PickerChoose(_) => Topic::Pick,
        Msg::PickerPick => Topic::Pick,
        Msg::OpenSort => Topic::Pick,
        Msg::SortMove(_) => Topic::Pick,
        Msg::SortHover(_) => Topic::Pick,
        Msg::SortChoose(_) => Topic::Pick,
        Msg::SortPick => Topic::Pick,
        Msg::OpenActionsMenu => Topic::Menu,
        Msg::CloseModal => Topic::Menu,
        Msg::MenuMove(_) => Topic::Menu,
        Msg::MenuHover(_) => Topic::Menu,
        Msg::MenuQueue => Topic::Menu,
        Msg::MenuPlay => Topic::Menu,
        Msg::PlayTrack { .. } => Topic::Menu,
        Msg::QueueTrack { .. } => Topic::Menu,
        Msg::CycleRepeat => Topic::Queue,
        Msg::Shuffle { .. } => Topic::Queue,
        Msg::RestAt(_) => Topic::Queue,
        Msg::ClearQueue => Topic::Queue,
        Msg::Player(_) => Topic::Transport,
        Msg::Media(_) => Topic::Transport,
        Msg::Toggle => Topic::Transport,
        Msg::Next { .. } => Topic::Transport,
        Msg::Prev => Topic::Transport,
        Msg::PrevOrRestart { .. } => Topic::Transport,
        Msg::PrevAlbum => Topic::Transport,
        Msg::NextAlbum => Topic::Transport,
        Msg::CoverClicked(_) => Topic::Transport,
        Msg::PlayerScrolled { .. } => Topic::Transport,
        Msg::BumpVolume(_) => Topic::Transport,
        Msg::SeekReleased(_) => Topic::Transport,
        Msg::Seek(_) => Topic::Transport,
        Msg::HiResLoaded { .. } => Topic::Transport,
    }
}

fn topic(msg: &Msg) -> (topic: Topic)
    ensures
        topic == topic_of(*msg),
{
    match msg {
        Msg::Library(_) => Topic::Scan,
        Msg::Rescan => Topic::Scan,
        Msg::Show(_) => Topic::Browse,
        Msg::Zoom(_) => Topic::Browse,
        Msg::PlayAlbum(_) => Topic::Browse,
        Msg::QueueAlbum(_) => Topic::Browse,
        Msg::PreloadAlbum(_) => Topic::Browse,
        Msg::AlbumSelected(_) => Topic::Browse,
        Msg::OpenTrackMenu(_) => Topic::Browse,
        Msg::SearchChanged(_) => Topic::Browse,
        Msg::FocusSearch => Topic::Browse,
        Msg::SearchTyped(_) => Topic::Browse,
        Msg::ClearFilters => Topic::Browse,
        Msg::PlayAll => Topic::Browse,
        Msg::QueueAll => Topic::Browse,
        Msg::TabPressed { .. } => Topic::Browse,
        Msg::OpenPicker(_) => Topic::Pick,
        Msg::CycleFilterInput { .. } => Topic::Pick,
        Msg::PickerQuery(_) => Topic::Pick,
        Msg::PickerMove(_) => Topic::Pick,
        Msg::PickerHover(_) => Topic::Pick,
        Msg::PickerChoose(_) => Topic::Pick,
        Msg::PickerPick => Topic::Pick,
        Msg::OpenSort => Topic::Pick,
        Msg::SortMove(_) => Topic::Pick,
        Msg::SortHover(_) => Topic::Pick,
        Msg::SortChoose(_) => Topic::Pick,
        Msg::SortPick => Topic::Pick,
        Msg::OpenActionsMenu => Topic::Menu,
        Msg::CloseModal => Topic::Menu,
        Msg::MenuMove(_) => Topic::Menu,
        Msg::MenuHover(_) => Topic::Menu,
        Msg::MenuQueue => Topic::Menu,
        Msg::MenuPlay => Topic::Menu,
        Msg::PlayTrack { .. } => Topic::Menu,
        Msg::QueueTrack { .. } => Topic::Menu,
        Msg::CycleRepeat => Topic::Queue,
        Msg::Shuffle { .. } => Topic::Queue,
        Msg::RestAt(_) => Topic::Queue,
        Msg::ClearQueue => Topic::Queue,
        Msg::Player(_) => Topic::Transport,
        Msg::Media(_) => Topic::Transport,
        Msg::Toggle => Topic::Transport,
        Msg::Next { .. } => Topic::Transport,
        Msg::Prev => Topic::Transport,
        Msg::PrevOrRestart { .. } => Topic::Transport,
        Msg::PrevAlbum => Topic::Transport,
        Msg::NextAlbum => Topic::Transport,
        Msg::CoverClicked(_) => Topic::Transport,
        Msg::PlayerScrolled { .. } => Topic::Transport,
        Msg::BumpVolume(_) => Topic::Transport,
        Msg::SeekReleased(_) => Topic::Transport,
        Msg::Seek(_) => Topic::Transport,
        Msg::HiResLoaded { .. } => Topic::Transport,
    }
}

/// What a message about a scan of the library makes of the model, and what the model then asks for.
#[verifier::opaque]
pub open spec fn scan_turns(app: AppView, msg: Msg, turn: Turn) -> bool {
    match msg {
        Msg::Library(ScanEvent::Album(album)) => {
            &&& turn.effects == Seq::<EffectView>::empty()
            &&& match app.reported(album) {
                None => turn.app == app,
                Some(after) => refreshes(after, turn.app),
            }
        },
        Msg::Library(ScanEvent::Cover { albums, art }) => turn == app.covering(albums@, art),
        Msg::Library(ScanEvent::Done { album_ids }) => app.done(album_ids@, turn),
        Msg::Rescan => match app.scan {
            // The running scan will pick changes up anyway.
            ScanState::Scanning => turn == app.still(),
            ScanState::Complete => turn == (AppView { scan: ScanState::Scanning, ..app }).asking(
                EffectView::Scan(app.rescanning()),
            ),
        },
        _ => false,
    }
}

/// What a message about the library and its grid makes of the model, and what the model then asks for.
#[verifier::opaque]
pub open spec fn browse_turns(app: AppView, msg: Msg, turn: Turn) -> bool {
    match msg {
        Msg::Show(screen) => turn == (AppView { screen, ..app }).still(),
        Msg::Zoom(zoom) => turn == app.asking(EffectView::Zoom(zoom)),
        Msg::PlayAlbum(cell) => match app.album_at(cell) {
            Some(ix) => turn == app.playing(items_of(app.albums[ix])),
            None => turn == app.still(),
        },
        Msg::QueueAlbum(cell) => match app.album_at(cell) {
            Some(ix) => turn == app.queueing(items_of(app.albums[ix])),
            None => turn == app.still(),
        },
        Msg::PreloadAlbum(cell) => match app.album_at(cell) {
            Some(ix) => turn == app.preloading(ix),
            None => turn == app.still(),
        },
        Msg::AlbumSelected(selected) => turn == (AppView { selected, ..app }).still(),
        Msg::OpenTrackMenu(cell) => match app.album_at(cell) {
            Some(ix) => turn == (AppView {
                modal: Some(ModalView::Tracks(TrackMenu { album: ix as usize, selected: 0 })),
                ..app
            }).preloading(ix),
            None => turn == app.still(),
        },
        Msg::SearchChanged(search) => {
            &&& turn.effects == Seq::<EffectView>::empty()
            &&& refreshes(
                AppView { filter: FilterView { search: search@, ..app.filter }, selected: None, ..app },
                turn.app,
            )
        },
        Msg::FocusSearch => turn == (AppView { screen: Screen::Library, ..app }).asking(EffectView::FocusSearch),
        Msg::SearchTyped(c) => {
            &&& turn.effects == seq![EffectView::FocusSearch]
            &&& refreshes(
                AppView {
                    filter: FilterView { search: app.filter.search + c@, ..app.filter },
                    selected: None,
                    ..app
                },
                turn.app,
            )
        },
        Msg::ClearFilters => {
            &&& turn.effects == seq![EffectView::Unfocus]
            &&& refreshes(
                AppView {
                    modal: match app.modal {
                        Some(ModalView::Picker(_)) => None,
                        Some(ModalView::Sort(_)) => None,
                        other => other,
                    },
                    filter: no_filter(),
                    selected: None,
                    ..app
                },
                turn.app,
            )
        },
        Msg::PlayAll => {
            let items = shown_items(app.albums, app.filtered, app.filtered.len() as int);
            turn == if items.len() > 0 {
                app.playing(items)
            } else {
                app.still()
            }
        },
        Msg::QueueAll => {
            let items = shown_items(app.albums, app.filtered, app.filtered.len() as int);
            turn == if items.len() > 0 {
                app.queueing(items)
            } else {
                app.still()
            }
        },
        Msg::TabPressed { backwards } => turn == app.asking(
            EffectView::AskFocus { backwards, otherwise: app.screen.other() },
        ),
        _ => false,
    }
}

/// What a message about the filter's inputs makes of the model, and what the model then asks for.
#[verifier::opaque]
pub open spec fn picker_turns(app: AppView, msg: Msg, turn: Turn) -> bool {
    match msg {
        Msg::OpenPicker(subject) => app.picker_opened(subject, turn),
        Msg::CycleFilterInput { backwards } => app.input_cycled(backwards, turn),
        Msg::PickerQuery(query) => app.query_changed(query@, turn),
        Msg::PickerMove(dir) => turn == app.picker_stepped(dir),
        Msg::PickerHover(slot) => turn == (AppView {
            modal: match app.modal {
                Some(ModalView::Picker(picker)) => Some(
                    ModalView::Picker(PickerView { selected: slot, ..picker }),
                ),
                other => other,
            },
            ..app
        }).still(),
        Msg::PickerChoose(slot) => app.filter_picked(slot, turn),
        Msg::PickerPick => match app.modal {
            Some(ModalView::Picker(picker)) => app.filter_picked(picker.selected, turn),
            _ => turn == app.still(),
        },
        Msg::OpenSort => turn == app.sort_opened(),
        Msg::SortMove(dir) => turn == app.sort_stepped(dir),
        Msg::SortHover(slot) => turn == (AppView {
            modal: match app.modal {
                Some(ModalView::Sort(_)) => Some(ModalView::Sort(SortMenu { selected: slot })),
                other => other,
            },
            ..app
        }).still(),
        Msg::SortChoose(slot) => app.sort_picked(slot, turn),
        Msg::SortPick => match app.modal {
            Some(ModalView::Sort(menu)) => app.sort_picked(menu.selected, turn),
            _ => turn == app.still(),
        },
        _ => false,
    }
}

/// What a message about the menus makes of the model, and what the model then asks for.
#[verifier::opaque]
pub open spec fn menu_turns(app: AppView, msg: Msg, turn: Turn) -> bool {
    match msg {
        Msg::OpenActionsMenu => turn == (AppView { modal: Some(ModalView::Actions), ..app }).still(),
        Msg::CloseModal => turn == (AppView { modal: None, ..app }).still(),
        Msg::MenuMove(dir) => turn == app.menu_stepped(dir),
        Msg::MenuHover(track) => turn == (AppView {
            modal: match app.modal {
                Some(ModalView::Tracks(menu)) => Some(
                    ModalView::Tracks(TrackMenu { album: menu.album, selected: track }),
                ),
                other => other,
            },
            ..app
        }).still(),
        Msg::MenuQueue => match app.modal {
            Some(ModalView::Tracks(menu)) => match app.item_at(menu.album, menu.selected) {
                Some(item) => {
                    let queued = app.queueing(seq![item]);
                    let stepped = queued.app.menu_stepped(MenuDir::Down);
                    turn == (Turn {
                        app: stepped.app,
                        effects: seq![queued.effects[0]] + stepped.effects + seq![queued.effects[1]],
                    })
                },
                None => turn == app.still(),
            },
            _ => turn == app.still(),
        },
        Msg::MenuPlay => match app.modal {
            Some(ModalView::Tracks(menu)) => {
                let closed = AppView { modal: None, ..app };
                match app.item_at(menu.album, menu.selected) {
                    Some(item) => turn == closed.playing(seq![item]),
                    None => turn == closed.still(),
                }
            },
            _ => turn == app.still(),
        },
        Msg::PlayTrack { album, track } => {
            // Playing switches to the player view; the menu has served its purpose.
            let closed = AppView { modal: None, ..app };
            match app.item_at(album, track) {
                Some(item) => turn == closed.playing(seq![item]),
                None => turn == closed.still(),
            }
        },
        // Deliberately keeps the menu open: queueing several tracks in a row is the natural
        // flow, and Escape or a click outside ends it.
        Msg::QueueTrack { album, track } => match app.item_at(album, track) {
            Some(item) => turn == app.queueing(seq![item]),
            None => turn == app.still(),
        },
        _ => false,
    }
}

/// What a message about the queue as a whole makes of the model, and what the model then asks for.
#[verifier::opaque]
pub open spec fn queue_turns(app: AppView, msg: Msg, turn: Turn) -> bool {
    match msg {
        Msg::CycleRepeat => {
            let after = AppView { repeat: app.repeat.next(), ..app };
            turn == (Turn {
                app: after,
                effects: seq![EffectView::Send(CmdView::SetRepeat(after.repeat)), after.player_saved()],
            })
        },
        Msg::Shuffle { grouping, scope } => app.shuffled_somehow(grouping, scope, turn),
        Msg::RestAt(edge) => if app.queue.len() == 0 {
            turn == app.still()
        } else {
            let current = match edge {
                QueueEdge::First => 0,
                QueueEdge::Last => app.queue.len() - 1,
            } as usize;
            let after = AppView { current, ..app };
            turn == (Turn {
                app: after,
                effects: seq![
                    EffectView::FlowTo(after.flow() as usize),
                    EffectView::Send(
                        CmdView::SetQueue {
                            tracks: entries_of(app.queue),
                            start: current,
                            play: PlayState::Paused,
                        },
                    ),
                    after.player_saved(),
                ],
            })
        },
        Msg::ClearQueue => {
            let closed = AppView {
                modal: match app.modal {
                    Some(ModalView::Actions) => None,
                    other => other,
                },
                ..app
            };
            if app.queue.len() == 0 {
                turn == closed.still()
            } else {
                let after = AppView { queue: Seq::empty(), current: 0, ..closed };
                turn == (Turn {
                    app: after,
                    effects: seq![
                        EffectView::FlowTo(0),
                        EffectView::Send(
                            CmdView::SetQueue { tracks: Seq::empty(), start: 0, play: PlayState::Paused },
                        ),
                        after.playlist_saved(),
                        after.player_saved(),
                    ],
                })
            }
        },
        _ => false,
    }
}

/// What a message about playback makes of the model, and what the model then asks for.
#[verifier::opaque]
pub open spec fn transport_turns(app: AppView, msg: Msg, now: Nanos, turn: Turn) -> bool {
    match msg {
        Msg::Player(event) => turn == app.notified(event),
        Msg::Media(control) => turn == app.controlled(control),
        Msg::Toggle => turn == app.sending(CmdView::TogglePlayPause),
        Msg::Next { repeat } => {
            let after = app.skipping(repeat, now);
            turn == if app.may_skip(repeat, now) {
                after.sending(CmdView::Next)
            } else {
                after.still()
            }
        },
        Msg::Prev => turn == app.sending(CmdView::Prev),
        Msg::PrevOrRestart { repeat } => {
            let after = app.skipping(repeat, now);
            turn == if !app.may_skip(repeat, now) {
                after.still()
            } else if app.pos < NEAR_START {
                after.sending(CmdView::Prev)
            } else {
                after.sought(Seek::ToStart)
            }
        },
        Msg::PrevAlbum => turn == (Turn { app, effects: jump(prev_album_of(app.queue, app.current)) }),
        Msg::NextAlbum => turn == (Turn { app, effects: jump(next_album_of(app.queue, app.current)) }),
        Msg::CoverClicked(ix) => turn == app.clicked(ix),
        Msg::PlayerScrolled { up, left } => turn == app.scrolled(up, left),
        Msg::BumpVolume(percent) => turn == app.asking(EffectView::BumpVolume(percent)),
        Msg::SeekReleased(t) => turn == app.sending(CmdView::Seek(t)),
        Msg::Seek(seek) => turn == app.sought(seek),
        Msg::HiResLoaded { id, pixels } => turn == (AppView {
            hires: app.hires.completed(id, pixels),
            ..app
        }).still(),
        _ => false,
    }
}

/// What a message makes of the model, and what the model then asks for.
pub open spec fn turns(app: AppView, msg: Msg, now: Nanos, turn: Turn) -> bool {
    match topic_of(msg) {
        Topic::Scan => scan_turns(app, msg, turn),
        Topic::Browse => browse_turns(app, msg, turn),
        Topic::Pick => picker_turns(app, msg, turn),
        Topic::Menu => menu_turns(app, msg, turn),
        Topic::Queue => queue_turns(app, msg, turn),
        Topic::Transport => transport_turns(app, msg, now, turn),
    }
}

fn scan_update(app: &mut App, msg: Msg) -> (effects: Vec<Effect>)
    requires
        old(app).wf(),
        topic_of(msg) == Topic::Scan,
    ensures
        final(app).wf(),
        scan_turns(old(app)@, msg, Turn { app: final(app)@, effects: asked(effects@) }),
{
    reveal(scan_turns);
    match msg {
        Msg::Library(ScanEvent::Album(album)) => {
            app.report_album(album);
            nothing()
        },
        Msg::Library(ScanEvent::Cover { albums, art }) => app.apply_cover(&albums, &art),
        Msg::Library(ScanEvent::Done { album_ids }) => app.finish_scan(&album_ids),
        Msg::Rescan => match app.scan {
            ScanState::Scanning => nothing(),
            ScanState::Complete => {
                let options: ScanOptions = app.rescan_options();
                app.scan = ScanState::Scanning;
                one(Effect::Scan(options))
            },
        },
        _ => nothing(),
    }
}

fn browse_update(app: &mut App, msg: Msg) -> (effects: Vec<Effect>)
    requires
        old(app).wf(),
        topic_of(msg) == Topic::Browse,
    ensures
        final(app).wf(),
        browse_turns(old(app)@, msg, Turn { app: final(app)@, effects: asked(effects@) }),
{
    reveal(browse_turns);
    match msg {
        Msg::Show(screen) => {
            app.screen = screen;
            nothing()
        },
        Msg::Zoom(zoom) => one(Effect::Zoom(zoom)),
        // Grid messages carry indices into the filtered list: resolve them to real album indices
        // here, at the boundary, so everything downstream (the track menu included) speaks real
        // indices.
        Msg::PlayAlbum(cell) => match app.shown_album(cell) {
            Some(ix) => {
                let items: Vec<QueueItem> = queue_items(&app.albums[ix]);
                app.play_items(items)
            },
            None => nothing(),
        },
        Msg::QueueAlbum(cell) => match app.shown_album(cell) {
            Some(ix) => {
                let items: Vec<QueueItem> = queue_items(&app.albums[ix]);
                app.queue_more(items)
            },
            None => nothing(),
        },
        Msg::PreloadAlbum(cell) => match app.shown_album(cell) {
            Some(ix) => app.preload_cover(ix),
            None => nothing(),
        },
        Msg::AlbumSelected(selected) => {
            app.selected = selected;
            nothing()
        },
        Msg::OpenTrackMenu(cell) => match app.shown_album(cell) {
            Some(ix) => {
                app.modal = Some(Modal::Tracks(TrackMenu { album: ix, selected: 0 }));
                // A play from the menu is likely imminent: warm the album's high-res cover.
                app.preload_cover(ix)
            },
            None => nothing(),
        },
        Msg::SearchChanged(search) => {
            app.filter.search = search;
            // The old selection would silently point at a different album in the new list.
            app.selected = None;
            refresh_filter(app);
            nothing()
        },
        Msg::FocusSearch => {
            app.screen = Screen::Library;
            one(Effect::FocusSearch)
        },
        Msg::SearchTyped(c) => {
            app.filter.search.append(c.as_str());
            app.selected = None;
            refresh_filter(app);
            // Focusing puts the text cursor at the end, right behind the character typed here.
            one(Effect::FocusSearch)
        },
        Msg::ClearFilters => {
            // Clearing the filters dismisses an open filter picker or the sort picker (Ctrl+W).
            let dismiss: bool = match &app.modal {
                Some(Modal::Picker(_)) => true,
                Some(Modal::Sort(_)) => true,
                _ => false,
            };
            if dismiss {
                app.modal = None;
            }
            app.filter = Filter::default();
            app.selected = None;
            refresh_filter(app);
            // Unfocus whatever filter input held focus: the next keystrokes are bindings (or a
            // fresh type-to-search), not leftovers into a cleared field.
            one(Effect::Unfocus)
        },
        Msg::PlayAll => {
            let items: Vec<QueueItem> = app.all_items();
            if items.len() > 0 {
                app.play_items(items)
            } else {
                nothing()
            }
        },
        Msg::QueueAll => {
            let items: Vec<QueueItem> = app.all_items();
            if items.len() > 0 {
                app.queue_more(items)
            } else {
                nothing()
            }
        },
        // What Tab means depends on where focus lives, which only the widget tree knows.
        Msg::TabPressed { backwards } => {
            let otherwise: Screen = if backwards {
                app.screen.prev()
            } else {
                app.screen.next()
            };
            one(Effect::AskFocus { backwards, otherwise })
        },
        _ => nothing(),
    }
}

fn picker_update(app: &mut App, msg: Msg) -> (effects: Vec<Effect>)
    requires
        old(app).wf(),
        topic_of(msg) == Topic::Pick,
    ensures
        final(app).wf(),
        picker_turns(old(app)@, msg, Turn { app: final(app)@, effects: asked(effects@) }),
{
    reveal(picker_turns);
    match msg {
        Msg::OpenPicker(subject) => app.open_picker(subject),
        Msg::CycleFilterInput { backwards } => app.cycle_input(backwards),
        Msg::PickerQuery(query) => app.change_query(query),
        Msg::PickerMove(dir) => app.picker_step(dir),
        // No snap, unlike PickerMove: the cursor is already on the row it selected.
        Msg::PickerHover(slot) => {
            if let Some(Modal::Picker(picker)) = &mut app.modal {
                picker.selected = slot;
            }
            nothing()
        },
        Msg::PickerChoose(slot) => app.pick_filter(slot),
        Msg::PickerPick => {
            let slot: usize = match &app.modal {
                Some(Modal::Picker(picker)) => picker.selected,
                _ => return nothing(),
            };
            app.pick_filter(slot)
        },
        Msg::OpenSort => app.open_sort(),
        Msg::SortMove(dir) => app.sort_step(dir),
        // No snap, unlike SortMove: the cursor is already on the row it selected.
        Msg::SortHover(slot) => {
            if let Some(Modal::Sort(menu)) = &mut app.modal {
                menu.selected = slot;
            }
            nothing()
        },
        Msg::SortChoose(slot) => app.pick_sort(slot),
        Msg::SortPick => {
            let slot: usize = match &app.modal {
                Some(Modal::Sort(menu)) => menu.selected,
                _ => return nothing(),
            };
            app.pick_sort(slot)
        },
        _ => nothing(),
    }
}

fn menu_update(app: &mut App, msg: Msg) -> (effects: Vec<Effect>)
    requires
        old(app).wf(),
        topic_of(msg) == Topic::Menu,
    ensures
        final(app).wf(),
        menu_turns(old(app)@, msg, Turn { app: final(app)@, effects: asked(effects@) }),
{
    reveal(menu_turns);
    match msg {
        Msg::OpenActionsMenu => {
            app.modal = Some(Modal::Actions);
            nothing()
        },
        Msg::CloseModal => {
            app.modal = None;
            nothing()
        },
        Msg::MenuMove(dir) => app.menu_step(dir),
        // No snap, unlike MenuMove: the cursor is already on the row it selected.
        Msg::MenuHover(track) => {
            if let Some(Modal::Tracks(menu)) = &mut app.modal {
                menu.selected = track;
            }
            nothing()
        },
        Msg::MenuQueue => app.queue_selected(),
        Msg::MenuPlay => match app.track_menu() {
            Some(menu) => {
                let item: Option<QueueItem> = app.track_item(menu.album, menu.selected);
                app.modal = None;
                app.play_item(item)
            },
            None => nothing(),
        },
        Msg::PlayTrack { album, track } => {
            let item: Option<QueueItem> = app.track_item(album, track);
            app.modal = None;
            app.play_item(item)
        },
        Msg::QueueTrack { album, track } => match app.track_item(album, track) {
            Some(item) => {
                let items: Vec<QueueItem> = vec![item];
                assert(items@ =~= seq![item]);
                app.queue_more(items)
            },
            None => nothing(),
        },
        _ => nothing(),
    }
}

fn queue_update(app: &mut App, msg: Msg) -> (effects: Vec<Effect>)
    requires
        old(app).wf(),
        topic_of(msg) == Topic::Queue,
    ensures
        final(app).wf(),
        queue_turns(old(app)@, msg, Turn { app: final(app)@, effects: asked(effects@) }),
{
    reveal(queue_turns);
    match msg {
        Msg::CycleRepeat => {
            app.repeat = app.repeat.cycled();
            let mut effects: Vec<Effect> = send(Cmd::SetRepeat(app.repeat));
            let saved: Effect = app.save_player();
            extend(&mut effects, one(saved));
            assert(asked(effects@) =~= seq![
                EffectView::Send(CmdView::SetRepeat(app.repeat)),
                app@.player_saved(),
            ]);
            effects
        },
        Msg::Shuffle { grouping, scope } => app.shuffle_queue(grouping, scope),
        Msg::RestAt(edge) => app.rest_at(edge),
        Msg::ClearQueue => app.clear_queue(),
        _ => nothing(),
    }
}

fn transport_update(app: &mut App, msg: Msg, now: Nanos) -> (effects: Vec<Effect>)
    requires
        old(app).wf(),
        topic_of(msg) == Topic::Transport,
    ensures
        final(app).wf(),
        transport_turns(old(app)@, msg, now, Turn { app: final(app)@, effects: asked(effects@) }),
{
    reveal(transport_turns);
    match msg {
        Msg::Player(event) => app.notify(event),
        Msg::Media(control) => app.control(control),
        Msg::Toggle => send(Cmd::TogglePlayPause),
        Msg::Next { repeat } => {
            if app.skip_ready(repeat, now) {
                send(Cmd::Next)
            } else {
                nothing()
            }
        },
        Msg::Prev => send(Cmd::Prev),
        Msg::PrevOrRestart { repeat } => {
            if !app.skip_ready(repeat, now) {
                return nothing();
            }
            if app.pos < NEAR_START {
                // Cmd::Prev steps to the previous track when playback is near the start. On a
                // double-press the second press lands here after the first has queued a seek to
                // zero, and the engine applies that seek before this Prev -- so it reliably sees
                // playback at the start and steps back rather than restarting again.
                send(Cmd::Prev)
            } else {
                app.do_seek(Seek::ToStart)
            }
        },
        Msg::PrevAlbum => app.prev_album(),
        Msg::NextAlbum => app.next_album(),
        Msg::CoverClicked(ix) => app.click(ix),
        Msg::PlayerScrolled { up, left } => app.scroll(up, left),
        Msg::BumpVolume(percent) => one(Effect::BumpVolume(percent)),
        // No optimistic position update: the player reports its position right after
        // seeking (stale in-flight reports can't yank the bar around this way, at the
        // price of the bar resting at the old position for the seek's few ms).
        Msg::SeekReleased(t) => send(Cmd::Seek(t)),
        Msg::Seek(seek) => app.do_seek(seek),
        // The cache absorbs its own query's result: memoized if it decoded, forgotten if it
        // failed. Kept even if the window has moved past this album -- a later hop back is then
        // instant, and the LRU bound retires it in time regardless.
        Msg::HiResLoaded { id, pixels } => {
            app.hires.complete(id, pixels);
            nothing()
        },
        _ => nothing(),
    }
}

/// Changes the model as a message says, at the time `now`, and tells what that asks of the world around it.
pub fn update(app: &mut App, msg: Msg, now: Nanos) -> (effects: Vec<Effect>)
    requires
        old(app).wf(),
    ensures
        final(app).wf(),
        turns(old(app)@, msg, now, Turn { app: final(app)@, effects: asked(effects@) }),
{
    match topic(&msg) {
        Topic::Scan => scan_update(app, msg),
        Topic::Browse => browse_update(app, msg),
        Topic::Pick => picker_update(app, msg),
        Topic::Menu => menu_update(app, msg),
        Topic::Queue => queue_update(app, msg),
        Topic::Transport => transport_update(app, msg, now),
    }
}

impl App {
    /// Re-ranks the picker's matches, and resets its selection to the top.
    fn change_query(&mut self, query: String) -> (effects: Vec<Effect>)
        requires
            old(self).wf(),
        ensures
            final(self).wf(),
            old(self)@.query_changed(query@, Turn { app: final(self)@, effects: asked(effects@) }),
    {
        let subject: PickerSubject = match &self.modal {
            Some(Modal::Picker(picker)) => picker.subject,
            _ => return nothing(),
        };
        let found: Vec<String> = picker_matches(&self.albums, subject, query.as_str());
        self.modal = Some(Modal::Picker(Picker { subject, query, matches: found, selected: 0 }));
        one(Effect::Snap { list: List::Picker, slot: 0, last: 0 })
    }

    /// Queues the track menu's selected track, and steps onto the next one, so successive presses queue an
    /// album run.
    fn queue_selected(&mut self) -> (effects: Vec<Effect>)
        requires
            old(self).wf(),
        ensures
            final(self).wf(),
            menu_turns(old(self)@, Msg::MenuQueue, Turn { app: final(self)@, effects: asked(effects@) }),
    {
        reveal(menu_turns);
        match self.track_menu() {
            Some(menu) => match self.track_item(menu.album, menu.selected) {
                Some(item) => {
                    let items: Vec<QueueItem> = vec![item];
                    assert(items@ =~= seq![item]);
                    let tracks = entries(&items);
                    let mut effects: Vec<Effect> = send(Cmd::Append { tracks });
                    let mut items = items;
                    self.queue.append(&mut items);
                    assert(self@ == old(self)@.queueing(seq![item]).app);
                    let stepped: Vec<Effect> = self.menu_step(MenuDir::Down);
                    extend(&mut effects, stepped);
                    let saved: Effect = self.save_playlist();
                    extend(&mut effects, one(saved));
                    let ghost queued = old(self)@.queueing(seq![item]);
                    assert(queued.effects[1] == queued.app.playlist_saved());
                    assert(asked(effects@) =~= seq![queued.effects[0]] + queued.app.menu_stepped(
                        MenuDir::Down,
                    ).effects + seq![queued.effects[1]]);
                    effects
                },
                None => nothing(),
            },
            None => nothing(),
        }
    }

    /// Plays a single item, if there is one.
    fn play_item(&mut self, item: Option<QueueItem>) -> (effects: Vec<Effect>)
        requires
            old(self).wf(),
        ensures
            final(self).wf(),
            (Turn { app: final(self)@, effects: asked(effects@) }) == (match item {
                Some(item) => old(self)@.playing(seq![item]),
                None => old(self)@.still(),
            }),
    {
        match item {
            Some(item) => {
                let items: Vec<QueueItem> = vec![item];
                assert(items@ =~= seq![item]);
                self.play_items(items)
            },
            None => nothing(),
        }
    }

    /// Rests playback at an edge of the queue.
    fn rest_at(&mut self, edge: QueueEdge) -> (effects: Vec<Effect>)
        requires
            old(self).wf(),
        ensures
            final(self).wf(),
            queue_turns(old(self)@, Msg::RestAt(edge), Turn { app: final(self)@, effects: asked(effects@) }),
    {
        reveal(queue_turns);
        if self.queue.len() == 0 {
            return nothing();
        }
        self.current = match edge {
            QueueEdge::First => 0,
            QueueEdge::Last => self.queue.len() - 1,
        };
        let mut effects: Vec<Effect> = Vec::new();
        effects.push(Effect::FlowTo(flow_target(self)));
        // Replacing the queue with itself reopens the track paused: ready to play, its
        // length on the seek bar -- the same way a restored session comes up.
        effects.push(
            Effect::Send(
                Cmd::SetQueue { tracks: entries(&self.queue), start: self.current, play: PlayState::Paused },
            ),
        );
        effects.push(self.save_player());
        assert(asked(effects@) =~= seq![
            EffectView::FlowTo(self@.flow() as usize),
            EffectView::Send(
                CmdView::SetQueue {
                    tracks: entries_of(self@.queue),
                    start: self@.current,
                    play: PlayState::Paused,
                },
            ),
            self@.player_saved(),
        ]);
        effects
    }

    /// Clears the queue.
    fn clear_queue(&mut self) -> (effects: Vec<Effect>)
        requires
            old(self).wf(),
        ensures
            final(self).wf(),
            queue_turns(old(self)@, Msg::ClearQueue, Turn { app: final(self)@, effects: asked(effects@) }),
    {
        reveal(queue_turns);
        // Invoked from the actions menu: the action dismisses it.
        if let Some(Modal::Actions) = &self.modal {
            self.modal = None;
        }
        if self.queue.len() == 0 {
            return nothing();
        }
        self.queue = Vec::new();
        self.current = 0;
        let mut effects: Vec<Effect> = Vec::new();
        effects.push(Effect::FlowTo(0));
        // The engine goes idle (reporting QueueEnded, which also tells the OS we stopped).
        effects.push(Effect::Send(Cmd::SetQueue { tracks: Vec::new(), start: 0, play: PlayState::Paused }));
        effects.push(self.save_playlist());
        effects.push(self.save_player());
        assert(self@.queue =~= Seq::empty());
        assert(asked(effects@) =~= seq![
            EffectView::FlowTo(0),
            EffectView::Send(CmdView::SetQueue { tracks: Seq::empty(), start: 0, play: PlayState::Paused }),
            self@.playlist_saved(),
            self@.player_saved(),
        ]);
        effects
    }
}

proof fn lemma_texts_after(a: Seq<char>, b: Seq<char>, c: Seq<char>)
    ensures
        text_ordering(a, b, 0) is Greater <==> text_ordering(b, a, 0) is Less,
        text_ordering(a, b, 0) is Equal <==> text_ordering(b, a, 0) is Equal,
        text_ordering(a, b, 0) !is Greater && text_ordering(b, c, 0) !is Greater ==> text_ordering(a, c, 0) !is Greater,
        text_ordering(a, b, 0) !is Greater && text_ordering(b, c, 0) !is Greater && (text_ordering(a, b, 0) is Less
            || text_ordering(b, c, 0) is Less) ==> text_ordering(a, c, 0) is Less,
{
    crate::sort::lemma_text_order_reversed(a, b, 0);
    if text_ordering(a, b, 0) !is Greater && text_ordering(b, c, 0) !is Greater {
        crate::sort::lemma_text_order_transitive(a, b, c, 0);
    }
}

pub(crate) proof fn lemma_comes_after(a: Album, b: Album, c: Album)
    requires
        comes_after(b, a),
        b == c || !comes_after(b, c),
    ensures
        !comes_after(a, c),
{
    let x = lowercase(a.artist@);
    let y = lowercase(b.artist@);
    let z = lowercase(c.artist@);
    lemma_texts_after(x, y, z);
    lemma_texts_after(y, x, x);
    lemma_texts_after(z, x, x);
    let x = lowercase(a.title@);
    let y = lowercase(b.title@);
    let z = lowercase(c.title@);
    lemma_texts_after(x, y, z);
    lemma_texts_after(y, x, x);
    lemma_texts_after(z, x, x);
}

} // verus!
