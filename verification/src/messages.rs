//! What each message comes to: what becomes of the queue, the library and what is shown, and what the
//! engine is told.

use crate::browse::{are_picker_matches, is_filtered, FilterView, PickerSubject};
use crate::hires::{is_at, resident, slot_of, HiResView};
use crate::library::{Album, CoverArt, ScanEvent, TrackInfo};
use crate::media::{Control, Playback};
use crate::model::{
    entries_of, is_run, items_of, law_a_track_is_in_its_run, law_runs_part_the_queue, meets_next, run_index,
    runs_of, AppView, EffectView, List, ModalView, PickerView, QueueItem, ScanState, Screen, SortMenu, TrackMenu, Zoom,
};
use crate::player::{CmdView, Entry, Event, Nanos, PlayState, Repeat};
use crate::queue::{law_shuffle_is_a_permutation, shuffled, Grouping, Scope};
use crate::sort::SortOrder;
use crate::update::{
    browse_turns, is_accepted, menu_turns, picker_turns, queue_turns, scan_turns, shown_items, still_there,
    takes_art, transport_turns, turns, warmed, MenuDir, Msg, QueueEdge, Seek, SeekDir, Turn,
};
use core::ops::Range;
use vstd::prelude::*;

verus! {

/// An item of the queue is a track of an album, with what is known of both.
pub open spec fn is_item(item: QueueItem, album: Album, track: TrackInfo) -> bool {
    &&& item.path == track.path
    &&& item.title == track.title
    &&& item.album == album.title
    &&& item.artist == album.artist
    &&& item.album_id == album.id
    &&& item.cover == album.cover
    &&& item.accent == album.accent
}

/// The engine is given a queue: its paths, and which are of one album.
pub open spec fn are_entries(entries: Seq<Entry>, queue: Seq<QueueItem>) -> bool {
    &&& entries.len() == queue.len()
    &&& forall|k: int|
        0 <= k < queue.len() ==> (#[trigger] entries[k]).path == queue[k].path && entries[k].album
            == queue[k].album_id
}

/// Playing an album makes its tracks the queue, in their order, and plays them from the first, in the player.
pub proof fn law_playing_an_album_replaces_the_queue(app: AppView, cell: usize, now: Nanos, turn: Turn, k: int)
    requires
        turns(app, Msg::PlayAlbum(cell), now, turn),
        cell < app.filtered.len(),
    ensures
        ({
            let album = app.albums[app.filtered[cell as int] as int];
            &&& turn.app == (AppView { queue: turn.app.queue, current: 0, screen: Screen::Player, ..app })
            &&& turn.app.queue.len() == album.tracks@.len()
            &&& 0 <= k < turn.app.queue.len() ==> is_item(turn.app.queue[k], album, album.tracks@[k])
            &&& turn.effects[0] matches EffectView::Send(CmdView::SetQueue { tracks, start, play }) && are_entries(
                tracks,
                turn.app.queue,
            ) && start == 0 && play == PlayState::Playing
        }),
{
    reveal(browse_turns);
}

/// Queueing an album puts its tracks behind the queue, in their order, and changes nothing else.
pub proof fn law_queueing_an_album_appends_it(app: AppView, cell: usize, now: Nanos, turn: Turn, k: int)
    requires
        turns(app, Msg::QueueAlbum(cell), now, turn),
        cell < app.filtered.len(),
    ensures
        ({
            let album = app.albums[app.filtered[cell as int] as int];
            let n = app.queue.len();
            &&& turn.app == (AppView { queue: turn.app.queue, ..app })
            &&& turn.app.queue.len() == n + album.tracks@.len()
            &&& turn.app.queue.take(n as int) == app.queue
            &&& 0 <= k < album.tracks@.len() ==> is_item(turn.app.queue[n + k], album, album.tracks@[k])
            &&& turn.effects[0] matches EffectView::Send(CmdView::Append { tracks }) && are_entries(
                tracks,
                turn.app.queue.skip(n as int),
            )
        }),
{
    reveal(browse_turns);
    let album = app.albums[app.filtered[cell as int] as int];
    assert(turn.app.queue.take(app.queue.len() as int) =~= app.queue);
    assert(turn.app.queue.skip(app.queue.len() as int) =~= items_of(album));
}

/// The paths of the tracks of each shown album, in the order that they are shown in.
pub open spec fn shown_paths(albums: Seq<Album>, shown: Seq<usize>) -> Seq<Seq<String>> {
    Seq::new(
        shown.len(),
        |i: int| albums[shown[i] as int].tracks@.map_values(|track: TrackInfo| track.path),
    )
}

proof fn lemma_shown_items(albums: Seq<Album>, shown: Seq<usize>, n: int)
    requires
        0 <= n <= shown.len(),
    ensures
        shown_items(albums, shown, n).map_values(|item: QueueItem| item.path) == shown_paths(albums, shown).take(
            n,
        ).flatten_alt(),
    decreases n,
{
    let all = shown_paths(albums, shown);
    let items = shown_items(albums, shown, n);
    if n > 0 {
        lemma_shown_items(albums, shown, n - 1);
        let album = albums[shown[n - 1] as int];
        assert(all.take(n).drop_last() =~= all.take(n - 1));
        assert(all.take(n).last() == all[n - 1]);
        assert(items_of(album).map_values(|item: QueueItem| item.path) =~= album.tracks@.map_values(
            |track: TrackInfo| track.path,
        ));
        assert(items.map_values(|item: QueueItem| item.path) =~= shown_items(albums, shown, n - 1).map_values(
            |item: QueueItem| item.path,
        ) + items_of(album).map_values(|item: QueueItem| item.path));
    } else {
        assert(all.take(0) =~= Seq::empty());
        assert(items.map_values(|item: QueueItem| item.path) =~= Seq::empty());
    }
}

/// Playing all, or queueing all, takes the tracks of all albums that are shown, album by album in the order that
/// they are shown in.
pub proof fn law_all_is_what_is_shown(app: AppView, now: Nanos, play: Turn, queue: Turn)
    requires
        turns(app, Msg::PlayAll, now, play),
        turns(app, Msg::QueueAll, now, queue),
        shown_paths(app.albums, app.filtered).flatten_alt().len() > 0,
    ensures
        ({
            let all = shown_paths(app.albums, app.filtered).flatten_alt();
            let paths = |items: Seq<QueueItem>| items.map_values(|item: QueueItem| item.path);
            &&& play.app == (AppView { queue: play.app.queue, current: 0, screen: Screen::Player, ..app })
            &&& paths(play.app.queue) == all
            &&& queue.app == (AppView { queue: queue.app.queue, ..app })
            &&& queue.app.queue.take(app.queue.len() as int) == app.queue
            &&& paths(queue.app.queue.skip(app.queue.len() as int)) == all
        }),
{
    reveal(browse_turns);
    let n = app.filtered.len() as int;
    let items = shown_items(app.albums, app.filtered, n);
    lemma_shown_items(app.albums, app.filtered, n);
    let all = shown_paths(app.albums, app.filtered);
    assert(all.take(n) =~= all);
    assert(items.map_values(|item: QueueItem| item.path).len() == items.len());
    assert(queue.app.queue.take(app.queue.len() as int) =~= app.queue);
    assert(queue.app.queue.skip(app.queue.len() as int) =~= items);
}

/// Playing a single track makes it the whole queue; queueing it puts it behind the queue.
pub proof fn law_a_track_is_played_or_queued(
    app: AppView,
    album: usize,
    track: usize,
    now: Nanos,
    play: Turn,
    queue: Turn,
)
    requires
        turns(app, Msg::PlayTrack { album, track }, now, play),
        turns(app, Msg::QueueTrack { album, track }, now, queue),
        album < app.albums.len(),
        track < app.albums[album as int].tracks@.len(),
    ensures
        ({
            let a = app.albums[album as int];
            let t = a.tracks@[track as int];
            &&& play.app == (AppView {
                queue: play.app.queue,
                current: 0,
                screen: Screen::Player,
                modal: None,
                ..app
            })
            &&& play.app.queue.len() == 1 && is_item(play.app.queue[0], a, t)
            &&& play.effects[0] matches EffectView::Send(CmdView::SetQueue { tracks, start, play: state })
                && are_entries(tracks, play.app.queue) && start == 0 && state == PlayState::Playing
            &&& queue.app == (AppView { queue: queue.app.queue, ..app })
            &&& queue.app.queue.len() == app.queue.len() + 1
            &&& queue.app.queue.drop_last() == app.queue && is_item(queue.app.queue.last(), a, t)
        }),
{
    reveal(menu_turns);
    assert(queue.app.queue.drop_last() =~= app.queue);
}

/// The track menu plays and queues the track that is selected in it. Queueing leaves it open and goes on to the
/// next track; playing closes it.
pub proof fn law_the_track_menu_takes_its_selection(app: AppView, menu: TrackMenu, now: Nanos, play: Turn, queue: Turn)
    requires
        app.modal == Some(ModalView::Tracks(menu)),
        turns(app, Msg::MenuPlay, now, play),
        turns(app, Msg::MenuQueue, now, queue),
        menu.album < app.albums.len(),
        menu.selected < app.albums[menu.album as int].tracks@.len(),
    ensures
        ({
            let a = app.albums[menu.album as int];
            let t = a.tracks@[menu.selected as int];
            let next = if menu.selected + 1 < a.tracks@.len() {
                (menu.selected + 1) as usize
            } else {
                menu.selected
            };
            &&& play.app.modal is None
            &&& play.app.screen == Screen::Player
            &&& play.app.current == 0
            &&& play.app.queue.len() == 1 && is_item(play.app.queue[0], a, t)
            &&& queue.app == (AppView {
                queue: queue.app.queue,
                modal: Some(ModalView::Tracks(TrackMenu { album: menu.album, selected: next })),
                ..app
            })
            &&& queue.app.queue.len() == app.queue.len() + 1
            &&& queue.app.queue.drop_last() == app.queue && is_item(queue.app.queue.last(), a, t)
        }),
{
    assert(app.albums[menu.album as int].tracks.len() == app.albums[menu.album as int].tracks@.len());
    reveal(menu_turns);
    assert(queue.app.queue.drop_last() =~= app.queue);
}

/// The arrows move a menu's selection by one row, and not past its ends; the list shows the row.
pub proof fn law_menus_move_by_one_row(app: AppView, dir: MenuDir, now: Nanos, tracks: Turn, pick: Turn, sort: Turn)
    requires
        turns(app, Msg::MenuMove(dir), now, tracks),
        turns(app, Msg::PickerMove(dir), now, pick),
        turns(app, Msg::SortMove(dir), now, sort),
    ensures
        ({
            let moved = |from: usize, to: usize, last: int| match dir {
                MenuDir::Up => to == if from > 0 {
                    from - 1
                } else {
                    0
                },
                MenuDir::Down => to == if from < last {
                    from + 1
                } else {
                    last
                },
            };
            match app.modal {
                Some(ModalView::Tracks(menu)) => {
                    let last = app.albums[menu.album as int].tracks@.len() - 1;
                    menu.album < app.albums.len() && 0 <= last < usize::MAX ==> {
                        &&& tracks.app.modal matches Some(ModalView::Tracks(after)) && after.album == menu.album
                            && moved(menu.selected, after.selected, last)
                        &&& tracks.effects.len() == 1
                        &&& tracks.effects[0] matches EffectView::Snap { list, slot, last: end } && list == List::Tracks
                            && tracks.app.modal == Some(
                            ModalView::Tracks(TrackMenu { album: menu.album, selected: slot }),
                        ) && end == last
                        &&& tracks.app == (AppView { modal: tracks.app.modal, ..app })
                    }
                },
                Some(ModalView::Picker(picker)) => picker.found.len() <= usize::MAX ==> {
                    &&& pick.app.modal matches Some(ModalView::Picker(after)) && after == (PickerView {
                        selected: after.selected,
                        ..picker
                    }) && moved(picker.selected, after.selected, picker.found.len() as int)
                    &&& pick.app == (AppView { modal: pick.app.modal, ..app })
                },
                Some(ModalView::Sort(menu)) => {
                    &&& sort.app.modal matches Some(ModalView::Sort(after)) && moved(
                        menu.selected,
                        after.selected,
                        SortOrder::every().len() - 1,
                    )
                    &&& sort.app == (AppView { modal: sort.app.modal, ..app })
                },
                _ => tracks.app == app && pick.app == app && sort.app == app,
            }
        }),
{
    reveal(menu_turns);
    reveal(picker_turns);
}

/// The rows under the cursor are selected.
pub proof fn law_the_cursor_selects_rows(app: AppView, slot: usize, now: Nanos, tracks: Turn, pick: Turn, sort: Turn)
    requires
        turns(app, Msg::MenuHover(slot), now, tracks),
        turns(app, Msg::PickerHover(slot), now, pick),
        turns(app, Msg::SortHover(slot), now, sort),
    ensures
        match app.modal {
            Some(ModalView::Tracks(menu)) => tracks.app == (AppView {
                modal: Some(ModalView::Tracks(TrackMenu { album: menu.album, selected: slot })),
                ..app
            }),
            Some(ModalView::Picker(picker)) => pick.app == (AppView {
                modal: Some(ModalView::Picker(PickerView { selected: slot, ..picker })),
                ..app
            }),
            Some(ModalView::Sort(menu)) => sort.app == (AppView {
                modal: Some(ModalView::Sort(SortMenu { selected: slot })),
                ..app
            }),
            _ => tracks.app == app && pick.app == app && sort.app == app,
        },
        tracks.effects.len() == 0 && pick.effects.len() == 0 && sort.effects.len() == 0,
{
    reveal(menu_turns);
    reveal(picker_turns);
}

/// A seek by some time goes that much on or back, but not before the track's beginning nor behind its end; what
/// is shown and what the engine is told is that position.
pub proof fn law_seeks_go_by_their_time(app: AppView, dt: Nanos, now: Nanos, on: Turn, back: Turn, start: Turn)
    requires
        turns(app, Msg::Seek(Seek::By(SeekDir::Forward, dt)), now, on),
        turns(app, Msg::Seek(Seek::By(SeekDir::Backward, dt)), now, back),
        turns(app, Msg::Seek(Seek::ToStart), now, start),
        app.pos + dt <= u64::MAX,
        app.len matches Some(len) ==> app.pos <= len,
    ensures
        ({
            let ahead = if app.len is Some && app.pos + dt > app.len->0 {
                app.len->0
            } else {
                (app.pos + dt) as Nanos
            };
            let behind = if app.pos < dt {
                0
            } else {
                (app.pos - dt) as Nanos
            };
            &&& on.app == (AppView { pos: ahead, pending_seek: Some(ahead), ..app })
            &&& on.effects == seq![EffectView::Send(CmdView::Seek(ahead))]
            &&& back.app == (AppView { pos: behind, pending_seek: Some(behind), ..app })
            &&& back.effects == seq![EffectView::Send(CmdView::Seek(behind))]
            &&& start.app == (AppView { pos: 0, pending_seek: Some(0), ..app })
            &&& start.effects == seq![EffectView::Send(CmdView::Seek(0))]
        }),
{
    reveal(transport_turns);
}

/// The transport's buttons are passed on to the engine as they are, and change nothing by themselves.
pub proof fn law_buttons_are_passed_on(app: AppView, t: Nanos, percent: i32, now: Nanos, turn: Turn)
    ensures
        turns(app, Msg::Toggle, now, turn) ==> turn.app == app && turn.effects == seq![
            EffectView::Send(CmdView::TogglePlayPause),
        ],
        turns(app, Msg::Prev, now, turn) ==> turn.app == app && turn.effects == seq![EffectView::Send(CmdView::Prev)],
        turns(app, Msg::SeekReleased(t), now, turn) ==> turn.app == app && turn.effects == seq![
            EffectView::Send(CmdView::Seek(t)),
        ],
        turns(app, Msg::BumpVolume(percent), now, turn) ==> turn.app == app && turn.effects == seq![
            EffectView::BumpVolume(percent),
        ],
{
    reveal(transport_turns);
}

/// A press of End skips to the next track, and one of Home to the previous, or back to the start of the track once
/// it has played for a second and a half.
pub proof fn law_a_press_skips(app: AppView, now: Nanos, next: Turn, prev: Turn)
    requires
        turns(app, Msg::Next { repeat: false }, now, next),
        turns(app, Msg::PrevOrRestart { repeat: false }, now, prev),
    ensures
        next.effects == seq![EffectView::Send(CmdView::Next)],
        app.pos < 1_500_000_000 ==> prev.effects == seq![EffectView::Send(CmdView::Prev)],
        app.pos >= 1_500_000_000 ==> prev.effects == seq![EffectView::Send(CmdView::Seek(0))] && prev.app.pos == 0,
        next.app == (AppView { hold_start: Some(now), last_skip: Some(now), ..app }),
        prev.app.queue == app.queue && prev.app.current == app.current,
{
    reveal(transport_turns);
}

/// A held key skips again at most eight times a second, and at most twenty times once it has been held for two
/// seconds.
pub proof fn law_a_held_key_skips_at_its_pace(app: AppView, now: Nanos, next: Turn, pressed: Nanos, last: Nanos)
    requires
        turns(app, Msg::Next { repeat: true }, now, next),
        app.hold_start == Some(pressed),
        app.last_skip == Some(last),
        pressed <= last <= now,
    ensures
        ({
            let pace: int = if now - pressed >= 2_000_000_000 {
                50_000_000
            } else {
                125_000_000
            };
            &&& now - last >= pace ==> next.effects == seq![EffectView::Send(CmdView::Next)] && next.app == (AppView {
                last_skip: Some(now),
                ..app
            })
            &&& now - last < pace ==> next.effects.len() == 0 && next.app == app
        }),
{
    reveal(transport_turns);
}

proof fn lemma_next_run(queue: Seq<QueueItem>, current: int)
    requires
        0 <= current < queue.len() <= usize::MAX,
    ensures
        ({
            let runs = runs_of(queue);
            let cur = run_index(runs, current);
            &&& 0 <= cur < runs.len()
            &&& runs[cur].start <= current < runs[cur].end <= queue.len()
            &&& is_run(queue, runs[cur], queue.len() as int)
            &&& cur + 1 < runs.len() ==> is_run(queue, runs[cur + 1], queue.len() as int) && runs[cur + 1].start
                == runs[cur].end
            &&& cur + 1 == runs.len() ==> runs[cur].end == queue.len()
            &&& cur > 0 ==> is_run(queue, runs[cur - 1], queue.len() as int) && runs[cur - 1].end == runs[cur].start
            &&& cur == 0 ==> runs[cur].start == 0
        }),
{
    let runs = runs_of(queue);
    let cur = run_index(runs, current);
    law_runs_part_the_queue(queue);
    law_a_track_is_in_its_run(queue, current);
    assert(is_run(queue, runs[cur], queue.len() as int));
    if cur + 1 < runs.len() {
        assert(is_run(queue, runs[cur + 1], queue.len() as int));
        assert(meets_next(runs, cur));
    }
    if cur > 0 {
        assert(is_run(queue, runs[cur - 1], queue.len() as int));
        assert(meets_next(runs, cur - 1));
    }
}

/// The next album starts at the first track behind the playing one that is of another album than the one before
/// it; where there is none, nothing happens.
pub proof fn law_the_next_album_is_the_one_behind(app: AppView, now: Nanos, turn: Turn)
    requires
        turns(app, Msg::NextAlbum, now, turn),
        app.current < app.queue.len() <= usize::MAX,
    ensures
        turn.app == app,
        turn.effects.len() <= 1,
        turn.effects.len() == 1 ==> (turn.effects[0] matches EffectView::Send(CmdView::JumpTo(ix)) && {
            &&& app.current < ix < app.queue.len()
            &&& app.queue[ix as int].album_id != app.queue[ix - 1].album_id
            &&& forall|j: int|
                app.current <= j < ix ==> (#[trigger] app.queue[j]).album_id == app.queue[app.current as int].album_id
        }),
        turn.effects.len() == 0 ==> forall|j: int|
            app.current <= j < app.queue.len() ==> (#[trigger] app.queue[j]).album_id
                == app.queue[app.current as int].album_id,
{
    reveal(transport_turns);
    lemma_next_run(app.queue, app.current as int);
}

/// Going back by an album goes to the first track of the playing one, or to that of the album before where it is
/// the first already; at the very beginning nothing happens.
pub proof fn law_the_previous_album_is_the_one_before(app: AppView, now: Nanos, turn: Turn)
    requires
        turns(app, Msg::PrevAlbum, now, turn),
        app.current < app.queue.len() <= usize::MAX,
    ensures
        turn.app == app,
        app.current == 0 ==> turn.effects.len() == 0,
        app.current > 0 ==> turn.effects.len() == 1 && (turn.effects[0] matches EffectView::Send(CmdView::JumpTo(ix)) && {
            &&& ix < app.current
            &&& ix == 0 || app.queue[ix as int].album_id != app.queue[ix - 1].album_id
            &&& forall|j: int|
                ix <= j < app.current ==> (#[trigger] app.queue[j]).album_id == app.queue[app.current - 1].album_id
        }),
{
    reveal(transport_turns);
    lemma_next_run(app.queue, app.current as int);
}

/// A click on the playing album's cover pauses or plays on; on another it goes to the first track of that album.
pub proof fn law_a_click_goes_to_its_album(app: AppView, ix: usize, now: Nanos, turn: Turn)
    requires
        turns(app, Msg::CoverClicked(ix), now, turn),
        app.current < app.queue.len() <= usize::MAX,
        ix < runs_of(app.queue).len(),
    ensures
        ({
            let run = runs_of(app.queue)[ix as int];
            &&& turn.app == app
            &&& run.start <= app.current < run.end ==> turn.effects == seq![EffectView::Send(CmdView::TogglePlayPause)]
            &&& !(run.start <= app.current < run.end) ==> turn.effects == seq![
                EffectView::Send(CmdView::JumpTo(run.start)),
            ]
        }),
{
    reveal(transport_turns);
    lemma_next_run(app.queue, app.current as int);
    law_runs_part_the_queue(app.queue);
    let runs = runs_of(app.queue);
    let cur = run_index(runs, app.current as int);
    if ix != cur {
        lemma_runs_apart(app.queue, ix as int, cur);
    }
}

proof fn lemma_runs_in_turn(queue: Seq<QueueItem>, a: int, b: int)
    requires
        queue.len() <= usize::MAX,
        0 <= a < b < runs_of(queue).len(),
    ensures
        runs_of(queue)[a].end <= runs_of(queue)[b].start,
    decreases b - a,
{
    law_runs_part_the_queue(queue);
    let runs = runs_of(queue);
    assert(meets_next(runs, b - 1));
    assert(is_run(queue, runs[b - 1], queue.len() as int));
    if a < b - 1 {
        lemma_runs_in_turn(queue, a, b - 1);
    }
}

proof fn lemma_runs_apart(queue: Seq<QueueItem>, a: int, b: int)
    requires
        queue.len() <= usize::MAX,
        0 <= a < runs_of(queue).len(),
        0 <= b < runs_of(queue).len(),
        a != b,
    ensures
        runs_of(queue)[a].end <= runs_of(queue)[b].start || runs_of(queue)[b].end <= runs_of(queue)[a].start,
{
    if a < b {
        lemma_runs_in_turn(queue, a, b);
    } else {
        lemma_runs_in_turn(queue, b, a);
    }
}

/// The wheel goes up and down the queue, a track per notch and not past its ends.
pub proof fn law_the_wheel_goes_through_the_queue(app: AppView, up: i64, now: Nanos, turn: Turn)
    requires
        turns(app, Msg::PlayerScrolled { up, left: 0 }, now, turn),
        app.current < app.queue.len() <= usize::MAX,
    ensures
        ({
            let target = if app.current < up {
                0
            } else if app.current - up >= app.queue.len() {
                app.queue.len() - 1
            } else {
                app.current - up
            };
            &&& turn.app == app
            &&& target == app.current ==> turn.effects.len() == 0
            &&& target != app.current ==> turn.effects == seq![EffectView::Send(CmdView::JumpTo(target as usize))]
        }),
{
    reveal(transport_turns);
}

/// What the engine reports is what is shown: the track that it started, from its beginning and with its length;
/// where it is; and whether it plays. Once the queue has ended, the track stands at its end, paused.
pub proof fn law_reports_of_the_engine_are_shown(
    app: AppView,
    ix: usize,
    len: Option<Nanos>,
    t: Nanos,
    state: PlayState,
    now: Nanos,
    turn: Turn,
)
    ensures
        turns(app, Msg::Player(Event::TrackStarted { ix, len }), now, turn) ==> turn.app == (AppView {
            current: ix,
            len,
            pos: 0,
            pending_seek: None,
            hires: turn.app.hires,
            ..app
        }),
        turns(app, Msg::Player(Event::Progress(t)), now, turn) && app.pending_seek is None ==> turn.app == (AppView {
            pos: t,
            ..app
        }),
        turns(app, Msg::Player(Event::Progress(t)), now, turn) && app.pending_seek is Some && t <= app.pending_seek->0
            + 1_000_000_000 && app.pending_seek->0 <= t + 1_000_000_000 ==> turn.app == (AppView {
            pos: t,
            pending_seek: None,
            ..app
        }),
        turns(app, Msg::Player(Event::Progress(t)), now, turn) && app.pending_seek is Some && !(t <= app.pending_seek->0
            + 1_000_000_000 && app.pending_seek->0 <= t + 1_000_000_000) ==> turn.app == app,
        turns(app, Msg::Player(Event::PlayState(state)), now, turn) ==> turn.app == (AppView {
            play_state: state,
            ..app
        }),
        turns(app, Msg::Player(Event::QueueEnded), now, turn) ==> turn.app == (AppView {
            play_state: PlayState::Paused,
            pos: match app.len {
                Some(len) => len,
                None => 0,
            },
            pending_seek: None,
            ..app
        }),
{
    reveal(transport_turns);
}

/// What other programs are shown is what plays: its title, artist and album, how long it is and where it is, and
/// whether it plays.
pub proof fn law_what_plays_is_published(app: AppView, state: PlayState, now: Nanos, turn: Turn)
    requires
        turns(app, Msg::Player(Event::PlayState(state)), now, turn),
        app.current < app.queue.len(),
    ensures
        ({
            let item = app.queue[app.current as int];
            &&& turn.effects.len() == 1
            &&& turn.effects[0] matches EffectView::Publish(shown) && {
                &&& shown.meta matches Some(meta) && meta.title == item.title@ && meta.artist == item.artist@
                    && meta.album == item.album@ && meta.duration == app.len
                &&& shown.position == app.pos
                &&& state == PlayState::Playing ==> shown.state == Playback::Playing
                &&& state == PlayState::Paused ==> shown.state == Playback::Paused
            }
        }),
{
    reveal(transport_turns);
}

/// The requests of other programs: play and pause do nothing where it is so already, stop pauses, and the others
/// are passed on.
pub proof fn law_requests_are_carried_out(app: AppView, control: Control, now: Nanos, turn: Turn)
    requires
        turns(app, Msg::Media(control), now, turn),
        !(control is Seek),
    ensures
        turn.app == app,
        ({
            let toggle = seq![EffectView::Send(CmdView::TogglePlayPause)];
            match control {
                Control::Play => turn.effects == if app.play_state == PlayState::Paused {
                    toggle
                } else {
                    Seq::empty()
                },
                Control::Pause => turn.effects == if app.play_state == PlayState::Playing {
                    toggle
                } else {
                    Seq::empty()
                },
                Control::Stop => turn.effects == if app.play_state == PlayState::Playing {
                    toggle
                } else {
                    Seq::empty()
                },
                Control::Toggle => turn.effects == toggle,
                Control::Next => turn.effects == seq![EffectView::Send(CmdView::Next)],
                Control::Prev => turn.effects == seq![EffectView::Send(CmdView::Prev)],
                Control::SetPosition(t) => turn.effects == seq![EffectView::Send(CmdView::Seek(t))],
                Control::Seek(_) => true,
            }
        }),
{
    reveal(transport_turns);
}

/// A relative seek of another program is by so many microseconds, on or back, within the track.
pub proof fn law_requested_seeks_are_in_microseconds(app: AppView, micros: i64, now: Nanos, turn: Turn)
    requires
        turns(app, Msg::Media(Control::Seek(micros)), now, turn),
        -1_000_000_000_000 <= micros <= 1_000_000_000_000,
        app.pos <= 1_000_000_000_000_000,
        app.len is None,
    ensures
        ({
            let target = if app.pos + 1000 * micros < 0 {
                0
            } else {
                (app.pos + 1000 * micros) as Nanos
            };
            &&& turn.effects == seq![EffectView::Send(CmdView::Seek(target))]
            &&& turn.app.pos == target
        }),
{
    reveal(transport_turns);
}

/// The repeat modes take turns: off, the track, the album, the playlist, and off again. The engine is told.
pub proof fn law_repeat_modes_take_turns(app: AppView, now: Nanos, turn: Turn)
    requires
        turns(app, Msg::CycleRepeat, now, turn),
    ensures
        ({
            let next = turn.app.repeat;
            &&& turn.app == (AppView { repeat: next, ..app })
            &&& turn.effects[0] == EffectView::Send(CmdView::SetRepeat(next))
            &&& app.repeat == Repeat::Off ==> next == Repeat::Track
            &&& app.repeat == Repeat::Track ==> next == Repeat::Album
            &&& app.repeat == Repeat::Album ==> next == Repeat::Playlist
            &&& app.repeat == Repeat::Playlist ==> next == Repeat::Off
        }),
{
    reveal(queue_turns);
}

/// Resting at an edge of the queue makes its first or last track the current one, paused; clearing the queue
/// empties it, and the engine's.
pub proof fn law_the_queue_rests_at_its_edges(
    app: AppView,
    now: Nanos,
    first: Turn,
    last: Turn,
    cleared: Turn,
)
    requires
        turns(app, Msg::RestAt(QueueEdge::First), now, first),
        turns(app, Msg::RestAt(QueueEdge::Last), now, last),
        turns(app, Msg::ClearQueue, now, cleared),
        0 < app.queue.len() <= usize::MAX,
    ensures
        first.app == (AppView { current: 0, ..app }),
        last.app == (AppView { current: (app.queue.len() - 1) as usize, ..app }),
        first.effects.contains(
            EffectView::Send(
                CmdView::SetQueue { tracks: entries_of(app.queue), start: 0, play: PlayState::Paused },
            ),
        ),
        last.effects.contains(
            EffectView::Send(
                CmdView::SetQueue {
                    tracks: entries_of(app.queue),
                    start: (app.queue.len() - 1) as usize,
                    play: PlayState::Paused,
                },
            ),
        ),
        cleared.app.queue.len() == 0,
        cleared.app.current == 0,
        cleared.effects.contains(
            EffectView::Send(CmdView::SetQueue { tracks: Seq::empty(), start: 0, play: PlayState::Paused }),
        ),
{
    reveal(queue_turns);
    assert(first.effects[1] == EffectView::Send(
        CmdView::SetQueue { tracks: entries_of(app.queue), start: 0, play: PlayState::Paused },
    ));
    assert(last.effects[1] == EffectView::Send(
        CmdView::SetQueue {
            tracks: entries_of(app.queue),
            start: (app.queue.len() - 1) as usize,
            play: PlayState::Paused,
        },
    ));
    assert(cleared.effects[1] == EffectView::Send(
        CmdView::SetQueue { tracks: Seq::empty(), start: 0, play: PlayState::Paused },
    ));
}

/// Which albums the tracks of a queue are of.
pub open spec fn albums_in(queue: Seq<QueueItem>) -> Seq<u64> {
    Seq::new(queue.len(), |k: int| queue[k].album_id)
}

/// A shuffled queue is the same tracks in another order. Shuffling the others carries on with the playing track,
/// wherever it comes to stand; shuffling all rests at the first, paused.
pub proof fn law_a_shuffle_reorders_the_queue(app: AppView, grouping: Grouping, scope: Scope, now: Nanos, turn: Turn)
    requires
        turns(app, Msg::Shuffle { grouping, scope }, now, turn),
        app.current < app.queue.len() <= usize::MAX,
    ensures
        turn.app.queue.len() == app.queue.len(),
        exists|seed: u64|
            #![trigger shuffled(albums_in(app.queue), app.current, grouping, scope, seed)]
            {
                let order = shuffled(albums_in(app.queue), app.current, grouping, scope, seed);
                &&& order.len() == app.queue.len()
                &&& order.no_duplicates()
                &&& forall|k: int|
                    0 <= k < order.len() ==> (#[trigger] order[k]) < app.queue.len() && turn.app.queue[k]
                        == app.queue[order[k] as int]
            },
        scope == Scope::Others ==> {
            &&& turn.app.queue[turn.app.current as int] == app.queue[app.current as int]
            &&& turn.effects[0] matches EffectView::Send(CmdView::Reorder { tracks, current }) && are_entries(
                tracks,
                turn.app.queue,
            ) && current == turn.app.current
        },
        scope == Scope::All ==> {
            &&& turn.app.current == 0
            &&& turn.effects[0] matches EffectView::Send(CmdView::SetQueue { tracks, start, play }) && are_entries(
                tracks,
                turn.app.queue,
            ) && start == 0 && play == PlayState::Paused
        },
        turn.app == (AppView { queue: turn.app.queue, current: turn.app.current, modal: turn.app.modal, ..app }),
{
    reveal(queue_turns);
    let seed = choose|seed: u64| turn == #[trigger] app.shuffling(grouping, scope, seed);
    let ids = app.queue.map_values(|item: QueueItem| item.album_id);
    assert(ids == albums_in(app.queue));
    let order = shuffled(ids, app.current, grouping, scope, seed);
    law_shuffle_is_a_permutation(ids, app.current, grouping, scope, seed);
    assert forall|k: int| 0 <= k < order.len() implies (#[trigger] order[k]) < app.queue.len() by {
        assert(order.contains(order[k]));
    }
    assert(turn.app.queue =~= Seq::new(order.len(), |k: int| app.queue[order[k] as int]));
    if scope == Scope::Others {
        crate::promises::law_shuffling_the_others_keeps_the_playing_track(app, grouping, seed);
    }
}

/// Searching for something shows what is found: of all albums those that the filter lets through, afresh. Typing
/// in the library goes on with what was searched for.
pub proof fn law_searching_shows_what_is_found(app: AppView, text: String, now: Nanos, searched: Turn, typed: Turn)
    requires
        turns(app, Msg::SearchChanged(text), now, searched),
        turns(app, Msg::SearchTyped(text), now, typed),
    ensures
        ({
            let filter = FilterView { search: text@, ..app.filter };
            let grown = FilterView { search: app.filter.search + text@, ..app.filter };
            &&& searched.app == (AppView { filter, selected: None, filtered: searched.app.filtered, ..app })
            &&& is_filtered(searched.app.filtered, app.albums, filter, app.sort)
            &&& typed.app == (AppView { filter: grown, selected: None, filtered: typed.app.filtered, ..app })
            &&& is_filtered(typed.app.filtered, app.albums, grown, app.sort)
            &&& typed.effects == seq![EffectView::FocusSearch]
        }),
{
    reveal(browse_turns);
}

/// Clearing the filters shows all albums, and closes what they are picked in.
pub proof fn law_clearing_the_filters_shows_all(app: AppView, now: Nanos, turn: Turn)
    requires
        turns(app, Msg::ClearFilters, now, turn),
    ensures
        turn.app.filter == (FilterView { genre: None, artist: None, search: Seq::empty() }),
        is_filtered(turn.app.filtered, app.albums, turn.app.filter, app.sort),
        !(turn.app.modal matches Some(ModalView::Picker(_))),
        !(turn.app.modal matches Some(ModalView::Sort(_))),
        turn.app.albums == app.albums && turn.app.queue == app.queue && turn.app.screen == app.screen,
        turn.effects == seq![EffectView::Unfocus],
{
    reveal(browse_turns);
}

/// What shows the views: each view by its name, the search in the library, and Tab the other view.
pub proof fn law_views_are_shown(app: AppView, screen: Screen, zoom: Zoom, backwards: bool, now: Nanos, turn: Turn)
    ensures
        turns(app, Msg::Show(screen), now, turn) ==> turn.app == (AppView { screen, ..app }) && turn.effects.len() == 0,
        turns(app, Msg::FocusSearch, now, turn) ==> turn.app == (AppView { screen: Screen::Library, ..app })
            && turn.effects == seq![EffectView::FocusSearch],
        turns(app, Msg::Zoom(zoom), now, turn) ==> turn.app == app && turn.effects == seq![EffectView::Zoom(zoom)],
        turns(app, Msg::TabPressed { backwards }, now, turn) ==> turn.app == app && turn.effects == seq![
            EffectView::AskFocus {
                backwards,
                otherwise: if app.screen == Screen::Library {
                    Screen::Player
                } else {
                    Screen::Library
                },
            },
        ],
{
    reveal(browse_turns);
}

/// The menus: an album's tracks, from the first on, and the player's actions; closing takes either away.
pub proof fn law_menus_open_and_close(app: AppView, cell: usize, selected: Option<usize>, now: Nanos, turn: Turn)
    ensures
        turns(app, Msg::OpenTrackMenu(cell), now, turn) && cell < app.filtered.len() ==> turn.app == (AppView {
            modal: Some(ModalView::Tracks(TrackMenu { album: app.filtered[cell as int], selected: 0 })),
            hires: turn.app.hires,
            ..app
        }),
        turns(app, Msg::OpenActionsMenu, now, turn) ==> turn.app == (AppView { modal: Some(ModalView::Actions), ..app }),
        turns(app, Msg::CloseModal, now, turn) ==> turn.app == (AppView { modal: None, ..app }) && turn.effects.len()
            == 0,
        turns(app, Msg::AlbumSelected(selected), now, turn) ==> turn.app == (AppView { selected, ..app }),
{
    reveal(browse_turns);
    reveal(menu_turns);
}

/// A picker opens on all values of its subject, and shows those that match what is typed into it, from the top.
pub proof fn law_a_picker_shows_what_matches(
    app: AppView,
    subject: PickerSubject,
    query: String,
    now: Nanos,
    open: Turn,
    typed: Turn,
)
    requires
        turns(app, Msg::OpenPicker(subject), now, open),
        turns(open.app, Msg::PickerQuery(query), now, typed),
    ensures
        open.app.modal matches Some(ModalView::Picker(picker)) && picker.subject == subject && picker.query.len() == 0
            && picker.selected == 0 && are_picker_matches(picker.found, app.albums, subject, Seq::empty()),
        typed.app.modal matches Some(ModalView::Picker(picker)) && picker.subject == subject && picker.query == query@
            && picker.selected == 0 && are_picker_matches(picker.found, app.albums, subject, query@),
        open.app == (AppView { modal: open.app.modal, ..app }),
        typed.app == (AppView { modal: typed.app.modal, ..app }),
        open.effects == seq![EffectView::FocusPicker],
{
    reveal(picker_turns);
}

/// Picking a value filters by it, and the topmost row by none; the other filters stay, and the picker closes. By
/// its row or by the selection is the same.
pub proof fn law_picking_a_value_filters_by_it(app: AppView, picker: PickerView, slot: usize, now: Nanos, turn: Turn)
    requires
        app.modal == Some(ModalView::Picker(picker)),
        turns(app, Msg::PickerChoose(slot), now, turn) || (turns(app, Msg::PickerPick, now, turn) && picker.selected
            == slot),
        slot <= picker.found.len(),
    ensures
        ({
            let value = if slot == 0 {
                None
            } else {
                Some(picker.found[slot - 1]@)
            };
            let filter = turn.app.filter;
            &&& turn.app.modal is None
            &&& filter.search == app.filter.search
            &&& picker.subject == PickerSubject::Genre ==> filter.genre == value && filter.artist == app.filter.artist
            &&& picker.subject == PickerSubject::Artist ==> filter.artist == value && filter.genre == app.filter.genre
            &&& is_filtered(turn.app.filtered, app.albums, filter, app.sort)
            &&& turn.app == (AppView {
                filter,
                modal: None,
                selected: None,
                filtered: turn.app.filtered,
                ..app
            })
        }),
{
    reveal(picker_turns);
}

/// Picking an order shows the albums in it, and closes the list of orders; it opens on the one that is used.
pub proof fn law_picking_an_order_sorts_by_it(app: AppView, slot: usize, now: Nanos, turn: Turn, open: Turn)
    requires
        turns(app, Msg::SortChoose(slot), now, turn),
        turns(app, Msg::OpenSort, now, open),
        slot < SortOrder::every().len(),
    ensures
        turn.app.sort == SortOrder::every()[slot as int],
        turn.app.modal is None,
        is_filtered(turn.app.filtered, app.albums, app.filter, turn.app.sort),
        turn.app.filter == app.filter && turn.app.albums == app.albums && turn.app.queue == app.queue,
        open.app.modal matches Some(ModalView::Sort(menu)) && menu.selected < SortOrder::every().len()
            && SortOrder::every()[menu.selected as int] == app.sort,
{
    reveal(picker_turns);
    crate::sort::law_every_order_is_offered(app.sort);
    let every = SortOrder::every();
    let j = choose|j: int| 0 <= j < every.len() && every[j] == app.sort;
    assert(every[j] == app.sort);
    lemma_slot_of_order(app.sort, 0);
}

/// Tab goes round the filters: the order, the genre, the artist, the search; Shift+Tab the other way.
pub proof fn law_tab_goes_round_the_filters(app: AppView, backwards: bool, now: Nanos, turn: Turn)
    requires
        turns(app, Msg::CycleFilterInput { backwards }, now, turn),
    ensures
        ({
            let genre = turn.app.modal matches Some(ModalView::Picker(picker)) && picker.subject == PickerSubject::Genre;
            let artist = turn.app.modal matches Some(ModalView::Picker(picker)) && picker.subject
                == PickerSubject::Artist;
            let order = turn.app.modal matches Some(ModalView::Sort(_));
            let search = turn.app.modal is None && turn.effects == seq![EffectView::FocusSearch];
            match app.modal {
                Some(ModalView::Sort(_)) => if backwards {
                    search
                } else {
                    genre
                },
                Some(ModalView::Picker(picker)) => match picker.subject {
                    PickerSubject::Genre => if backwards {
                        order
                    } else {
                        artist
                    },
                    PickerSubject::Artist => if backwards {
                        genre
                    } else {
                        search
                    },
                },
                _ => if backwards {
                    artist
                } else {
                    order
                },
            }
        }),
{
    reveal(picker_turns);
}

/// Cover art goes to those of its albums that still choose it, and to the queue's tracks of these; all others stay
/// as they are.
pub proof fn law_covers_go_where_they_are_chosen(app: AppView, ids: Vec<u64>, art: CoverArt, now: Nanos, turn: Turn, k: int)
    requires
        turns(app, Msg::Library(ScanEvent::Cover { albums: ids, art }), now, turn),
        0 <= k < app.albums.len(),
        forall|i: int, j: int|
            0 <= i < j < app.albums.len() ==> (#[trigger] app.albums[i]).id != (#[trigger] app.albums[j]).id,
    ensures
        ({
            let before = app.albums[k];
            let after = turn.app.albums[k];
            &&& turn.app.albums.len() == app.albums.len()
            &&& ids@.contains(before.id) && before.cover_id == Some(art.id) ==> after == (Album {
                cover: Some(art),
                accent: Some(art.accent),
                ..before
            })
            &&& !(ids@.contains(before.id) && before.cover_id == Some(art.id)) ==> after == before
        }),
        turn.app.queue.len() == app.queue.len(),
        forall|i: int|
            0 <= i < app.queue.len() && (#[trigger] app.queue[i]).album_id == app.albums[k].id ==> turn.app.queue[i]
                == if ids@.contains(app.albums[k].id) && app.albums[k].cover_id == Some(art.id) {
                QueueItem { cover: Some(art), accent: Some(art.accent), ..app.queue[i] }
            } else {
                app.queue[i]
            },
{
    reveal(scan_turns);
    let id = app.albums[k].id;
    if is_accepted(app.albums, ids@, art, id) {
        let l = choose|l: int|
            0 <= l < app.albums.len() && (#[trigger] app.albums[l]).id == id && takes_art(app.albums[l], ids@, art);
        assert(l == k) by {
            if l < k {
                assert(app.albums[l].id != app.albums[k].id);
            } else if k < l {
                assert(app.albums[k].id != app.albums[l].id);
            }
        }
    }
}

/// Once a scan is done, the library is what the scan found: the albums that it did not find are gone, and the
/// others are left in their order. The thumbnails that are still shown are kept.
pub proof fn law_a_scan_leaves_what_it_found(app: AppView, ids: Vec<u64>, now: Nanos, turn: Turn)
    requires
        turns(app, Msg::Library(ScanEvent::Done { album_ids: ids }), now, turn),
    ensures
        turn.app.albums == app.albums.filter(|album: Album| ids@.contains(album.id)),
        turn.app.scan == ScanState::Complete,
        is_filtered(turn.app.filtered, turn.app.albums, app.filter, app.sort),
        turn.app.queue == app.queue && turn.app.current == app.current,
        turn.effects.contains(EffectView::SaveIndex) <==> app.index_dirty || turn.app.albums.len() != app.albums.len(),
        !turn.app.index_dirty,
{
    reveal(scan_turns);
    lemma_still_there(app.albums, ids@);
    if app.index_dirty || turn.app.albums.len() != app.albums.len() {
        assert(turn.effects[1] == EffectView::SaveIndex);
    }
}

proof fn lemma_still_there(albums: Seq<Album>, ids: Seq<u64>)
    ensures
        still_there(albums, ids) == albums.filter(|album: Album| ids.contains(album.id)),
    decreases albums.len(),
{
    reveal(Seq::filter);
    if albums.len() > 0 {
        lemma_still_there(albums.drop_last(), ids);
    }
}

/// A rescan starts where none is running, of the same place, and leaves everything as it is.
pub proof fn law_a_rescan_starts_once(app: AppView, now: Nanos, turn: Turn)
    requires
        turns(app, Msg::Rescan, now, turn),
    ensures
        app.scan == ScanState::Scanning ==> turn.app == app && turn.effects.len() == 0,
        app.scan == ScanState::Complete ==> {
            &&& turn.app == (AppView { scan: ScanState::Scanning, ..app })
            &&& turn.effects.len() == 1
            &&& turn.effects[0] matches EffectView::Scan(options) && options.root == app.places.music_dir
                && options.cache_file == app.places.cache_file && options.covers_dir == app.places.covers_dir
        },
{
    reveal(scan_turns);
}

proof fn lemma_slot_of_order(order: SortOrder, k: int)
    requires
        0 <= k <= SortOrder::every().len(),
        exists|j: int| k <= j < SortOrder::every().len() && SortOrder::every()[j] == order,
    ensures
        k <= crate::update::slot_of_order(order, k) < SortOrder::every().len(),
        SortOrder::every()[crate::update::slot_of_order(order, k)] == order,
    decreases SortOrder::every().len() - k,
{
    if SortOrder::every()[k] != order {
        lemma_slot_of_order(order, k + 1);
    }
}

proof fn lemma_touched(hires: HiResView, used: u64, id: u64)
    ensures
        resident(hires.queried(used).entries, id) == resident(hires.entries, id),
{
    let entries = hires.entries;
    let after = hires.queried(used).entries;
    if resident(entries, used) {
        let k = slot_of(entries, used);
        assert(is_at(entries, used, k));
        if resident(entries, id) {
            let l = slot_of(entries, id);
            assert(is_at(entries, id, l));
            if l < k {
                assert(is_at(after, id, l));
            } else if l > k {
                assert(is_at(after, id, l - 1));
            } else {
                assert(is_at(after, id, after.len() - 1));
            }
        }
        if resident(after, id) {
            let l = slot_of(after, id);
            assert(is_at(after, id, l));
            if l == after.len() - 1 {
                assert(is_at(entries, id, k));
            } else if l < k {
                assert(is_at(entries, id, l));
            } else {
                assert(is_at(entries, id, l + 1));
            }
        }
    }
}

proof fn lemma_warmed(hires: HiResView, queue: Seq<QueueItem>, runs: Seq<Range<usize>>, lo: int, k: int, r: int, id: u64)
    ensures
        ({
            let (after, effects) = warmed(hires, queue, runs, lo, k);
            &&& resident(after.entries, id) == resident(hires.entries, id)
            &&& hires.pending.contains(id) ==> after.pending.contains(id)
            &&& after.pending.contains(id) && !hires.pending.contains(id) ==> exists|e: int|
                0 <= e < effects.len() && (#[trigger] effects[e] matches EffectView::Decode { id: asked, file } && asked == id)
            &&& lo <= r < k && (queue[runs[r].start as int].cover matches Some(art) && art.id == id) ==> resident(
                hires.entries,
                id,
            ) || after.pending.contains(id)
        }),
    decreases k - lo,
{
    if k > lo {
        lemma_warmed(hires, queue, runs, lo, k - 1, r, id);
        let (before, asked) = warmed(hires, queue, runs, lo, k - 1);
        let (after, effects) = warmed(hires, queue, runs, lo, k);
        match queue[runs[k - 1].start as int].cover {
            Some(art) => {
                lemma_touched(before, art.id, id);
                if after.pending.contains(id) && !hires.pending.contains(id) {
                    if before.pending.contains(id) {
                        let e = choose|e: int|
                            0 <= e < asked.len() && (#[trigger] asked[e] matches EffectView::Decode { id: a, file } && a == id);
                        assert(effects[e] == asked[e]);
                    } else {
                        assert(effects[asked.len() as int] == EffectView::Decode { id: art.id, file: art.file });
                    }
                }
            },
            None => {},
        }
    }
}

/// When a track starts, the covers of the albums around its own are asked for in full, eight back and ten on, as
/// far as they are not there or on their way.
pub proof fn law_covers_nearby_are_asked_for(app: AppView, ix: usize, len: Option<Nanos>, now: Nanos, turn: Turn, r: int)
    requires
        turns(app, Msg::Player(Event::TrackStarted { ix, len }), now, turn),
        ix < app.queue.len() <= usize::MAX,
        0 <= r < runs_of(app.queue).len(),
        run_index(runs_of(app.queue), ix as int) - 8 <= r <= run_index(runs_of(app.queue), ix as int) + 10,
        app.queue[runs_of(app.queue)[r].start as int].cover is Some,
    ensures
        ({
            let art = app.queue[runs_of(app.queue)[r].start as int].cover->0;
            let there = resident(app.hires.entries, art.id) || app.hires.pending.contains(art.id);
            !there ==> exists|e: int|
                0 <= e < turn.effects.len() && (#[trigger] turn.effects[e] matches EffectView::Decode { id, file } && id
                    == art.id)
        }),
{
    reveal(transport_turns);
    let runs = runs_of(app.queue);
    let center = run_index(runs, ix as int);
    let art = app.queue[runs[r].start as int].cover->0;
    lemma_next_run(app.queue, ix as int);
    let lo = if center >= 8 {
        center - 8
    } else {
        0
    };
    let hi = if center + 10 < runs.len() {
        center + 10
    } else {
        runs.len() - 1
    };
    lemma_warmed(app.hires, app.queue, runs, lo, hi + 1, r, art.id);
    let asked = warmed(app.hires, app.queue, runs, lo, hi + 1).1;
    if !(resident(app.hires.entries, art.id) || app.hires.pending.contains(art.id)) {
        let e = choose|e: int|
            0 <= e < asked.len() && (#[trigger] asked[e] matches EffectView::Decode { id: a, file } && a == art.id);
        assert(turn.effects[e + 2] == asked[e]);
    }
}

/// An album that is about to be played has its cover asked for in full, unless it is there or on its way; once it
/// has come it is kept.
pub proof fn law_a_cover_is_loaded_ahead(app: AppView, cell: usize, now: Nanos, turn: Turn)
    requires
        turns(app, Msg::PreloadAlbum(cell), now, turn),
        cell < app.filtered.len(),
        app.filtered[cell as int] < app.albums.len(),
        app.albums[app.filtered[cell as int] as int].cover is Some,
    ensures
        ({
            let art = app.albums[app.filtered[cell as int] as int].cover->0;
            let there = resident(app.hires.entries, art.id) || app.hires.pending.contains(art.id);
            &&& turn.app == (AppView { hires: turn.app.hires, ..app })
            &&& !there ==> turn.effects == seq![EffectView::Decode { id: art.id, file: art.file }]
                && turn.app.hires.pending.contains(art.id)
            &&& there ==> turn.effects.len() == 0
        }),
{
    reveal(browse_turns);
}

/// The thumbnails that stay after a scan are those that an album or the queue shows; a rescan is told which covers
/// the library has.
pub proof fn law_shown_thumbnails_stay(app: AppView, ids: Vec<u64>, id: u64, now: Nanos, done: Turn, again: Turn)
    requires
        turns(app, Msg::Library(ScanEvent::Done { album_ids: ids }), now, done),
        turns(app, Msg::Rescan, now, again),
    ensures
        done.effects[0] matches EffectView::RetireCovers { live } && (live.contains(id) <==> (exists|k: int|
            0 <= k < done.app.albums.len() && ((#[trigger] done.app.albums[k]).cover matches Some(art) && art.id == id))
            || (exists|k: int|
            0 <= k < app.queue.len() && ((#[trigger] app.queue[k]).cover matches Some(art) && art.id == id))),
        app.scan == ScanState::Complete ==> (again.effects[0] matches EffectView::Scan(options)
            && (options.known_covers.contains(id) <==> exists|k: int|
            0 <= k < app.albums.len() && ((#[trigger] app.albums[k]).cover matches Some(art) && art.id == id))),
{
    reveal(scan_turns);
}

} // verus!
