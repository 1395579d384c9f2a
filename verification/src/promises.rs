//! What holds of the model whatever the messages: that nothing is lost when the program ends, that the
//! engine knows the queue, and that what a scan reports ends up where it belongs.

use crate::library::{Album, ScanEvent};
use crate::model::{entries_of, items_of, AppView, EffectView, QueueItem};
use crate::player::{CmdView, Entry, Event, Nanos};
use crate::queue::{law_shuffle_is_a_permutation, shuffled, Grouping, Scope};
use crate::sort::{is_alphabetically_before, law_texts_compare_at_their_first_difference, lemma_alphabetically_before};
use crate::text::lowercase;
use crate::update::{
    album_with, browse_turns, comes_after, menu_turns, paths_of, picker_turns, place_for, queue_turns, says_nothing_new,
    scan_turns, seek_target, slot_in, topic_of, transport_turns, turns, warmed, with_cover_of, Msg, Seek, SeekDir,
    Topic, Turn,
};
use vstd::prelude::*;

verus! {

/// The tracks of some entries.
pub open spec fn tracks_of(entries: Seq<Entry>) -> Seq<String> {
    entries.map_values(|entry: Entry| entry.path)
}

/// The tracks that the engine has once it has done what some effects ask of it.
pub open spec fn engine_tracks(tracks: Seq<String>, effects: Seq<EffectView>) -> Seq<String>
    decreases effects.len(),
{
    if effects.len() == 0 {
        tracks
    } else {
        let before = engine_tracks(tracks, effects.drop_last());
        match effects.last() {
            EffectView::Send(CmdView::SetQueue { tracks, .. }) => tracks_of(tracks),
            EffectView::Send(CmdView::Append { tracks }) => before + tracks_of(tracks),
            EffectView::Send(CmdView::Reorder { tracks, .. }) => tracks_of(tracks),
            _ => before,
        }
    }
}

proof fn lemma_tracks_of(items: Seq<QueueItem>)
    ensures
        tracks_of(entries_of(items)) == paths_of(items),
{
    assert(tracks_of(entries_of(items)) =~= paths_of(items));
}

/// An effect that says nothing of the queue.
spec fn is_quiet(effect: EffectView) -> bool {
    match effect {
        EffectView::Send(CmdView::SetQueue { .. }) => false,
        EffectView::Send(CmdView::Append { .. }) => false,
        EffectView::Send(CmdView::Reorder { .. }) => false,
        _ => true,
    }
}

proof fn lemma_quiet(tracks: Seq<String>, effects: Seq<EffectView>)
    requires
        forall|k: int| 0 <= k < effects.len() ==> is_quiet(#[trigger] effects[k]),
    ensures
        engine_tracks(tracks, effects) == tracks,
    decreases effects.len(),
{
    if effects.len() > 0 {
        let init = effects.drop_last();
        assert forall|k: int| 0 <= k < init.len() implies is_quiet(#[trigger] init[k]) by {
            assert(init[k] == effects[k]);
        }
        lemma_quiet(tracks, init);
        assert(is_quiet(effects[effects.len() - 1]));
    }
}

/// Where the `j`-th of some effects is the only one that speaks of the queue.
proof fn lemma_one_speaks(tracks: Seq<String>, effects: Seq<EffectView>, j: int)
    requires
        0 <= j < effects.len(),
        forall|k: int| 0 <= k < effects.len() && k != j ==> is_quiet(#[trigger] effects[k]),
    ensures
        engine_tracks(tracks, effects) == (match effects[j] {
            EffectView::Send(CmdView::SetQueue { tracks, .. }) => tracks_of(tracks),
            EffectView::Send(CmdView::Append { tracks: more }) => tracks + tracks_of(more),
            EffectView::Send(CmdView::Reorder { tracks, .. }) => tracks_of(tracks),
            _ => tracks,
        }),
    decreases effects.len(),
{
    let init = effects.drop_last();
    let n = effects.len();
    if j == n - 1 {
        assert forall|k: int| 0 <= k < init.len() implies is_quiet(#[trigger] init[k]) by {
            assert(init[k] == effects[k]);
        }
        lemma_quiet(tracks, init);
    } else {
        assert forall|k: int| 0 <= k < init.len() && k != j implies is_quiet(#[trigger] init[k]) by {
            assert(init[k] == effects[k]);
        }
        lemma_one_speaks(tracks, init, j);
        assert(is_quiet(effects[n - 1]));
    }
}

/// The engine is told of every change of the queue, and everything that a session restores is saved when
/// it changes.
pub open spec fn keeps_up(app: AppView, turn: Turn) -> bool {
    &&& engine_tracks(paths_of(app.queue), turn.effects) == paths_of(turn.app.queue)
    &&& paths_of(turn.app.queue) != paths_of(app.queue) ==> turn.effects.contains(turn.app.playlist_saved())
    &&& turn.app.current != app.current || turn.app.repeat != app.repeat || turn.app.sort != app.sort
        ==> turn.effects.contains(turn.app.player_saved())
}

/// A turn that leaves alone what a session restores, and says nothing of the queue.
spec fn is_idle(app: AppView, turn: Turn) -> bool {
    &&& paths_of(turn.app.queue) == paths_of(app.queue)
    &&& turn.app.current == app.current
    &&& turn.app.repeat == app.repeat
    &&& turn.app.sort == app.sort
    &&& forall|k: int| 0 <= k < turn.effects.len() ==> is_quiet(#[trigger] turn.effects[k])
}

proof fn lemma_idle(app: AppView, turn: Turn)
    requires
        is_idle(app, turn),
    ensures
        keeps_up(app, turn),
{
    lemma_quiet(paths_of(app.queue), turn.effects);
}

proof fn lemma_playing(app: AppView, items: Seq<QueueItem>)
    ensures
        keeps_up(app, app.playing(items)),
{
    let turn = app.playing(items);
    lemma_tracks_of(items);
    lemma_one_speaks(paths_of(app.queue), turn.effects, 0);
    assert(turn.effects[2] == turn.app.playlist_saved());
    assert(turn.effects[3] == turn.app.player_saved());
}

proof fn lemma_queueing(app: AppView, items: Seq<QueueItem>)
    ensures
        keeps_up(app, app.queueing(items)),
{
    let turn = app.queueing(items);
    lemma_tracks_of(items);
    lemma_one_speaks(paths_of(app.queue), turn.effects, 0);
    assert(turn.effects[1] == turn.app.playlist_saved());
    assert(paths_of(app.queue + items) =~= paths_of(app.queue) + paths_of(items));
}

proof fn lemma_warmed(
    hires: crate::hires::HiResView,
    queue: Seq<QueueItem>,
    runs: Seq<core::ops::Range<usize>>,
    lo: int,
    k: int,
)
    ensures
        forall|j: int| 0 <= j < warmed(hires, queue, runs, lo, k).1.len() ==> is_quiet(
            #[trigger] warmed(hires, queue, runs, lo, k).1[j],
        ),
    decreases k - lo,
{
    if k > lo {
        lemma_warmed(hires, queue, runs, lo, k - 1);
        let before = warmed(hires, queue, runs, lo, k - 1).1;
        let after = warmed(hires, queue, runs, lo, k).1;
        assert forall|j: int| 0 <= j < after.len() implies is_quiet(#[trigger] after[j]) by {
            if j < before.len() {
                assert(after[j] == before[j]);
            }
        }
    }
}

proof fn lemma_ensuring(app: AppView)
    ensures
        forall|j: int| 0 <= j < app.ensuring().effects.len() ==> is_quiet(#[trigger] app.ensuring().effects[j]),
        app.ensuring().app == (AppView { hires: app.ensuring().app.hires, ..app }),
{
    let runs = crate::model::runs_of(app.queue);
    let center = crate::model::run_index(runs, app.current as int);
    let lo = if center >= crate::update::ENSURE_PREV {
        center - crate::update::ENSURE_PREV
    } else {
        0
    };
    let hi = if center + crate::update::ENSURE_NEXT < runs.len() {
        center + crate::update::ENSURE_NEXT
    } else {
        runs.len() - 1
    };
    lemma_warmed(app.hires, app.queue, runs, lo, hi + 1);
}

proof fn lemma_scans_keep_up(app: AppView, msg: Msg, turn: Turn)
    requires
        scan_turns(app, msg, turn),
    ensures
        keeps_up(app, turn),
{
    reveal(scan_turns);
    match msg {
        Msg::Library(ScanEvent::Album(album)) => {
            assert(paths_of(turn.app.queue) =~= paths_of(app.queue));
            lemma_idle(app, turn);
        },
        Msg::Library(ScanEvent::Cover { albums, art }) => {
            let covered = app.covered(albums@, art);
            lemma_ensuring(covered);
            assert(paths_of(turn.app.queue) =~= paths_of(app.queue));
            lemma_idle(app, turn);
        },
        _ => {
            lemma_idle(app, turn);
        },
    }
}

proof fn lemma_browsing_keeps_up(app: AppView, msg: Msg, turn: Turn)
    requires
        browse_turns(app, msg, turn),
    ensures
        keeps_up(app, turn),
{
    reveal(browse_turns);
    match msg {
        Msg::PlayAlbum(cell) if app.album_at(cell) is Some => {
            lemma_playing(app, items_of(app.albums[app.album_at(cell)->0]));
        },
        Msg::QueueAlbum(cell) if app.album_at(cell) is Some => {
            lemma_queueing(app, items_of(app.albums[app.album_at(cell)->0]));
        },
        Msg::PlayAll => {
            let items = crate::update::shown_items(app.albums, app.filtered, app.filtered.len() as int);
            if items.len() > 0 {
                lemma_playing(app, items);
            } else {
                lemma_idle(app, turn);
            }
        },
        Msg::QueueAll => {
            let items = crate::update::shown_items(app.albums, app.filtered, app.filtered.len() as int);
            if items.len() > 0 {
                lemma_queueing(app, items);
            } else {
                lemma_idle(app, turn);
            }
        },
        _ => {
            lemma_idle(app, turn);
        },
    }
}

proof fn lemma_sort_picked_keeps_up(app: AppView, slot: usize, turn: Turn)
    requires
        app.sort_picked(slot, turn),
    ensures
        keeps_up(app, turn),
{
    lemma_quiet(paths_of(app.queue), turn.effects);
    if slot < crate::sort::SortOrder::every().len() {
        assert(turn.effects[0] == turn.app.player_saved());
    }
}

proof fn lemma_picking_keeps_up(app: AppView, msg: Msg, turn: Turn)
    requires
        picker_turns(app, msg, turn),
    ensures
        keeps_up(app, turn),
{
    reveal(picker_turns);
    match msg {
        Msg::SortChoose(slot) => {
            lemma_sort_picked_keeps_up(app, slot, turn);
        },
        Msg::SortPick => {
            match app.modal {
                Some(crate::model::ModalView::Sort(menu)) => {
                    lemma_sort_picked_keeps_up(app, menu.selected, turn);
                },
                _ => {
                    lemma_idle(app, turn);
                },
            }
        },
        _ => {
            lemma_idle(app, turn);
        },
    }
}

proof fn lemma_menus_keep_up(app: AppView, msg: Msg, turn: Turn)
    requires
        menu_turns(app, msg, turn),
    ensures
        keeps_up(app, turn),
{
    reveal(menu_turns);
    let closed = AppView { modal: None, ..app };
    match msg {
        Msg::MenuQueue => {
            match app.modal {
                Some(crate::model::ModalView::Tracks(menu)) if app.item_at(menu.album, menu.selected) is Some => {
                    let items = seq![app.item_at(menu.album, menu.selected)->0];
                    lemma_queueing(app, items);
                    let queued = app.queueing(items);
                    let n = turn.effects.len();
                    assert(turn.effects[n - 1] == turn.app.playlist_saved());
                    lemma_tracks_of(items);
                    lemma_one_speaks(paths_of(app.queue), turn.effects, 0);
                    assert(paths_of(app.queue + items) =~= paths_of(app.queue) + paths_of(items));
                },
                _ => {
                    lemma_idle(app, turn);
                },
            }
        },
        Msg::MenuPlay => {
            match app.modal {
                Some(crate::model::ModalView::Tracks(menu)) if app.item_at(menu.album, menu.selected) is Some => {
                    lemma_playing(closed, seq![app.item_at(menu.album, menu.selected)->0]);
                },
                _ => {
                    lemma_idle(app, turn);
                },
            }
        },
        Msg::PlayTrack { album, track } if app.item_at(album, track) is Some => {
            lemma_playing(closed, seq![app.item_at(album, track)->0]);
        },
        Msg::QueueTrack { album, track } if app.item_at(album, track) is Some => {
            lemma_queueing(app, seq![app.item_at(album, track)->0]);
        },
        _ => {
            lemma_idle(app, turn);
        },
    }
}

proof fn lemma_shuffling_keeps_up(app: AppView, grouping: Grouping, scope: Scope, seed: u64)
    ensures
        keeps_up(app, app.shuffling(grouping, scope, seed)),
{
    let turn = app.shuffling(grouping, scope, seed);
    if app.queue.len() == 0 {
        lemma_idle(app, turn);
    } else {
        lemma_tracks_of(turn.app.queue);
        lemma_one_speaks(paths_of(app.queue), turn.effects, 0);
        assert(turn.effects[2] == turn.app.playlist_saved());
        assert(turn.effects[3] == turn.app.player_saved());
    }
}

proof fn lemma_queue_messages_keep_up(app: AppView, msg: Msg, turn: Turn)
    requires
        queue_turns(app, msg, turn),
    ensures
        keeps_up(app, turn),
{
    reveal(queue_turns);
    match msg {
        Msg::CycleRepeat => {
            lemma_quiet(paths_of(app.queue), turn.effects);
            assert(turn.effects[1] == turn.app.player_saved());
        },
        Msg::Shuffle { grouping, scope } => {
            let seed = choose|seed: u64| turn == #[trigger] app.shuffling(grouping, scope, seed);
            lemma_shuffling_keeps_up(app, grouping, scope, seed);
        },
        Msg::RestAt(edge) => {
            if app.queue.len() == 0 {
                lemma_idle(app, turn);
            } else {
                lemma_tracks_of(app.queue);
                lemma_one_speaks(paths_of(app.queue), turn.effects, 1);
                assert(turn.effects[2] == turn.app.player_saved());
            }
        },
        _ => {
            if app.queue.len() == 0 {
                lemma_idle(app, turn);
            } else {
                lemma_one_speaks(paths_of(app.queue), turn.effects, 1);
                assert(tracks_of(Seq::empty()) =~= paths_of(turn.app.queue));
                assert(turn.effects[2] == turn.app.playlist_saved());
                assert(turn.effects[3] == turn.app.player_saved());
            }
        },
    }
}

proof fn lemma_transport_keeps_up(app: AppView, msg: Msg, now: Nanos, turn: Turn)
    requires
        transport_turns(app, msg, now, turn),
    ensures
        keeps_up(app, turn),
{
    reveal(transport_turns);
    match msg {
        Msg::Player(Event::TrackStarted { ix, len }) => {
            let started = AppView { current: ix, len, pos: 0, pending_seek: None, ..app };
            lemma_ensuring(started);
            assert(forall|k: int| 0 <= k < turn.effects.len() ==> is_quiet(#[trigger] turn.effects[k]));
            lemma_quiet(paths_of(app.queue), turn.effects);
            assert(turn.effects[turn.effects.len() - 1] == turn.app.player_saved());
        },
        _ => {
            lemma_idle(app, turn);
        },
    }
}

/// Whatever the message: the engine is told of every change of the queue, so that it always has the tracks
/// that the model has; and a change of the queue, of the current track, of the repeat mode or of the sort
/// order is saved at once, so that a crash or an exit at any point loses nothing.
pub proof fn law_nothing_is_lost(app: AppView, msg: Msg, now: Nanos, turn: Turn)
    requires
        turns(app, msg, now, turn),
    ensures
        keeps_up(app, turn),
{
    match topic_of(msg) {
        Topic::Scan => lemma_scans_keep_up(app, msg, turn),
        Topic::Browse => lemma_browsing_keeps_up(app, msg, turn),
        Topic::Pick => lemma_picking_keeps_up(app, msg, turn),
        Topic::Menu => lemma_menus_keep_up(app, msg, turn),
        Topic::Queue => lemma_queue_messages_keep_up(app, msg, turn),
        Topic::Transport => lemma_transport_keeps_up(app, msg, now, turn),
    }
}

proof fn lemma_slot_in(order: Seq<usize>, slot: usize, k: int)
    requires
        0 <= k <= order.len(),
        exists|j: int| k <= j < order.len() && order[j] == slot,
    ensures
        k <= slot_in(order, slot, k) < order.len(),
        order[slot_in(order, slot, k)] == slot,
    decreases order.len() - k,
{
    if order[k] != slot {
        lemma_slot_in(order, slot, k + 1);
    }
}

/// Shuffling the others leaves the playing track playing: it is the current one before and after.
pub proof fn law_shuffling_the_others_keeps_the_playing_track(
    app: AppView,
    grouping: Grouping,
    seed: u64,
)
    requires
        app.current < app.queue.len() <= usize::MAX,
    ensures
        ({
            let after = app.shuffling(grouping, Scope::Others, seed).app;
            &&& after.queue.len() == app.queue.len()
            &&& after.current < after.queue.len()
            &&& after.queue[after.current as int] == app.queue[app.current as int]
        }),
{
    let ids = app.queue.map_values(|item: QueueItem| item.album_id);
    let order = shuffled(ids, app.current, grouping, Scope::Others, seed);
    law_shuffle_is_a_permutation(ids, app.current, grouping, Scope::Others, seed);
    assert(order.contains(app.current));
    let j = choose|j: int| 0 <= j < order.len() && order[j] == app.current;
    assert(order[j] == app.current);
    lemma_slot_in(order, app.current, 0);
}

/// A burst of relative seeks accumulates: two in the same direction go as far as one over both distances.
pub proof fn law_relative_seeks_accumulate(app: AppView, dir: SeekDir, a: Nanos, b: Nanos)
    requires
        a + b <= u64::MAX,
        app.len is Some ==> app.pos <= app.len->0,
    ensures
        app.sought(Seek::By(dir, a)).app.sought(Seek::By(dir, b)) == app.sought(
            Seek::By(dir, (a + b) as Nanos),
        ),
{
    let one = app.sought(Seek::By(dir, a)).app.sought(Seek::By(dir, b));
    let both = app.sought(Seek::By(dir, (a + b) as Nanos));
    assert(one.app == both.app);
    assert(one.effects =~= both.effects);
}

/// A seek never leaves the track.
pub proof fn law_seeks_stay_in_the_track(app: AppView, seek: Seek)
    requires
        app.len is Some,
    ensures
        app.sought(seek).app.pos <= app.len->0,
{
}

/// Until playback has reached (roughly) where a seek asked it to go, reports of where it is change nothing.
pub proof fn law_a_settling_seek_is_not_disturbed(app: AppView, seek: Seek, t: Nanos)
    requires
        crate::update::apart(t, seek_target(app.pos, app.len, seek)) > crate::update::SEEK_SETTLE,
    ensures
        ({
            let after = app.sought(seek).app;
            after.notified(Event::Progress(t)) == after.still()
        }),
{
}

/// No two albums of a library have the same id.
pub open spec fn ids_apart(albums: Seq<Album>) -> bool {
    forall|k: int, l: int|
        0 <= k < albums.len() && 0 <= l < albums.len() && k != l ==> (#[trigger] albums[k]).id != (
        #[trigger] albums[l]).id
}

proof fn lemma_album_with(albums: Seq<Album>, id: u64, k: int)
    requires
        0 <= k <= albums.len(),
    ensures
        match album_with(albums, id, k) {
            Some(ix) => k <= ix < albums.len() && albums[ix].id == id,
            None => forall|l: int| k <= l < albums.len() ==> (#[trigger] albums[l]).id != id,
        },
    decreases albums.len() - k,
{
    if k < albums.len() && albums[k].id != id {
        lemma_album_with(albums, id, k + 1);
    }
}

proof fn lemma_place_for(albums: Seq<Album>, album: Album, k: int)
    requires
        0 <= k <= albums.len(),
    ensures
        k <= place_for(albums, album, k) <= albums.len(),
        forall|l: int| k <= l < place_for(albums, album, k) ==> !comes_after(#[trigger] albums[l], album),
        place_for(albums, album, k) < albums.len() ==> comes_after(
            albums[place_for(albums, album, k)],
            album,
        ),
    decreases albums.len() - k,
{
    if k < albums.len() && !comes_after(albums[k], album) {
        lemma_place_for(albums, album, k + 1);
    }
}

/// The albums that a report leaves behind, and the album as it goes in.
spec fn report_parts(app: AppView, album: Album) -> (Seq<Album>, Album) {
    match album_with(app.albums, album.id, 0) {
        Some(ix) => (app.albums.remove(ix), with_cover_of(album, app.albums[ix])),
        None => (app.albums, album),
    }
}

proof fn lemma_report(app: AppView, album: Album)
    requires
        ids_apart(app.albums),
    ensures
        ({
            let (rest, new) = report_parts(app, album);
            &&& forall|l: int| 0 <= l < rest.len() ==> (#[trigger] rest[l]).id != album.id
            &&& ids_apart(rest)
            &&& ids_apart(rest.insert(place_for(rest, new, 0), new))
            &&& new.id == album.id
            &&& says_nothing_new(new, album)
        }),
{
    let albums = app.albums;
    let (rest, new) = report_parts(app, album);
    lemma_album_with(albums, album.id, 0);
    match album_with(albums, album.id, 0) {
        Some(ix) => {
            assert forall|l: int| 0 <= l < rest.len() implies (#[trigger] rest[l]).id != album.id by {
                if l < ix {
                    assert(rest[l] == albums[l]);
                } else {
                    assert(rest[l] == albums[l + 1]);
                }
            }
            assert forall|k: int, l: int| 0 <= k < rest.len() && 0 <= l < rest.len() && k != l implies (
            #[trigger] rest[k]).id != (#[trigger] rest[l]).id by {
                let a = if k < ix {
                    k
                } else {
                    k + 1
                };
                let b = if l < ix {
                    l
                } else {
                    l + 1
                };
                assert(rest[k] == albums[a]);
                assert(rest[l] == albums[b]);
            }
        },
        None => {},
    }
    lemma_place_for(rest, new, 0);
    let at = place_for(rest, new, 0);
    let all = rest.insert(at, new);
    assert forall|k: int, l: int| 0 <= k < all.len() && 0 <= l < all.len() && k != l implies (
    #[trigger] all[k]).id != (#[trigger] all[l]).id by {
        let a = if k < at {
            k
        } else {
            k - 1
        };
        let b = if l < at {
            l
        } else {
            l - 1
        };
        if k != at {
            assert(all[k] == rest[a]);
        }
        if l != at {
            assert(all[l] == rest[b]);
        }
    }
}

/// A library holds an album once, however often a scan reports it.
pub proof fn law_reports_keep_albums_apart(app: AppView, album: Album)
    requires
        ids_apart(app.albums),
        app.reported(album) is Some,
    ensures
        ids_apart(app.reported(album)->0.albums),
{
    lemma_report(app, album);
}

/// Once a report has been taken in, the same report says nothing new: an unchanged library is left alone
/// by a rescan.
pub proof fn law_a_report_is_taken_in_once(app: AppView, album: Album, again: AppView)
    requires
        ids_apart(app.albums),
        app.reported(album) is Some,
        again.albums == app.reported(album)->0.albums,
    ensures
        again.reported(album) is None,
{
    lemma_report(app, album);
    let (rest, new) = report_parts(app, album);
    let at = place_for(rest, new, 0);
    lemma_place_for(rest, new, 0);
    let all = rest.insert(at, new);
    assert(again.albums == all);
    assert(all[at] == new);
    lemma_album_with(all, album.id, 0);
    let ix = album_with(all, album.id, 0)->0;
    assert(ix == at) by {
        if ix != at {
            assert(all[ix].id != all[at].id);
        }
    }
}

/// The library is in order: by artist, then by title, case aside.
pub open spec fn is_sorted(albums: Seq<Album>) -> bool {
    forall|k: int, l: int|
        0 <= k < l < albums.len() ==> !comes_after(#[trigger] albums[k], #[trigger] albums[l])
}

/// Reports keep the library in order.
pub proof fn law_reports_keep_the_library_sorted(app: AppView, album: Album)
    requires
        is_sorted(app.albums),
        app.reported(album) is Some,
    ensures
        is_sorted(app.reported(album)->0.albums),
{
    let albums = app.albums;
    let (rest, new) = report_parts(app, album);
    lemma_album_with(albums, album.id, 0);
    assert forall|k: int, l: int| 0 <= k < l < rest.len() implies !comes_after(
        #[trigger] rest[k],
        #[trigger] rest[l],
    ) by {
        match album_with(albums, album.id, 0) {
            Some(ix) => {
                let a = if k < ix {
                    k
                } else {
                    k + 1
                };
                let b = if l < ix {
                    l
                } else {
                    l + 1
                };
                assert(rest[k] == albums[a]);
                assert(rest[l] == albums[b]);
            },
            None => {},
        }
    }
    lemma_place_for(rest, new, 0);
    let at = place_for(rest, new, 0);
    let all = rest.insert(at, new);
    assert forall|k: int, l: int| 0 <= k < l < all.len() implies !comes_after(
        #[trigger] all[k],
        #[trigger] all[l],
    ) by {
        let a = if k < at {
            k
        } else {
            k - 1
        };
        let b = if l < at {
            l
        } else {
            l - 1
        };
        if k == at {
            assert(all[l] == rest[b]);
            if b > at {
                assert(!comes_after(rest[at], rest[b]));
            }
            lemma_after(new, rest[at], rest[b]);
        } else if l == at {
            assert(all[k] == rest[a]);
        } else {
            assert(all[k] == rest[a]);
            assert(all[l] == rest[b]);
        }
    }
}

/// What comes after an album that another one does not come after does not come before that one.
proof fn lemma_after(a: Album, b: Album, c: Album)
    requires
        comes_after(b, a),
        b == c || !comes_after(b, c),
    ensures
        !comes_after(a, c),
{
    crate::update::lemma_comes_after(a, b, c);
}

/// The library is kept by artist, and by title within an artist, capitals aside.
pub proof fn law_the_library_goes_by_artist_and_title(a: Album, b: Album)
    ensures
        is_alphabetically_before(lowercase(a.artist@), lowercase(b.artist@)) ==> comes_after(b, a) && !comes_after(a, b),
        lowercase(a.artist@) == lowercase(b.artist@) && is_alphabetically_before(
            lowercase(a.title@),
            lowercase(b.title@),
        ) ==> comes_after(b, a) && !comes_after(a, b),
        lowercase(a.artist@) == lowercase(b.artist@) && lowercase(a.title@) == lowercase(b.title@) ==> !comes_after(a, b),
{
    let n = 0int + lowercase(a.artist@).len();
    let m = 0int + lowercase(a.title@).len();
    if is_alphabetically_before(lowercase(a.artist@), lowercase(b.artist@)) {
        lemma_alphabetically_before(lowercase(a.artist@), lowercase(b.artist@));
    }
    if lowercase(a.artist@) == lowercase(b.artist@) {
        law_texts_compare_at_their_first_difference(lowercase(a.artist@), lowercase(b.artist@), n);
        if is_alphabetically_before(lowercase(a.title@), lowercase(b.title@)) {
            lemma_alphabetically_before(lowercase(a.title@), lowercase(b.title@));
        }
        if lowercase(a.title@) == lowercase(b.title@) {
            law_texts_compare_at_their_first_difference(lowercase(a.title@), lowercase(b.title@), m);
        }
    }
}

/// A report of an album that the library has is taken in where anything of it is new: its names, its genre, its
/// year, the choice of its cover, or its tracks. It is then as it was reported, with the art that was loaded
/// where the choice of the cover is the same.
pub proof fn law_a_report_of_something_new_is_taken_in(app: AppView, album: Album, ix: int)
    requires
        ids_apart(app.albums),
        0 <= ix < app.albums.len(),
        app.albums[ix].id == album.id,
    ensures
        ({
            let known = app.albums[ix];
            let same = {
                &&& known.title@ == album.title@
                &&& known.artist@ == album.artist@
                &&& known.genre@ == album.genre@
                &&& known.year == album.year
                &&& known.cover_id == album.cover_id
                &&& known.tracks@.len() == album.tracks@.len()
                &&& forall|k: int|
                    0 <= k < album.tracks@.len() ==> (#[trigger] known.tracks@[k]).path@ == album.tracks@[k].path@
                        && known.tracks@[k].title@ == album.tracks@[k].title@
            };
            let now = if known.cover_id == album.cover_id {
                Album { cover: known.cover, accent: known.accent, ..album }
            } else {
                album
            };
            &&& app.reported(album) is None <==> same
            &&& !same ==> app.reported(album)->0.albums.contains(now) && app.reported(album)->0.albums.len()
                == app.albums.len() && app.reported(album)->0.index_dirty
        }),
{
    lemma_album_with(app.albums, album.id, 0);
    let at = album_with(app.albums, album.id, 0);
    assert(at == Some(ix)) by {
        if at is Some && at->0 != ix {
            assert(app.albums[at->0].id != app.albums[ix].id);
        }
    }
    if app.reported(album) is Some {
        let (rest, new) = report_parts(app, album);
        lemma_place_for(rest, new, 0);
        let place = place_for(rest, new, 0);
        assert(rest.insert(place, new)[place] == new);
        assert(app.reported(album)->0.albums.contains(new));
    }
}

/// A report of an album that the library does not have adds it.
pub proof fn law_a_new_album_is_added(app: AppView, album: Album)
    requires
        forall|k: int| 0 <= k < app.albums.len() ==> (#[trigger] app.albums[k]).id != album.id,
    ensures
        app.reported(album) is Some,
        app.reported(album)->0.albums.contains(album),
        app.reported(album)->0.albums.len() == app.albums.len() + 1,
        app.reported(album)->0.index_dirty,
{
    lemma_album_with(app.albums, album.id, 0);
    lemma_place_for(app.albums, album, 0);
    let place = place_for(app.albums, album, 0);
    assert(app.albums.insert(place, album)[place] == album);
}

} // verus!
