//! Persistence of a player's session across runs, split over two files in the state directory:
//! `playlist.json` is the queue itself -- essentially just the list of tracks -- while `player.json`
//! holds the state around it (current index, repeat mode, and the library's sort order). The split
//! keeps the playlist a plain track list, one step away from a future M3U export/import, while the
//! volatile state churns in its own small file.
//!
//! Only paths are stored: tags and album grouping rehydrate from the library scan at boot. Both
//! files are saved best-effort on every change and loaded once at boot; the session restores paused
//! at the start of the current track.
//!
//! State directory, not cache: unlike the tag or cover caches, a queue can't be regenerated, so it
//! must survive a cache wipe.

use crate::player::Repeat;
use crate::sort::{Dir, SortField, SortOrder};
use vstd::prelude::*;

verus! {

/// Bumped when [`SavedPlaylist`] changes shape; old or unreadable files restore an empty queue.
/// (v1 was the pre-split format carrying per-track tags.)
pub const PLAYLIST_VERSION: u32 = 2;

/// Bumped when [`SavedPlayer`] changes shape. (v2 added the library sort order.)
pub const PLAYER_VERSION: u32 = 2;

#[derive(Debug, Clone)]
pub struct SavedPlaylist {
    pub version: u32,
    pub tracks: Vec<String>,
}

impl Default for SavedPlaylist {
    fn default() -> (p: Self)
        ensures
            p.version == 0,
            p.tracks@ == Seq::<String>::empty(),
    {
        SavedPlaylist { version: 0, tracks: Vec::new() }
    }
}

impl SavedPlaylist {
    pub fn new(tracks: Vec<String>) -> (p: Self)
        ensures
            p.version == PLAYLIST_VERSION,
            p.tracks == tracks,
    {
        SavedPlaylist { version: PLAYLIST_VERSION, tracks }
    }
}

#[derive(Debug, Clone, Copy, PartialEq, Eq, Structural)]
pub struct SavedPlayer {
    pub version: u32,
    pub current: usize,
    pub repeat: Repeat,
    pub sort: SortOrder,
}

/// The state around a queue where none was saved.
pub open spec fn fresh_player() -> SavedPlayer {
    SavedPlayer {
        version: 0,
        current: 0,
        repeat: Repeat::Off,
        sort: SortOrder { group_by_artist: None, field: SortField::Name, field_dir: Dir::Asc },
    }
}

impl Default for SavedPlayer {
    fn default() -> (p: Self)
        ensures
            p == fresh_player(),
    {
        SavedPlayer {
            version: 0,
            current: 0,
            repeat: Repeat::Off,
            sort: SortOrder { group_by_artist: None, field: SortField::Name, field_dir: Dir::Asc },
        }
    }
}

impl SavedPlayer {
    pub fn new(current: usize, repeat: Repeat, sort: SortOrder) -> (p: Self)
        ensures
            p == (SavedPlayer { version: PLAYER_VERSION, current, repeat, sort }),
    {
        SavedPlayer { version: PLAYER_VERSION, current, repeat, sort }
    }
}

/// A restored session, reconciled from both files.
#[derive(Debug, Clone)]
pub struct Restored {
    pub tracks: Vec<String>,
    pub current: usize,
    pub repeat: Repeat,
    pub sort: SortOrder,
}

/// The saved playlist, where there is one of the current version; else the default.
pub fn usable_playlist(saved: Option<SavedPlaylist>) -> (p: SavedPlaylist)
    ensures
        match saved {
            Some(s) => if s.version == PLAYLIST_VERSION {
                p == s
            } else {
                p.tracks@ == Seq::<String>::empty()
            },
            None => p.tracks@ == Seq::<String>::empty(),
        },
{
    match saved {
        Some(s) => if s.version == PLAYLIST_VERSION {
            s
        } else {
            SavedPlaylist::default()
        },
        None => SavedPlaylist::default(),
    }
}

/// The saved state, where there is one of the current version; else the default.
pub fn usable_player(saved: Option<SavedPlayer>) -> (p: SavedPlayer)
    ensures
        p == (match saved {
            Some(s) => if s.version == PLAYER_VERSION {
                s
            } else {
                fresh_player()
            },
            None => fresh_player(),
        }),
{
    match saved {
        Some(s) => if s.version == PLAYER_VERSION {
            s
        } else {
            SavedPlayer::default()
        },
        None => SavedPlayer::default(),
    }
}

/// Those of some items that are still there.
pub open spec fn kept<T>(items: Seq<T>, present: Seq<bool>) -> Seq<T>
    decreases items.len(),
{
    if items.len() == 0 {
        Seq::empty()
    } else {
        let before = kept(items.drop_last(), present);
        if present[items.len() - 1] {
            before.push(items.last())
        } else {
            before
        }
    }
}

/// How many of the first `n` items are gone.
pub open spec fn gone(present: Seq<bool>, n: int) -> int
    decreases n,
{
    if n <= 0 {
        0
    } else {
        gone(present, n - 1) + if present[n - 1] {
            0int
        } else {
            1int
        }
    }
}

/// The index that follows its item past those that are gone, and stays in the queue.
pub open spec fn followed(current: int, present: Seq<bool>, n: nat, left: nat) -> int {
    let moved = current - gone(
        present,
        if current < n {
            current
        } else {
            n as int
        },
    );
    if left == 0 {
        0
    } else if moved < left {
        moved
    } else {
        left - 1
    }
}

/// Drops the items that are gone, and has `current` follow its item. The positions of what is kept, and
/// the new index.
pub fn reconciled(present: &Vec<bool>, current: usize) -> (r: (Vec<usize>, usize))
    ensures
        r.0@ == kept(Seq::new(present@.len(), |k: int| k as usize), present@),
        r.1 == followed(current as int, present@, present@.len(), r.0@.len()),
{
    let mut keep: Vec<usize> = Vec::new();
    let mut moved: usize = current;
    let ghost all = Seq::new(present@.len(), |k: int| k as usize);
    let mut ix: usize = 0;
    assert(all.take(0) =~= Seq::empty());
    while ix < present.len()
        invariant
            ix <= present.len(),
            all == Seq::new(present@.len(), |k: int| k as usize),
            keep@ == kept(all.take(ix as int), present@),
            0 <= gone(
                present@,
                if current < ix {
                    current as int
                } else {
                    ix as int
                },
            ) <= (if current < ix {
                current as int
            } else {
                ix as int
            }),
            moved == current - gone(
                present@,
                if current < ix {
                    current as int
                } else {
                    ix as int
                },
            ),
        decreases present.len() - ix,
    {
        assert(all.take(ix + 1).drop_last() =~= all.take(ix as int));
        if present[ix] {
            keep.push(ix);
        } else if ix < current {
            // A dropped track before the current one shifts it back one slot.
            moved = moved - 1;
        }
        ix = ix + 1;
    }
    assert(all.take(ix as int) =~= all);
    let left: usize = keep.len();
    let last: usize = left.saturating_sub(1);
    let current: usize = if moved < last {
        moved
    } else {
        last
    };
    (keep, current)
}

pub(crate) proof fn lemma_kept_picks<T>(items: Seq<T>, present: Seq<bool>)
    requires
        items.len() <= present.len(),
        items.len() <= usize::MAX,
    ensures
        ({
            let ixs = kept(Seq::new(items.len(), |k: int| k as usize), present);
            &&& ixs.len() == kept(items, present).len()
            &&& forall|k: int|
                0 <= k < ixs.len() ==> (#[trigger] ixs[k]) < items.len() && kept(items, present)[k]
                    == items[ixs[k] as int]
            &&& ixs.len() == items.len() - gone(present, items.len() as int)
        }),
    decreases items.len(),
{
    let all = Seq::new(items.len(), |k: int| k as usize);
    if items.len() > 0 {
        let init = items.drop_last();
        lemma_kept_picks(init, present);
        assert(all.drop_last() =~= Seq::new(init.len(), |k: int| k as usize));
    }
}

/// Reconciles both files: tracks whose files have vanished since the last run are
/// dropped (the music directory may have changed in between) with `current` following its item to
/// its new index, and `current` is clamped to the queue. `present` says of each track whether its file is
/// there.
pub fn restore(playlist: SavedPlaylist, player: SavedPlayer, present: &Vec<bool>) -> (r: Restored)
    requires
        present.len() == playlist.tracks.len(),
    ensures
        r.tracks@ == kept(playlist.tracks@, present@),
        r.current == followed(
            player.current as int,
            present@,
            present@.len(),
            kept(playlist.tracks@, present@).len(),
        ),
        r.repeat == player.repeat,
        r.sort == player.sort,
{
    let (keep, current) = reconciled(present, player.current);
    let ghost result = kept(playlist.tracks@, present@);
    proof {
        lemma_kept_picks(playlist.tracks@, present@);
    }
    let mut tracks: Vec<String> = Vec::new();
    let mut k: usize = 0;
    while k < keep.len()
        invariant
            k <= keep.len() == result.len(),
            tracks@ == result.take(k as int),
            forall|l: int|
                0 <= l < keep.len() ==> (#[trigger] keep[l]) < playlist.tracks.len() && result[l]
                    == playlist.tracks@[keep[l] as int],
        decreases keep.len() - k,
    {
        assert(keep[k as int] < playlist.tracks.len());
        tracks.push(playlist.tracks[keep[k]].clone());
        assert(tracks@ =~= result.take(k + 1));
        k = k + 1;
    }
    assert(tracks@ =~= result);
    Restored { tracks, current, repeat: player.repeat, sort: player.sort }
}

proof fn lemma_gone_grows(present: Seq<bool>, m: int, n: int)
    requires
        0 <= m <= n,
    ensures
        0 <= gone(present, m) <= gone(present, n) <= n,
        gone(present, n) - gone(present, m) <= n - m,
    decreases n,
{
    if m < n {
        lemma_gone_grows(present, m, n - 1);
    } else if n > 0 {
        lemma_gone_grows(present, n - 1, n - 1);
    }
}

proof fn lemma_kept_at<T>(items: Seq<T>, present: Seq<bool>, i: int)
    requires
        0 <= i < items.len() <= present.len(),
        present[i],
    ensures
        0 <= i - gone(present, i) < kept(items, present).len(),
        kept(items, present)[i - gone(present, i)] == items[i],
        kept(items, present).len() == items.len() - gone(present, items.len() as int),
    decreases items.len(),
{
    let init = items.drop_last();
    lemma_kept_len(init, present);
    lemma_gone_grows(present, i, items.len() as int);
    if i < init.len() {
        lemma_kept_at(init, present, i);
    }
}

proof fn lemma_kept_len<T>(items: Seq<T>, present: Seq<bool>)
    requires
        items.len() <= present.len(),
    ensures
        kept(items, present).len() == items.len() - gone(present, items.len() as int),
    decreases items.len(),
{
    if items.len() > 0 {
        lemma_kept_len(items.drop_last(), present);
    }
}

/// The current item stays current, wherever it moves: at the new index there is what was at the old one,
/// as long as that is still there.
pub proof fn law_current_follows_its_item<T>(items: Seq<T>, present: Seq<bool>, current: int)
    requires
        0 <= current < items.len(),
        present.len() == items.len(),
        present[current],
    ensures
        ({
            let left = kept(items, present);
            let at = followed(current, present, items.len(), left.len());
            &&& 0 <= at < left.len()
            &&& left[at] == items[current]
        }),
{
    lemma_kept_at(items, present, current);
}

/// Whatever is gone, the index stays in the queue.
pub proof fn law_current_stays_in_the_queue<T>(items: Seq<T>, present: Seq<bool>, current: nat)
    requires
        present.len() == items.len(),
    ensures
        ({
            let left = kept(items, present);
            let at = followed(current as int, present, items.len(), left.len());
            &&& 0 <= at
            &&& left.len() > 0 ==> at < left.len()
            &&& left.len() == 0 ==> at == 0
        }),
{
    let n = if current < items.len() {
        current as int
    } else {
        items.len() as int
    };
    lemma_gone_grows(present, n, n);
}

/// Of the items exactly those are kept that are still there, in their order.
pub proof fn law_what_is_gone_is_dropped(present: Seq<bool>, n: nat)
    requires
        n <= present.len(),
        n <= usize::MAX,
    ensures
        ({
            let left = kept(Seq::new(n, |k: int| k as usize), present);
            &&& forall|k: usize| #[trigger] left.contains(k) <==> k < n && present[k as int]
            &&& forall|i: int, j: int| 0 <= i < j < left.len() ==> #[trigger] left[i] < #[trigger] left[j]
        }),
    decreases n,
{
    let all = Seq::new(n, |k: int| k as usize);
    let left = kept(all, present);
    if n > 0 {
        let m = (n - 1) as nat;
        let before = kept(Seq::new(m, |k: int| k as usize), present);
        law_what_is_gone_is_dropped(present, m);
        assert(all.drop_last() =~= Seq::new(m, |k: int| k as usize));
        assert forall|i: int| 0 <= i < before.len() implies #[trigger] before[i] < m by {
            assert(before.contains(before[i]));
        }
        assert forall|k: usize| #[trigger] left.contains(k) <==> k < n && present[k as int] by {
            if k < m && present[k as int] {
                assert(before.contains(k));
                let i = choose|i: int| 0 <= i < before.len() && before[i] == k;
                assert(left[i] == k);
            }
            if k == m && present[k as int] {
                assert(left[before.len() as int] == k);
            }
            if left.contains(k) {
                let i = choose|i: int| 0 <= i < left.len() && left[i] == k;
                if i < before.len() {
                    assert(before[i] == k);
                    assert(before.contains(k));
                }
            }
        }
    } else {
        assert(left =~= Seq::empty());
    }
}

} // verus!
