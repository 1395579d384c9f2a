//! Persistence of the play queue across runs: the tracks (with the metadata needed to render them
//! before the library scan comes back) and which one was current. Saved best-effort on every
//! change and loaded once at boot; the session restores paused at the start of the current track.
//!
//! Lives under the *state* directory, not the cache: unlike the tag or cover caches, a queue
//! can't be regenerated, so it must survive a cache wipe.

use crate::dirs::{base, below, join, rooted, Env};
use crate::session::{followed, kept, lemma_kept_picks, reconciled};
use crate::text::opt_text;
use vstd::prelude::*;

verus! {

/// Bumped when [`SavedPlaylist`] changes shape; an old or unreadable file restores an empty queue.
pub const VERSION: u32 = 1;

#[derive(Debug, Clone)]
pub struct SavedPlaylist {
    pub version: u32,
    pub items: Vec<SavedItem>,
    pub current: usize,
}

/// A queue entry: the track and the tags the player view shows. Everything but the cover art,
/// which the library scan re-attaches by album id shortly after boot.
#[derive(Debug, Clone)]
pub struct SavedItem {
    pub path: String,
    pub album_id: u64,
    pub title: String,
    pub artist: String,
    pub album: String,
}

impl SavedItem {
    /// The same entry.
    pub fn copy(&self) -> (item: SavedItem)
        ensures
            item == *self,
    {
        SavedItem {
            path: self.path.clone(),
            album_id: self.album_id,
            title: self.title.clone(),
            artist: self.artist.clone(),
            album: self.album.clone(),
        }
    }
}

impl Default for SavedPlaylist {
    /// Nothing queued.
    fn default() -> (p: Self)
        ensures
            p.version == 0,
            p.items@ == Seq::<SavedItem>::empty(),
            p.current == 0,
    {
        SavedPlaylist { version: 0, items: Vec::new(), current: 0 }
    }
}

impl SavedPlaylist {
    pub fn new(items: Vec<SavedItem>, current: usize) -> (p: Self)
        ensures
            p.version == VERSION,
            p.items == items,
            p.current == current,
    {
        SavedPlaylist { version: VERSION, items, current }
    }
}

/// Where the playlist is saved: `$XDG_STATE_HOME/phonoscule/playlist.json`, falling back to
/// `~/.local/state/phonoscule/playlist.json`.
pub open spec fn default_path(env: Env) -> Option<Seq<char>> {
    match rooted(env.xdg_state_home, env.home, ".local/state"@, env.windows) {
        Some(state) => Some(below(state, "phonoscule/playlist.json"@, env.windows)),
        None => None,
    }
}

/// Where the playlist is saved. Nowhere, where there is no home to fall back to.
pub fn default_file(env: &Env) -> (file: Option<String>)
    ensures
        opt_text(file) == default_path(*env),
{
    match base(&env.xdg_state_home, &env.home, ".local/state", env.windows) {
        Some(state) => Some(join(state.as_str(), "phonoscule/playlist.json", env.windows)),
        None => None,
    }
}

/// The queue that a saved playlist has to offer.
pub open spec fn offered(saved: Option<SavedPlaylist>) -> (Seq<SavedItem>, usize) {
    match saved {
        Some(saved) => if saved.version == VERSION {
            (saved.items@, saved.current)
        } else {
            (Seq::empty(), 0)
        },
        None => (Seq::empty(), 0),
    }
}

/// The saved playlist; an empty one, where the file is missing, outdated, or unreadable.
pub fn usable(saved: Option<SavedPlaylist>) -> (p: SavedPlaylist)
    ensures
        (p.items@, p.current) == offered(saved),
{
    match saved {
        Some(saved) => if saved.version == VERSION {
            saved
        } else {
            SavedPlaylist::default()
        },
        None => SavedPlaylist::default(),
    }
}

/// Loads the saved playlist, dropping tracks whose files have vanished since the last run (the
/// music directory may have changed in between) while keeping `current` pointed at the same item.
/// `present` says of each track whether its file is there.
pub fn load(playlist: SavedPlaylist, present: &Vec<bool>) -> (p: SavedPlaylist)
    requires
        present.len() == playlist.items.len(),
    ensures
        p.version == VERSION,
        p.items@ == kept(playlist.items@, present@),
        p.current == followed(
            playlist.current as int,
            present@,
            present@.len(),
            kept(playlist.items@, present@).len(),
        ),
{
    let (keep, current) = reconciled(present, playlist.current);
    let ghost result = kept(playlist.items@, present@);
    proof {
        lemma_kept_picks(playlist.items@, present@);
    }
    let mut items: Vec<SavedItem> = Vec::new();
    let mut k: usize = 0;
    while k < keep.len()
        invariant
            k <= keep.len() == result.len(),
            items@ == result.take(k as int),
            forall|l: int|
                0 <= l < keep.len() ==> (#[trigger] keep[l]) < playlist.items.len() && result[l]
                    == playlist.items@[keep[l] as int],
        decreases keep.len() - k,
    {
        assert(keep[k as int] < playlist.items.len());
        items.push(playlist.items[keep[k]].copy());
        assert(items@ =~= result.take(k + 1));
        k = k + 1;
    }
    assert(items@ =~= result);
    SavedPlaylist { version: VERSION, items, current }
}

/// A saved playlist is offered as it was saved; one of another version is not.
pub proof fn law_a_playlist_is_offered_as_it_was_saved(saved: SavedPlaylist)
    ensures
        saved.version == 1 ==> offered(Some(saved)) == (saved.items@, saved.current),
        saved.version != 1 ==> offered(Some(saved)).0.len() == 0,
        offered(None).0.len() == 0,
{
}

} // verus!
