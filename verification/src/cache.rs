//! What is kept of a library between runs: the tags of its files, so that a rescan opens only what has
//! changed, and the albums they make, so that a launch shows the whole library before any scan.

use crate::assembler::Tagged;
use crate::library::{Album, Rgb, TrackInfo};
use crate::tags::CacheEntry;
use crate::text::same;
use vstd::prelude::*;

verus! {

/// Bumped when the entries change shape or meaning; an old or unreadable cache only costs a full scan.
pub const CACHE_VERSION: u32 = 5;

/// The tag cache.
#[derive(Debug)]
pub struct Cache {
    pub version: u32,
    pub files: Vec<Tagged>,
}

/// The first of some files, from the `k`-th on, with the given path.
pub open spec fn file_in(files: Seq<Tagged>, path: Seq<char>, k: int) -> Option<int>
    decreases files.len() - k,
{
    if k >= files.len() {
        None
    } else if files[k].path@ == path {
        Some(k)
    } else {
        file_in(files, path, k + 1)
    }
}

impl Cache {
    /// A cache of the given tags.
    pub fn new(files: Vec<Tagged>) -> (cache: Self)
        ensures
            cache.version == CACHE_VERSION,
            cache.files == files,
    {
        Cache { version: CACHE_VERSION, files }
    }

    /// What the cache has under a path.
    pub fn get(&self, path: &str) -> (entry: Option<&CacheEntry>)
        ensures
            match entry {
                Some(entry) => file_in(self.files@, path@, 0) matches Some(k) && *entry == self.files@[k].entry,
                None => file_in(self.files@, path@, 0) is None,
            },
    {
        let mut k: usize = 0;
        while k < self.files.len()
            invariant
                k <= self.files@.len(),
                file_in(self.files@, path@, 0) == file_in(self.files@, path@, k as int),
            decreases self.files.len() - k,
        {
            if same(self.files[k].path.as_str(), path) {
                return Some(&self.files[k].entry);
            }
            k = k + 1;
        }
        None
    }
}

/// The tags that a saved cache has to offer: none, where there is no cache, or where it is of another
/// version.
pub fn load_cache(saved: Option<Cache>) -> (cache: Cache)
    ensures
        cache.version == CACHE_VERSION,
        cache.files@ == (match saved {
            Some(saved) => if saved.version == CACHE_VERSION {
                saved.files@
            } else {
                Seq::empty()
            },
            None => Seq::empty(),
        }),
{
    match saved {
        Some(saved) => if saved.version == CACHE_VERSION {
            saved
        } else {
            Cache::new(Vec::new())
        },
        None => Cache::new(Vec::new()),
    }
}

/// Bumped when [`SavedAlbum`] changes shape or meaning (like the id derivation); an old or
/// unreadable index just means the grid stays empty until the scan streams the albums in.
pub const INDEX_VERSION: u32 = 3;

/// The persisted album index: the assembled album list minus the cover pixels, so a launch can
/// show the whole library instantly instead of waiting for the directory walk. The boot scan then
/// reconciles it exactly like a rescan (upsert by id, retain what `Done` reports), so staleness
/// self-heals; covers stream in from the thumbnail cache as always.
#[derive(Debug)]
pub struct AlbumIndex {
    pub version: u32,
    pub albums: Vec<SavedAlbum>,
}

/// [`Album`] minus the runtime-only cover art.
#[derive(Debug)]
pub struct SavedAlbum {
    pub id: u64,
    pub title: String,
    pub artist: String,
    pub genre: String,
    pub year: Option<u32>,
    pub cover_id: Option<u64>,
    /// The cover's accent color.
    pub accent: Option<Rgb>,
    pub tracks: Vec<TrackInfo>,
}

/// What is saved of an album.
#[verifier::ext_equal]
pub struct AlbumFields {
    pub id: u64,
    pub title: String,
    pub artist: String,
    pub genre: String,
    pub year: Option<u32>,
    pub cover_id: Option<u64>,
    pub accent: Option<Rgb>,
    pub tracks: Seq<TrackInfo>,
}

/// What is saved of an album: all of it but the pixels of its cover, which have a cache of their own.
pub open spec fn fields(album: Album) -> AlbumFields {
    AlbumFields {
        id: album.id,
        title: album.title,
        artist: album.artist,
        genre: album.genre,
        year: album.year,
        cover_id: album.cover_id,
        accent: album.accent,
        tracks: album.tracks@,
    }
}

impl View for SavedAlbum {
    type V = AlbumFields;

    open spec fn view(&self) -> AlbumFields {
        AlbumFields {
            id: self.id,
            title: self.title,
            artist: self.artist,
            genre: self.genre,
            year: self.year,
            cover_id: self.cover_id,
            accent: self.accent,
            tracks: self.tracks@,
        }
    }
}

/// What is saved of some albums.
pub open spec fn all_fields(albums: Seq<Album>) -> Seq<AlbumFields> {
    albums.map_values(|a: Album| fields(a))
}

/// What an index holds.
pub open spec fn saved_fields(albums: Seq<SavedAlbum>) -> Seq<AlbumFields> {
    albums.map_values(|a: SavedAlbum| a@)
}

/// The index is that of the albums.
pub open spec fn is_saved(albums: Seq<Album>, index: AlbumIndex) -> bool {
    index.version == INDEX_VERSION && saved_fields(index.albums@) == all_fields(albums)
}

/// The albums are those of the index, with no cover loaded; none, where it is of another version or there
/// is none.
pub open spec fn is_loaded(index: Option<AlbumIndex>, albums: Seq<Album>) -> bool {
    &&& all_fields(albums) == (match index {
        Some(index) => if index.version == INDEX_VERSION {
            saved_fields(index.albums@)
        } else {
            Seq::empty()
        },
        None => Seq::empty(),
    })
    &&& forall|k: int| 0 <= k < albums.len() ==> (#[trigger] albums[k]).cover is None
}

fn copy_tracks(tracks: &Vec<TrackInfo>) -> (r: Vec<TrackInfo>)
    ensures
        r@ == tracks@,
{
    let mut r: Vec<TrackInfo> = Vec::new();
    while r.len() < tracks.len()
        invariant
            r.len() <= tracks.len(),
            r@ == tracks@.take(r.len() as int),
        decreases tracks.len() - r.len(),
    {
        r.push(tracks[r.len()].copy());
        assert(r@ =~= tracks@.take(r.len() as int));
    }
    assert(r@ =~= tracks@);
    r
}

/// The index of the given albums, to be saved.
pub fn save_index(albums: &Vec<Album>) -> (index: AlbumIndex)
    ensures
        is_saved(albums@, index),
{
    let ghost all = all_fields(albums@);
    let mut saved: Vec<SavedAlbum> = Vec::new();
    assert(saved_fields(saved@) =~= all.take(0));
    while saved.len() < albums.len()
        invariant
            saved.len() <= albums.len(),
            all == all_fields(albums@),
            saved_fields(saved@) == all.take(saved.len() as int),
        decreases albums.len() - saved.len(),
    {
        let album: &Album = &albums[saved.len()];
        let ghost before = saved@;
        saved.push(
            SavedAlbum {
                id: album.id,
                title: album.title.clone(),
                artist: album.artist.clone(),
                genre: album.genre.clone(),
                year: album.year,
                cover_id: album.cover_id,
                accent: album.accent,
                tracks: copy_tracks(&album.tracks),
            },
        );
        assert(saved@.last()@ =~= fields(*album));
        assert(saved_fields(saved@) =~= saved_fields(before).push(saved@.last()@));
        assert(all[before.len() as int] == fields(*album));
        assert(saved_fields(saved@) =~= all.take(saved.len() as int));
    }
    assert(saved_fields(saved@) =~= all);
    AlbumIndex { version: INDEX_VERSION, albums: saved }
}

/// Loads the album index; a missing or outdated one is an empty library (the scan rebuilds and re-saves
/// it).
pub fn load_index(index: Option<AlbumIndex>) -> (albums: Vec<Album>)
    ensures
        is_loaded(index, albums@),
{
    let mut albums: Vec<Album> = Vec::new();
    assert(all_fields(albums@) =~= Seq::empty());
    let index: AlbumIndex = match index {
        Some(index) => index,
        None => {
            return albums;
        },
    };
    if index.version != INDEX_VERSION {
        return albums;
    }
    let ghost all = saved_fields(index.albums@);
    assert(all_fields(albums@) =~= all.take(0));
    while albums.len() < index.albums.len()
        invariant
            albums.len() <= index.albums.len(),
            all == saved_fields(index.albums@),
            all_fields(albums@) == all.take(albums.len() as int),
            forall|k: int| 0 <= k < albums@.len() ==> (#[trigger] albums@[k]).cover is None,
        decreases index.albums.len() - albums.len(),
    {
        let saved: &SavedAlbum = &index.albums[albums.len()];
        let ghost before = albums@;
        albums.push(
            Album {
                id: saved.id,
                title: saved.title.clone(),
                artist: saved.artist.clone(),
                genre: saved.genre.clone(),
                year: saved.year,
                cover_id: saved.cover_id,
                cover: None,
                accent: saved.accent,
                tracks: copy_tracks(&saved.tracks),
            },
        );
        assert(fields(albums@.last()) =~= saved@);
        assert(all_fields(albums@) =~= all_fields(before).push(saved@));
        assert(all[before.len() as int] == saved@);
        assert(all_fields(albums@) =~= all.take(albums.len() as int));
    }
    assert(all_fields(albums@) =~= all);
    albums
}

/// The album index gives back everything but the runtime-only cover art.
pub proof fn law_the_index_gives_back_the_albums(albums: Seq<Album>, index: AlbumIndex, loaded: Seq<Album>)
    requires
        is_saved(albums, index),
        is_loaded(Some(index), loaded),
    ensures
        loaded.len() == albums.len(),
        forall|k: int|
            0 <= k < albums.len() ==> fields(#[trigger] loaded[k]) == fields(albums[k]) && loaded[k].cover is None,
{
    assert(all_fields(loaded) == all_fields(albums));
    assert(all_fields(loaded).len() == loaded.len());
    assert(all_fields(albums).len() == albums.len());
    assert forall|k: int| 0 <= k < albums.len() implies fields(#[trigger] loaded[k]) == fields(albums[k]) by {
        assert(all_fields(loaded)[k] == fields(loaded[k]));
        assert(all_fields(albums)[k] == fields(albums[k]));
    }
}

/// The index keeps each field of an album; one of another version is left alone.
pub proof fn law_the_index_keeps_each_field(albums: Seq<Album>, index: AlbumIndex, loaded: Seq<Album>, k: int)
    requires
        is_saved(albums, index),
        is_loaded(Some(index), loaded),
        0 <= k < albums.len(),
    ensures
        k < loaded.len(),
        loaded[k].id == albums[k].id,
        loaded[k].title == albums[k].title,
        loaded[k].artist == albums[k].artist,
        loaded[k].genre == albums[k].genre,
        loaded[k].year == albums[k].year,
        loaded[k].cover_id == albums[k].cover_id,
        loaded[k].accent == albums[k].accent,
        loaded[k].tracks@ == albums[k].tracks@,
{
    law_the_index_gives_back_the_albums(albums, index, loaded);
    assert(fields(loaded[k]) == fields(albums[k]));
}

/// An index of another version counts as none.
pub proof fn law_an_index_of_another_version_is_empty(index: AlbumIndex, loaded: Seq<Album>)
    requires
        is_loaded(Some(index), loaded),
        index.version != 3,
    ensures
        loaded.len() == 0,
{
    assert(all_fields(loaded).len() == loaded.len());
}

/// What the cache has under a path is what was read of that file, and nothing of any other.
pub proof fn law_files_are_found_by_their_paths(files: Seq<Tagged>, path: Seq<char>, k: int)
    requires
        0 <= k <= files.len(),
    ensures
        match file_in(files, path, k) {
            Some(found) => k <= found < files.len() && files[found].path@ == path,
            None => forall|l: int| k <= l < files.len() ==> (#[trigger] files[l]).path@ != path,
        },
    decreases files.len() - k,
{
    if k < files.len() && files[k].path@ != path {
        law_files_are_found_by_their_paths(files, path, k + 1);
    }
}

} // verus!
