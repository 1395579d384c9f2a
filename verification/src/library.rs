//! The music library: albums and their tracks, as tags say they are.

use vstd::prelude::*;

verus! {

/// A color, by its red, green and blue.
#[derive(Debug, Clone, Copy, PartialEq, Eq, Structural)]
pub struct Rgb {
    pub r: u8,
    pub g: u8,
    pub b: u8,
}

#[derive(Debug, Clone)]
pub struct Album {
    /// Stable content-derived id (album artist + album title), the same across re-scans -- and
    /// across the user reorganizing where the files live.
    pub id: u64,
    pub title: String,
    pub artist: String,
    /// Empty when no track of the album carries a genre tag.
    pub genre: String,
    /// The year that the tracks' dates begin with.
    pub year: Option<u32>,
    /// The id the cover art for this album has (or would have, when not loaded yet).
    pub cover_id: Option<u64>,
    pub cover: Option<CoverArt>,
    /// The cover's accent color, known before (and independently of) the cover pixels: persisted
    /// in the album index, so freshly launched fallback tiles can already carry it.
    pub accent: Option<Rgb>,
    pub tracks: Vec<TrackInfo>,
}

#[derive(Debug, Clone, PartialEq, Eq)]
pub struct TrackInfo {
    pub path: String,
    pub title: String,
}

/// Loaded cover art. Its pixels are held by whoever draws them, under its id.
#[derive(Debug, Clone)]
pub struct CoverArt {
    /// Stable content-derived id (image file path + mtime).
    pub id: u64,
    /// The (absolute) image file this was decoded from, e.g. for pointing other programs at it
    /// and (later) decoding a higher-resolution version on demand.
    pub file: String,
    /// The cover's most distinct color, e.g. for theming the surroundings after it.
    pub accent: Rgb,
}

impl CoverArt {
    /// The same art. (The pixels are shared by its id.)
    pub fn copy(&self) -> (art: CoverArt)
        ensures
            art == *self,
    {
        CoverArt { id: self.id, file: self.file.clone(), accent: self.accent }
    }
}

impl TrackInfo {
    /// The same track.
    pub fn copy(&self) -> (track: TrackInfo)
        ensures
            track == *self,
    {
        TrackInfo { path: self.path.clone(), title: self.title.clone() }
    }
}

/// The same art, if there is any.
pub fn copy_cover(cover: &Option<CoverArt>) -> (r: Option<CoverArt>)
    ensures
        r == *cover,
{
    match cover {
        Some(art) => Some(art.copy()),
        None => None,
    }
}

/// What a scan reports, as it finds it.
#[derive(Debug, Clone)]
pub enum ScanEvent {
    /// A discovered album, in its assembled-so-far state: consumers upsert by id. Usually
    /// reported once and complete, but an album drawing tracks from directories the tag cache
    /// didn't predict grows across reports until [`ScanEvent::Done`]. Its cover art may still be
    /// loading (or, when its cover id was in [`ScanOptions::known_covers`], arrive not at all:
    /// keep what you have).
    Album(Album),
    /// Cover art finished loading for the albums with the given ids. Apply it only where the
    /// album's current `cover_id` still matches [`CoverArt::id`]: an album can outgrow a queued
    /// cover mid-scan (a later directory contributed more of its tracks), and the stale decode
    /// must not overwrite the winner.
    Cover { albums: Vec<u64>, art: CoverArt },
    /// The scan is complete: every album has been reported. Albums absent from `album_ids` no
    /// longer exist and should be dropped.
    Done { album_ids: Vec<u64> },
}

/// What to scan, and how.
#[derive(Debug, Clone)]
pub struct ScanOptions {
    pub root: String,
    /// Album ids whose directories are scanned (and thus whose covers load) before everything
    /// else, in this order -- e.g. the restored queue's albums, circularly outward from the
    /// playing one, so the cover flow dresses up first.
    pub priority: Vec<u64>,
    /// Ids of cover art the consumer already has: decoding (and [`ScanEvent::Cover`]) is skipped
    /// for these.
    pub known_covers: Vec<u64>,
    /// Where tags are cached between scans. `None` disables persistence.
    pub cache_file: Option<String>,
    /// Directory holding the raw decoded thumbnails, keyed by cover id. Reading one back is a
    /// plain file read -- no image decoding -- so warm launches are fast.
    /// `None` disables the cache (always decode from source).
    pub covers_dir: Option<String>,
}

/// The options of a scan, by what they hold.
#[verifier::ext_equal]
pub struct ScanOptionsView {
    pub root: String,
    pub priority: Seq<u64>,
    pub known_covers: Set<u64>,
    pub cache_file: Option<String>,
    pub covers_dir: Option<String>,
}

impl View for ScanOptions {
    type V = ScanOptionsView;

    open spec fn view(&self) -> ScanOptionsView {
        ScanOptionsView {
            root: self.root,
            priority: self.priority@,
            known_covers: self.known_covers@.to_set(),
            cache_file: self.cache_file,
            covers_dir: self.covers_dir,
        }
    }
}

} // verus!
