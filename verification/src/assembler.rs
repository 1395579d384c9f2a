//! Cross-directory album assembly: albums grow as directories contribute tracks and are emitted,
//! possibly repeatedly in their assembled-so-far state, as they become ready.
//!
//! Readiness is about rescan hygiene: the tag cache predicts, per directory, which albums its
//! files belong to, so an album is held back until every directory the cache expects of it has
//! been read. On a warm rescan the prediction is complete and each album emits exactly once,
//! identical to the consumer's state -- no churn, no index rewrite every five minutes. Files the
//! cache doesn't know (new or changed) predict nothing, so a cold scan emits albums growing per
//! contribution and the first launch stays progressive.

use crate::library::{Album, TrackInfo};
use crate::order::{ascended, ascending, compare, law_texts_are_ordered, lemma_alphabetical, sorted, text_rel, Ordered};
use crate::path::{hash_text, parent, parent_of, text_writes};
use crate::scan::{compare_paths, path_key, path_rel, AudioFile, DirJob};
use crate::sort::is_alphabetically_before;
use crate::tags::{album_byline, album_id, album_key, id_of, CacheEntry, Mtime};
use crate::text::{decimal, push_decimal, same};
use std::collections::hash_map::DefaultHasher;
use std::hash::Hasher;
use vstd::prelude::*;
use vstd::std_specs::hash::DefaultHasherAdditionalSpecFns;
use vstd::string::*;

verus! {

/// A track awaiting its album's emission.
#[derive(Debug)]
pub struct PendingTrack {
    pub disc: Option<u32>,
    pub track: Option<u32>,
    pub year: Option<u32>,
    /// The track's own genre tag (empty when untagged); the album shows its first one.
    pub genre: String,
    pub info: TrackInfo,
}

/// How two tracks of an album compare: by disc, then track number, then title -- the
/// title (not the path) breaks ties so an untagged album orders the same wherever its files
/// live. Untagged discs are disc 1; untagged tracks sort after their disc's tagged ones.
pub open spec fn track_rel(a: PendingTrack, b: PendingTrack) -> int {
    let disc_a = or_number(a.disc, 1);
    let disc_b = or_number(b.disc, 1);
    let track_a = or_number(a.track, u32::MAX);
    let track_b = or_number(b.track, u32::MAX);
    if disc_a != disc_b {
        disc_a - disc_b
    } else if track_a != track_b {
        track_a - track_b
    } else if text_rel(a.info.title@, b.info.title@) != 0 {
        text_rel(a.info.title@, b.info.title@)
    } else {
        path_rel(a.info.path@, b.info.path@)
    }
}

/// A number, or another where there is none.
pub open spec fn or_number(n: Option<u32>, other: u32) -> u32 {
    match n {
        Some(n) => n,
        None => other,
    }
}

fn number_or(n: Option<u32>, other: u32) -> (r: u32)
    ensures
        r == or_number(n, other),
{
    match n {
        Some(n) => n,
        None => other,
    }
}

/// The tracks of an album, to be put in the album's order.
pub struct Tracks<'a>(pub &'a Vec<PendingTrack>);

impl<'a> Ordered for Tracks<'a> {
    open spec fn count(&self) -> nat {
        self.0@.len()
    }

    open spec fn before(&self, i: int, j: int) -> bool {
        let rel = track_rel(self.0@[i], self.0@[j]);
        rel < 0 || (rel == 0 && i < j)
    }

    proof fn total(&self, i: int, j: int) {
        lemma_track_rel(self.0@[i], self.0@[j], self.0@[j]);
    }

    proof fn asymmetric(&self, i: int, j: int) {
        lemma_track_rel(self.0@[i], self.0@[j], self.0@[j]);
    }

    proof fn transitive(&self, i: int, j: int, k: int) {
        lemma_track_rel(self.0@[i], self.0@[j], self.0@[k]);
        lemma_track_rel(self.0@[j], self.0@[k], self.0@[k]);
    }

    fn is_before(&self, i: usize, j: usize) -> (r: bool) {
        let a: &PendingTrack = &self.0[i];
        let b: &PendingTrack = &self.0[j];
        let disc_a: u32 = number_or(a.disc, 1);
        let disc_b: u32 = number_or(b.disc, 1);
        if disc_a != disc_b {
            return disc_a < disc_b;
        }
        let track_a: u32 = number_or(a.track, u32::MAX);
        let track_b: u32 = number_or(b.track, u32::MAX);
        if track_a != track_b {
            return track_a < track_b;
        }
        let title: i8 = compare(a.info.title.as_str(), b.info.title.as_str());
        if title != 0 {
            return title < 0;
        }
        let path: i8 = compare_paths(a.info.path.as_str(), b.info.path.as_str());
        path < 0 || (path == 0 && i < j)
    }
}

proof fn lemma_track_rel(a: PendingTrack, b: PendingTrack, c: PendingTrack)
    ensures
        track_rel(b, a) == -track_rel(a, b),
        track_rel(a, b) <= 0 && track_rel(b, c) <= 0 ==> track_rel(a, c) <= 0,
        track_rel(a, b) <= 0 && track_rel(b, c) <= 0 && (track_rel(a, b) < 0 || track_rel(b, c) < 0) ==> track_rel(
            a,
            c,
        ) < 0,
{
    law_texts_are_ordered(a.info.title@, b.info.title@, c.info.title@);
    law_texts_are_ordered(b.info.title@, c.info.title@, Seq::empty());
    law_texts_are_ordered(path_key(a.info.path@), path_key(b.info.path@), path_key(c.info.path@));
    law_texts_are_ordered(path_key(b.info.path@), path_key(c.info.path@), Seq::empty());
}

/// How many of an album's tracks a directory holds.
#[derive(Debug)]
pub struct Contribution {
    pub dir: String,
    pub n: usize,
}

/// An album being assembled from the tracks the walked directories contribute.
#[derive(Debug)]
pub struct PendingAlbum {
    pub id: u64,
    pub title: String,
    pub artist: String,
    pub tracks: Vec<PendingTrack>,
    /// How many of the album's tracks each directory holds, for choosing its cover.
    pub contributions: Vec<Contribution>,
}

/// An album being assembled, by what it holds.
#[verifier::ext_equal]
pub struct PendingView {
    pub id: u64,
    pub title: String,
    pub artist: String,
    pub tracks: Seq<PendingTrack>,
    pub contributions: Seq<(Seq<char>, int)>,
}

/// How many of an album's tracks each directory holds.
pub open spec fn counts(contributions: Seq<Contribution>) -> Seq<(Seq<char>, int)> {
    contributions.map_values(|c: Contribution| (c.dir@, c.n as int))
}

impl View for PendingAlbum {
    type V = PendingView;

    open spec fn view(&self) -> PendingView {
        PendingView {
            id: self.id,
            title: self.title,
            artist: self.artist,
            tracks: self.tracks@,
            contributions: counts(self.contributions@),
        }
    }
}

/// The first directory of some, from the `k`-th on, with the given path.
pub open spec fn dir_in(counts: Seq<(Seq<char>, int)>, dir: Seq<char>, k: int) -> Option<int>
    decreases counts.len() - k,
{
    if k >= counts.len() {
        None
    } else if counts[k].0 == dir {
        Some(k)
    } else {
        dir_in(counts, dir, k + 1)
    }
}

/// One more track in a directory.
pub open spec fn counted(counts: Seq<(Seq<char>, int)>, dir: Seq<char>) -> Seq<(Seq<char>, int)> {
    match dir_in(counts, dir, 0) {
        Some(k) => counts.update(k, (dir, counts[k].1 + 1)),
        None => counts.push((dir, 1)),
    }
}

/// The track that a file contributes.
pub open spec fn track_of(path: String, entry: CacheEntry) -> PendingTrack {
    PendingTrack {
        disc: entry.disc,
        track: entry.track,
        year: entry.year,
        genre: entry.genre,
        info: TrackInfo { path, title: entry.title },
    }
}

impl PendingView {
    /// The album with one more track.
    pub open spec fn with_track(self, dir: Seq<char>, path: String, entry: CacheEntry) -> PendingView {
        PendingView {
            tracks: self.tracks.push(track_of(path, entry)),
            contributions: counted(self.contributions, dir),
            ..self
        }
    }
}

/// An album that no track has been found of yet.
pub open spec fn fresh_album(entry: CacheEntry) -> PendingView {
    PendingView {
        id: id_of(entry),
        title: entry.album,
        artist: album_byline(entry),
        tracks: Seq::empty(),
        contributions: Seq::empty(),
    }
}

/// The first of some albums, from the `k`-th on, with the given id.
pub open spec fn album_in(albums: Seq<PendingView>, id: u64, k: int) -> Option<int>
    decreases albums.len() - k,
{
    if k >= albums.len() {
        None
    } else if albums[k].id == id {
        Some(k)
    } else {
        album_in(albums, id, k + 1)
    }
}

/// The albums with one more track.
pub open spec fn grown(albums: Seq<PendingView>, dir: Seq<char>, path: String, entry: CacheEntry) -> Seq<PendingView> {
    match album_in(albums, id_of(entry), 0) {
        Some(k) => albums.update(k, albums[k].with_track(dir, path, entry)),
        None => albums.push(fresh_album(entry).with_track(dir, path, entry)),
    }
}

/// A file of a directory, with its tags.
#[derive(Debug)]
pub struct Tagged {
    pub path: String,
    pub entry: CacheEntry,
}

/// The albums with the first `n` files of a directory taken in.
pub open spec fn absorbing(albums: Seq<PendingView>, dir: Seq<char>, files: Seq<Tagged>, n: int) -> Seq<PendingView>
    decreases n,
{
    if n <= 0 {
        albums
    } else {
        grown(absorbing(albums, dir, files, n - 1), dir, files[n - 1].path, files[n - 1].entry)
    }
}

/// A directory that is still to be read, and the albums that the tag cache expects it to contribute to.
#[derive(Debug)]
pub struct Expected {
    pub dir: String,
    pub ids: Vec<u64>,
}

/// A directory that is still to be read, by its path and the albums expected of it.
pub type ExpectedView = (Seq<char>, Seq<u64>);

/// What is expected of some directories.
pub open spec fn expectations(expected: Seq<Expected>) -> Seq<ExpectedView> {
    expected.map_values(|e: Expected| (e.dir@, e.ids@))
}

/// Some directory that is still to be read is expected to contribute to the album.
pub open spec fn is_awaited(expected: Seq<ExpectedView>, id: u64) -> bool {
    exists|k: int| 0 <= k < expected.len() && (#[trigger] expected[k]).1.contains(id)
}

/// The first of some directories, from the `k`-th on, with the given path.
pub open spec fn awaited_dir(expected: Seq<ExpectedView>, dir: Seq<char>, k: int) -> Option<int>
    decreases expected.len() - k,
{
    if k >= expected.len() {
        None
    } else if expected[k].0 == dir {
        Some(k)
    } else {
        awaited_dir(expected, dir, k + 1)
    }
}

/// What is still expected once a directory has been read.
pub open spec fn without_dir(expected: Seq<ExpectedView>, dir: Seq<char>) -> Seq<ExpectedView> {
    match awaited_dir(expected, dir, 0) {
        Some(k) => expected.remove(k),
        None => expected,
    }
}

/// The albums that the tag cache expects the first `n` files of a directory to belong to.
pub open spec fn ids_expected(files: Seq<AudioFile>, n: int) -> Seq<u64>
    decreases n,
{
    if n <= 0 {
        Seq::empty()
    } else {
        let before = ids_expected(files, n - 1);
        match files[n - 1].valid() {
            Some(entry) => before.push(id_of(entry)),
            None => before,
        }
    }
}

/// What the tag cache expects of the first `n` of some directories.
pub open spec fn expected_of(jobs: Seq<DirJob>, n: int) -> Seq<ExpectedView>
    decreases n,
{
    if n <= 0 {
        Seq::empty()
    } else {
        let before = expected_of(jobs, n - 1);
        let ids = ids_expected(jobs[n - 1].files@, jobs[n - 1].files@.len() as int);
        if ids.len() > 0 {
            before.push((jobs[n - 1].dir@, ids))
        } else {
            before
        }
    }
}

/// A directory's cover image candidate.
#[derive(Debug)]
pub struct DirCover {
    pub dir: String,
    pub path: String,
    pub mtime: Mtime,
}

/// The cover of a directory: of the first of some, from the `k`-th on, with its path.
pub open spec fn cover_in(covers: Seq<DirCover>, dir: Seq<char>, k: int) -> Option<DirCover>
    decreases covers.len() - k,
{
    if k >= covers.len() {
        None
    } else if covers[k].dir@ == dir {
        Some(covers[k])
    } else {
        cover_in(covers, dir, k + 1)
    }
}

/// The cover of a directory, or of its parent.
pub open spec fn cover_at(covers: Seq<DirCover>, dir: Seq<char>, above: bool) -> Option<DirCover> {
    if above {
        match parent_of(dir) {
            Some(parent) => cover_in(covers, parent, 0),
            None => None,
        }
    } else {
        cover_in(covers, dir, 0)
    }
}

/// A directory's cover is a better choice than another's: it holds more of the album's tracks, or as many
/// and comes first.
pub open spec fn is_better(a: (Seq<char>, int), b: (Seq<char>, int)) -> bool {
    a.1 > b.1 || (a.1 == b.1 && path_rel(a.0, b.0) < 0)
}

/// The `k`-th contributing directory has a cover, and no better choice has.
pub open spec fn is_best(counts: Seq<(Seq<char>, int)>, covers: Seq<DirCover>, above: bool, k: int) -> bool {
    &&& 0 <= k < counts.len()
    &&& cover_at(covers, counts[k].0, above) is Some
    &&& forall|j: int|
        0 <= j < counts.len() && cover_at(covers, (#[trigger] counts[j]).0, above) is Some ==> !is_better(
            counts[j],
            counts[k],
        )
}

/// No contributing directory has a cover.
pub open spec fn is_bare(counts: Seq<(Seq<char>, int)>, covers: Seq<DirCover>, above: bool) -> bool {
    forall|j: int|
        0 <= j < counts.len() ==> cover_at(covers, (#[trigger] counts[j]).0, above) is None
}

/// The choice of an album's cover.
pub open spec fn is_choice(counts: Seq<(Seq<char>, int)>, covers: Seq<DirCover>, choice: Option<DirCover>) -> bool {
    if !is_bare(counts, covers, false) {
        exists|k: int|
            #[trigger] is_best(counts, covers, false, k) && choice == cover_at(covers, counts[k].0, false)
    } else if !is_bare(counts, covers, true) {
        exists|k: int| #[trigger] is_best(counts, covers, true, k) && choice == cover_at(covers, counts[k].0, true)
    } else {
        choice is None
    }
}

/// When a file was changed, as a text.
pub open spec fn stamp_of(mtime: Mtime) -> Seq<char> {
    let secs = if mtime.secs < 0 {
        seq!['-'] + decimal((-mtime.secs) as nat)
    } else {
        decimal(mtime.secs as nat)
    };
    secs + seq!['.'] + decimal(mtime.nanos as nat)
}

/// The identity of a cover: a hash of its file and of when that was changed.
pub open spec fn cover_id_of(path: Seq<char>, mtime: Mtime) -> u64 {
    DefaultHasher::spec_finish(text_writes(path) + text_writes(stamp_of(mtime)))
}

/// A stable hash-based identity for covers.
pub fn cover_id(path: &str, mtime: Mtime) -> (id: u64)
    ensures
        id == cover_id_of(path@, mtime),
{
    let mut stamp: String = String::new();
    if mtime.secs < 0 {
        stamp.push('-');
        push_decimal(&mut stamp, (-(mtime.secs as i128)) as u64);
    } else {
        push_decimal(&mut stamp, mtime.secs as u64);
    }
    stamp.push('.');
    push_decimal(&mut stamp, mtime.nanos as u64);
    assert(stamp@ =~= stamp_of(mtime));
    let mut hasher: DefaultHasher = DefaultHasher::new();
    hash_text(&mut hasher, path);
    hash_text(&mut hasher, stamp.as_str());
    assert(hasher@ =~= text_writes(path@) + text_writes(stamp@));
    hasher.finish()
}

/// See the module's documentation.
#[derive(Debug)]
pub struct Assembler {
    pub albums: Vec<PendingAlbum>,
    /// Per unread directory, the albums the tag cache expects it to contribute to: drained as directories
    /// complete.
    pub expected: Vec<Expected>,
    /// Albums touched since they were last emitted.
    pub dirty: Vec<u64>,
    /// `(cover id, album id)` pairs already queued for decoding, so a re-emission with an
    /// unchanged choice doesn't decode the cover again.
    pub queued: Vec<(u64, u64)>,
    /// Every walked directory's cover image candidate -- including directories without audio
    /// files, whose covers may dress the albums in their subdirectories.
    pub covers: Vec<DirCover>,
    /// Covers the consumer already holds decoded: never queued.
    pub known_covers: Vec<u64>,
}

/// The albums being assembled, and what is known of their completion and covers.
#[verifier::ext_equal]
pub struct AssemblerView {
    pub albums: Seq<PendingView>,
    pub expected: Seq<ExpectedView>,
    pub dirty: Set<u64>,
    pub queued: Set<(u64, u64)>,
    pub covers: Seq<DirCover>,
    pub known_covers: Set<u64>,
}

/// Some albums being assembled, by what they hold.
pub open spec fn pending_views(albums: Seq<PendingAlbum>) -> Seq<PendingView> {
    albums.map_values(|a: PendingAlbum| a@)
}

impl View for Assembler {
    type V = AssemblerView;

    open spec fn view(&self) -> AssemblerView {
        AssemblerView {
            albums: pending_views(self.albums@),
            expected: expectations(self.expected@),
            dirty: self.dirty@.to_set(),
            queued: self.queued@.to_set(),
            covers: self.covers@,
            known_covers: self.known_covers@.to_set(),
        }
    }
}

/// No directory is counted for more tracks than the album has.
pub open spec fn counts_fit(album: PendingAlbum) -> bool {
    forall|k: int| 0 <= k < album.contributions@.len() ==> (#[trigger] album.contributions@[k]).n <= album.tracks@.len()
}

impl AssemblerView {
    /// An album is being assembled.
    pub open spec fn holds(self, id: u64) -> bool {
        album_in(self.albums, id, 0) is Some
    }

    /// Some files of a directory have been read.
    pub open spec fn absorbed(self, dir: Seq<char>, files: Seq<Tagged>) -> AssemblerView {
        AssemblerView {
            albums: absorbing(self.albums, dir, files, files.len() as int),
            dirty: self.dirty + Set::new(|id: u64| is_touched(files, id)),
            expected: without_dir(self.expected, dir),
            ..self
        }
    }

    /// The touched albums that nothing more is expected of.
    pub open spec fn settled(self) -> Set<u64> {
        Set::new(|id: u64| self.dirty.contains(id) && !is_awaited(self.expected, id))
    }
}

/// Some file of a directory belongs to the album.
pub open spec fn is_touched(files: Seq<Tagged>, id: u64) -> bool {
    exists|k: int| 0 <= k < files.len() && id_of((#[trigger] files[k]).entry) == id
}

impl Assembler {
    /// No album is touched that is not being assembled, or touched twice.
    pub open spec fn wf(&self) -> bool {
        &&& self.dirty@.no_duplicates()
        &&& forall|id: u64| #[trigger] self.dirty@.contains(id) ==> self@.holds(id)
        &&& forall|k: int| 0 <= k < self.albums@.len() ==> counts_fit(#[trigger] self.albums@[k])
    }

    /// Starts assembling, with nothing read yet.
    pub fn new(jobs: &Vec<DirJob>, covers: Vec<DirCover>, known_covers: Vec<u64>) -> (assembler: Self)
        ensures
            assembler.wf(),
            assembler@ == (AssemblerView {
                albums: Seq::empty(),
                expected: expected_of(jobs@, jobs@.len() as int),
                dirty: Set::empty(),
                queued: Set::empty(),
                covers: covers@,
                known_covers: known_covers@.to_set(),
            }),
    {
        let mut expected: Vec<Expected> = Vec::new();
        assert(expectations(expected@) =~= Seq::empty());
        let mut n: usize = 0;
        while n < jobs.len()
            invariant
                n <= jobs.len(),
                expectations(expected@) == expected_of(jobs@, n as int),
            decreases jobs.len() - n,
        {
            let ghost before = expected@;
            let ids: Vec<u64> = predicted(&jobs[n].files);
            if ids.len() > 0 {
                let dir: String = jobs[n].dir.clone();
                expected.push(Expected { dir, ids });
                assert(expectations(expected@) =~= expectations(before).push((dir@, ids@)));
            }
            n = n + 1;
        }
        let assembler = Assembler {
            albums: Vec::new(),
            expected,
            dirty: Vec::new(),
            queued: Vec::new(),
            covers,
            known_covers,
        };
        assert(assembler@.albums =~= Seq::empty());
        assert(assembler@.dirty =~= Set::empty());
        assert(assembler@.queued =~= Set::empty());
        assembler
    }

    fn find(&self, id: u64) -> (k: Option<usize>)
        ensures
            match k {
                Some(k) => album_in(self@.albums, id, 0) == Some(k as int) && k < self.albums.len(),
                None => album_in(self@.albums, id, 0) is None,
            },
    {
        let mut k: usize = 0;
        while k < self.albums.len()
            invariant
                k <= self.albums.len(),
                album_in(self@.albums, id, 0) == album_in(self@.albums, id, k as int),
            decreases self.albums.len() - k,
        {
            assert(self@.albums[k as int] == self.albums@[k as int]@);
            if self.albums[k].id == id {
                return Some(k);
            }
            k = k + 1;
        }
        None
    }

    fn touch(&mut self, id: u64)
        requires
            old(self).wf(),
            old(self)@.holds(id),
        ensures
            final(self).wf(),
            final(self)@ == (AssemblerView { dirty: old(self)@.dirty.insert(id), ..old(self)@ }),
            final(self).albums == old(self).albums,
    {
        let mut k: usize = 0;
        while k < self.dirty.len()
            invariant
                k <= self.dirty.len(),
                *self == *old(self),
                old(self).wf(),
                forall|l: int| 0 <= l < k ==> self.dirty@[l] != id,
            decreases self.dirty.len() - k,
        {
            if self.dirty[k] == id {
                assert(self.dirty@.contains(id));
                assert(self@.dirty =~= old(self)@.dirty.insert(id));
                return;
            }
            k = k + 1;
        }
        self.dirty.push(id);
        proof {
            lemma_pushed(old(self).dirty@, id);
        }
    }

    fn grow(&mut self, dir: &str, path: &String, entry: &CacheEntry)
        requires
            old(self).wf(),
        ensures
            final(self).wf(),
            final(self)@ == (AssemblerView {
                albums: grown(old(self)@.albums, dir@, *path, *entry),
                dirty: old(self)@.dirty.insert(id_of(*entry)),
                ..old(self)@
            }),
    {
        let id: u64 = album_id(entry);
        let ghost before = self@.albums;
        match self.find(id) {
            Some(k) => {
                let mut album: PendingAlbum = self.albums.remove(k);
                add_track(&mut album, dir, path, entry);
                self.albums.insert(k, album);
                assert(self@.albums =~= before.update(k as int, album@));
                assert forall|l: int| 0 <= l < self.albums@.len() implies counts_fit(#[trigger] self.albums@[l]) by {
                    if l < k {
                        assert(self.albums@[l] == old(self).albums@[l]);
                    } else if l > k {
                        assert(self.albums@[l] == old(self).albums@[l]);
                    }
                }
            },
            None => {
                let (artist, title) = album_key(entry);
                let mut album = PendingAlbum {
                    id,
                    title: title.clone(),
                    artist: artist.clone(),
                    tracks: Vec::new(),
                    contributions: Vec::new(),
                };
                assert(album@ =~= fresh_album(*entry));
                add_track(&mut album, dir, path, entry);
                self.albums.push(album);
                assert(self@.albums =~= before.push(album@));
            },
        }
        assert(self@.albums =~= grown(before, dir@, *path, *entry));
        proof {
            lemma_grown_holds(before, dir@, *path, *entry);
            assert(self@.holds(id));
        }
        self.touch(id);
    }

    /// Takes in one read directory's worth of resolved tags: grows the albums its files belong
    /// to and retires the directory from every album's expectations.
    pub fn absorb(&mut self, dir: &str, files: &Vec<Tagged>)
        requires
            old(self).wf(),
        ensures
            final(self).wf(),
            final(self)@ == old(self)@.absorbed(dir@, files@),
    {
        let ghost before = self@;
        let mut n: usize = 0;
        assert(self@.dirty =~= before.dirty + Set::new(|id: u64| is_touched(files@.take(0), id)));
        while n < files.len()
            invariant
                n <= files.len(),
                self.wf(),
                self@ == (AssemblerView {
                    albums: absorbing(before.albums, dir@, files@, n as int),
                    dirty: before.dirty + Set::new(|id: u64| is_touched(files@.take(n as int), id)),
                    ..before
                }),
            decreases files.len() - n,
        {
            self.grow(dir, &files[n].path, &files[n].entry);
            proof {
                let first = files@.take(n as int);
                let upto = files@.take(n + 1);
                let id = id_of(files@[n as int].entry);
                assert forall|x: u64| is_touched(upto, x) <==> is_touched(first, x) || x == id by {
                    if is_touched(upto, x) {
                        let k = choose|k: int| 0 <= k < upto.len() && id_of((#[trigger] upto[k]).entry) == x;
                        if k < n {
                            assert(first[k] == upto[k]);
                        }
                    }
                    if is_touched(first, x) {
                        let k = choose|k: int| 0 <= k < first.len() && id_of((#[trigger] first[k]).entry) == x;
                        assert(upto[k] == first[k]);
                    }
                    assert(upto[n as int] == files@[n as int]);
                }
                assert((before.dirty + Set::new(|id: u64| is_touched(first, id))).insert(id) =~= before.dirty + Set::new(
                    |id: u64| is_touched(upto, id),
                ));
            }
            n = n + 1;
        }
        assert(files@.take(n as int) =~= files@);
        self.retire(dir);
    }

    fn retire(&mut self, dir: &str)
        requires
            old(self).wf(),
        ensures
            final(self).wf(),
            final(self)@ == (AssemblerView { expected: without_dir(old(self)@.expected, dir@), ..old(self)@ }),
    {
        let mut k: usize = 0;
        while k < self.expected.len()
            invariant
                k <= self.expected.len(),
                *self == *old(self),
                old(self).wf(),
                awaited_dir(self@.expected, dir@, 0) == awaited_dir(self@.expected, dir@, k as int),
            decreases self.expected.len() - k,
        {
            assert(self@.expected[k as int].0 == self.expected@[k as int].dir@);
            if same(self.expected[k].dir.as_str(), dir) {
                let ghost before = self@.expected;
                self.expected.remove(k);
                assert(self@.expected =~= before.remove(k as int));
                return;
            }
            k = k + 1;
        }
    }

    fn awaits(&self, id: u64) -> (r: bool)
        ensures
            r == is_awaited(self@.expected, id),
    {
        let mut k: usize = 0;
        while k < self.expected.len()
            invariant
                k <= self.expected.len(),
                forall|l: int| 0 <= l < k ==> !(#[trigger] self@.expected[l]).1.contains(id),
            decreases self.expected.len() - k,
        {
            assert(self@.expected[k as int].1 == self.expected@[k as int].ids@);
            if holds_id(&self.expected[k].ids, id) {
                return true;
            }
            k = k + 1;
        }
        false
    }

    /// Drains and returns the touched albums that are ready to emit: all their expected
    /// directories have been read. Sorted for a deterministic emission order.
    pub fn ready(&mut self) -> (ids: Vec<u64>)
        requires
            old(self).wf(),
        ensures
            final(self).wf(),
            ascending(ids@, old(self)@.settled()),
            final(self)@ == (AssemblerView {
                dirty: old(self)@.dirty.difference(old(self)@.settled()),
                ..old(self)@
            }),
            final(self).albums == old(self).albums,
    {
        let mut ready: Vec<u64> = Vec::new();
        let mut rest: Vec<u64> = Vec::new();
        let mut k: usize = 0;
        while k < self.dirty.len()
            invariant
                k <= self.dirty.len(),
                self.dirty@.no_duplicates(),
                ready@.no_duplicates(),
                rest@.no_duplicates(),
                forall|id: u64|
                    #[trigger] ready@.contains(id) <==> self.dirty@.take(k as int).contains(id) && !is_awaited(
                        self@.expected,
                        id,
                    ),
                forall|id: u64|
                    #[trigger] rest@.contains(id) <==> self.dirty@.take(k as int).contains(id) && is_awaited(
                        self@.expected,
                        id,
                    ),
            decreases self.dirty.len() - k,
        {
            let id: u64 = self.dirty[k];
            let ghost first = self.dirty@.take(k as int);
            let ghost upto = self.dirty@.take(k + 1);
            assert(upto =~= first.push(id));
            assert(!first.contains(id));
            let ghost before = (ready@, rest@);
            assert(!ready@.contains(id));
            assert(!rest@.contains(id));
            proof {
                lemma_pushed(ready@, id);
                lemma_pushed(rest@, id);
            }
            if self.awaits(id) {
                rest.push(id);
            } else {
                ready.push(id);
            }
            proof {
                assert forall|x: u64| #[trigger] upto.contains(x) <==> first.contains(x) || x == id by {
                    vstd::seq_lib::lemma_seq_contains_after_push(first, id, x);
                }
                assert forall|x: u64| true implies (ready@.contains(x) <==> before.0.contains(x) || (ready@ != before.0
                    && x == id)) by {
                    vstd::seq_lib::lemma_seq_contains_after_push(before.0, id, x);
                }
                assert forall|x: u64| true implies (rest@.contains(x) <==> before.1.contains(x) || (rest@ != before.1
                    && x == id)) by {
                    vstd::seq_lib::lemma_seq_contains_after_push(before.1, id, x);
                }
            }
            k = k + 1;
        }
        assert(self.dirty@.take(k as int) =~= self.dirty@);
        let ids: Vec<u64> = ascended(&ready);
        assert(ready@.to_set() =~= old(self)@.settled()) by {
            assert forall|x: u64| ready@.to_set().contains(x) <==> old(self)@.settled().contains(x) by {
                assert(ready@.contains(x) <==> self.dirty@.contains(x) && !is_awaited(self@.expected, x));
            }
        }
        assert(rest@.to_set() =~= old(self)@.dirty.difference(old(self)@.settled())) by {
            assert forall|x: u64|
                rest@.to_set().contains(x) <==> old(self)@.dirty.difference(old(self)@.settled()).contains(x) by {
                assert(rest@.contains(x) <==> self.dirty@.contains(x) && is_awaited(self@.expected, x));
            }
        }
        self.dirty = rest;
        assert forall|id: u64| #[trigger] self.dirty@.contains(id) implies self@.holds(id) by {
            assert(old(self).dirty@.contains(id));
        }
        ids
    }

    /// Drains and returns every still-unemitted album, for the end of the tag phase (an album
    /// expecting a directory that failed to read, or whose count a stale prediction overshot).
    pub fn flush(&mut self) -> (ids: Vec<u64>)
        requires
            old(self).wf(),
        ensures
            final(self).wf(),
            ascending(ids@, old(self)@.dirty),
            final(self)@ == (AssemblerView { dirty: Set::empty(), ..old(self)@ }),
            final(self).albums == old(self).albums,
    {
        let ids: Vec<u64> = ascended(&self.dirty);
        self.dirty = Vec::new();
        assert(self@.dirty =~= Set::empty());
        ids
    }
}

fn holds_id(ids: &Vec<u64>, id: u64) -> (r: bool)
    ensures
        r == ids@.contains(id),
{
    let mut k: usize = 0;
    while k < ids.len()
        invariant
            k <= ids.len(),
            forall|l: int| 0 <= l < k ==> ids@[l] != id,
        decreases ids.len() - k,
    {
        if ids[k] == id {
            assert(ids@[k as int] == id);
            return true;
        }
        k = k + 1;
    }
    false
}

fn predicted(files: &Vec<AudioFile>) -> (ids: Vec<u64>)
    ensures
        ids@ == ids_expected(files@, files@.len() as int),
{
    let mut ids: Vec<u64> = Vec::new();
    let mut n: usize = 0;
    while n < files.len()
        invariant
            n <= files.len(),
            ids@ == ids_expected(files@, n as int),
        decreases files.len() - n,
    {
        if let Some(entry) = files[n].valid_entry() {
            ids.push(album_id(entry));
        }
        n = n + 1;
    }
    ids
}

proof fn lemma_pushed(ids: Seq<u64>, id: u64)
    requires
        ids.no_duplicates(),
        forall|l: int| 0 <= l < ids.len() ==> ids[l] != id,
    ensures
        ids.push(id).no_duplicates(),
        ids.push(id).to_set() == ids.to_set().insert(id),
        forall|x: u64| #[trigger] ids.push(id).contains(x) <==> ids.contains(x) || x == id,
{
    assert forall|x: u64| #[trigger] ids.push(id).contains(x) <==> ids.contains(x) || x == id by {
        vstd::seq_lib::lemma_seq_contains_after_push(ids, id, x);
    }
    assert(ids.push(id).to_set() =~= ids.to_set().insert(id));
}

fn add_track(album: &mut PendingAlbum, dir: &str, path: &String, entry: &CacheEntry)
    requires
        counts_fit(*old(album)),
    ensures
        counts_fit(*final(album)),
        final(album)@ == old(album)@.with_track(dir@, *path, *entry),
{
    album.tracks.push(
        PendingTrack {
            disc: entry.disc,
            track: entry.track,
            year: entry.year,
            genre: entry.genre.clone(),
            info: TrackInfo { path: path.clone(), title: entry.title.clone() },
        },
    );
    let ghost before = album.contributions@;
    let mut k: usize = 0;
    while k < album.contributions.len()
        invariant
            k <= album.contributions.len(),
            album.contributions@ == before,
            album@ == (PendingView { tracks: old(album)@.tracks.push(track_of(*path, *entry)), ..old(album)@ }),
            counts_fit(*old(album)),
            before == old(album).contributions@,
            album.tracks@.len() == old(album).tracks@.len() + 1,
            dir_in(counts(before), dir@, 0) == dir_in(counts(before), dir@, k as int),
        decreases album.contributions.len() - k,
    {
        assert(counts(before)[k as int].0 == before[k as int].dir@);
        if same(album.contributions[k].dir.as_str(), dir) {
            let n: usize = album.contributions[k].n;
            assert(before[k as int].n <= old(album).tracks@.len());
            let len: usize = album.tracks.len();
            let dir_copy: String = album.contributions[k].dir.clone();
            album.contributions.set(k, Contribution { dir: dir_copy, n: n + 1 });
            assert(counts(album.contributions@) =~= counted(counts(before), dir@));
            assert forall|l: int| 0 <= l < album.contributions@.len() implies (
            #[trigger] album.contributions@[l]).n <= album.tracks@.len() by {
                if l != k {
                    assert(album.contributions@[l] == before[l]);
                    assert(before[l].n <= old(album).tracks@.len());
                }
            }
            return;
        }
        k = k + 1;
    }
    album.contributions.push(Contribution { dir: crate::text::copy(dir), n: 1 });
    assert(counts(album.contributions@) =~= counted(counts(before), dir@));
    assert forall|l: int| 0 <= l < album.contributions@.len() implies (#[trigger] album.contributions@[l]).n
        <= album.tracks@.len() by {
        if l < before.len() {
            assert(album.contributions@[l] == before[l]);
            assert(before[l].n <= old(album).tracks@.len());
        }
    }
}

pub(crate) proof fn lemma_album_in(albums: Seq<PendingView>, id: u64, k: int)
    requires
        0 <= k <= albums.len(),
    ensures
        match album_in(albums, id, k) {
            Some(ix) => k <= ix < albums.len() && albums[ix].id == id,
            None => forall|l: int| k <= l < albums.len() ==> (#[trigger] albums[l]).id != id,
        },
    decreases albums.len() - k,
{
    if k < albums.len() && albums[k].id != id {
        lemma_album_in(albums, id, k + 1);
    }
}

proof fn lemma_grown_holds(albums: Seq<PendingView>, dir: Seq<char>, path: String, entry: CacheEntry)
    ensures
        forall|id: u64|
            (#[trigger] album_in(grown(albums, dir, path, entry), id, 0)) is Some <==> album_in(albums, id, 0) is Some
                || id == id_of(entry),
{
    let after = grown(albums, dir, path, entry);
    lemma_album_in(albums, id_of(entry), 0);
    assert forall|id: u64|
        (#[trigger] album_in(after, id, 0)) is Some <==> album_in(albums, id, 0) is Some || id == id_of(entry) by {
        lemma_album_in(albums, id, 0);
        lemma_album_in(after, id, 0);
        match album_in(albums, id, 0) {
            Some(ix) => {
                assert(after[ix].id == id);
            },
            None => {},
        }
        if id == id_of(entry) {
            match album_in(albums, id, 0) {
                Some(ix) => {
                    assert(after[ix].id == id);
                },
                None => {
                    assert(after[albums.len() as int].id == id);
                },
            }
        }
        match album_in(after, id, 0) {
            Some(ix) => {
                if ix < albums.len() {
                    assert(albums[ix].id == id);
                }
            },
            None => {},
        }
    }
}

fn find_cover(covers: &Vec<DirCover>, dir: &str) -> (k: Option<usize>)
    ensures
        match k {
            Some(k) => k < covers.len() && cover_in(covers@, dir@, 0) == Some(covers@[k as int]),
            None => cover_in(covers@, dir@, 0) is None,
        },
{
    let mut k: usize = 0;
    while k < covers.len()
        invariant
            k <= covers.len(),
            cover_in(covers@, dir@, 0) == cover_in(covers@, dir@, k as int),
        decreases covers.len() - k,
    {
        if same(covers[k].dir.as_str(), dir) {
            return Some(k);
        }
        k = k + 1;
    }
    None
}

fn find_cover_at(covers: &Vec<DirCover>, dir: &str, above: bool) -> (k: Option<usize>)
    ensures
        match k {
            Some(k) => k < covers.len() && cover_at(covers@, dir@, above) == Some(covers@[k as int]),
            None => cover_at(covers@, dir@, above) is None,
        },
{
    if above {
        match parent(dir) {
            Some(dir) => find_cover(covers, dir.as_str()),
            None => None,
        }
    } else {
        find_cover(covers, dir)
    }
}

fn better(a: &Contribution, b: &Contribution) -> (r: bool)
    ensures
        r == is_better((a.dir@, a.n as int), (b.dir@, b.n as int)),
{
    a.n > b.n || (a.n == b.n && compare_paths(a.dir.as_str(), b.dir.as_str()) < 0)
}

proof fn lemma_better(a: (Seq<char>, int), b: (Seq<char>, int), c: (Seq<char>, int))
    ensures
        !is_better(a, a),
        is_better(b, a) && !is_better(c, a) ==> !is_better(c, b),
{
    law_texts_are_ordered(path_key(a.0), path_key(a.0), path_key(a.0));
    law_texts_are_ordered(path_key(c.0), path_key(b.0), path_key(a.0));
    law_texts_are_ordered(path_key(a.0), path_key(c.0), Seq::empty());
    law_texts_are_ordered(path_key(a.0), path_key(b.0), Seq::empty());
    law_texts_are_ordered(path_key(b.0), path_key(a.0), Seq::empty());
}

/// The best choice among the contributing directories with a cover: the directory's position, and the
/// cover's.
fn best_cover(contributions: &Vec<Contribution>, covers: &Vec<DirCover>, above: bool) -> (best: Option<(usize, usize)>)
    ensures
        match best {
            Some((k, c)) => is_best(counts(contributions@), covers@, above, k as int) && c < covers.len()
                && cover_at(covers@, counts(contributions@)[k as int].0, above) == Some(covers@[c as int]),
            None => is_bare(counts(contributions@), covers@, above),
        },
{
    let ghost all = counts(contributions@);
    let mut best: Option<(usize, usize)> = None;
    let mut j: usize = 0;
    while j < contributions.len()
        invariant
            j <= contributions.len(),
            all == counts(contributions@),
            match best {
                Some((k, c)) => {
                    &&& k < j
                    &&& c < covers.len()
                    &&& cover_at(covers@, all[k as int].0, above) == Some(covers@[c as int])
                    &&& forall|i: int|
                        0 <= i < j && cover_at(covers@, (#[trigger] all[i]).0, above) is Some ==> !is_better(
                            all[i],
                            all[k as int],
                        )
                },
                None => forall|i: int| 0 <= i < j ==> cover_at(covers@, (#[trigger] all[i]).0, above) is None,
            },
        decreases contributions.len() - j,
    {
        assert(all[j as int] == (contributions@[j as int].dir@, contributions@[j as int].n as int));
        if let Some(c) = find_cover_at(covers, contributions[j].dir.as_str(), above) {
            match best {
                Some((k, _)) => {
                    assert(all[k as int] == (contributions@[k as int].dir@, contributions@[k as int].n as int));
                    if better(&contributions[j], &contributions[k]) {
                        assert forall|i: int|
                            0 <= i < j + 1 && cover_at(covers@, (#[trigger] all[i]).0, above) is Some implies !is_better(
                            all[i],
                            all[j as int],
                        ) by {
                            lemma_better(all[k as int], all[j as int], all[i]);
                            lemma_better(all[j as int], all[j as int], all[j as int]);
                        }
                        best = Some((j, c));
                    }
                },
                None => {
                    proof {
                        lemma_better(all[j as int], all[j as int], all[j as int]);
                    }
                    best = Some((j, c));
                },
            }
        }
        j = j + 1;
    }
    best
}

/// Picks an album's cover from the directories its tracks live in: the cover of the contributing
/// directory holding most of its tracks (the lexicographically first directory breaks ties, for
/// determinism across scan orders). When no contributing directory has a cover, their parents are
/// tried the same way -- the disc-per-directory layout keeps the cover beside the disc
/// directories, in the album's own.
pub fn choose_cover<'c>(contributions: &Vec<Contribution>, covers: &'c Vec<DirCover>) -> (choice: Option<&'c DirCover>)
    ensures
        is_choice(
            counts(contributions@),
            covers@,
            match choice {
                Some(cover) => Some(*cover),
                None => None,
            },
        ),
{
    let ghost all = counts(contributions@);
    if let Some((k, c)) = best_cover(contributions, covers, false) {
        assert(cover_at(covers@, all[k as int].0, false) is Some);
        assert(is_best(all, covers@, false, k as int));
        return Some(&covers[c]);
    }
    match best_cover(contributions, covers, true) {
        Some((k, c)) => {
            assert(cover_at(covers@, all[k as int].0, true) is Some);
            assert(is_best(all, covers@, true, k as int));
            Some(&covers[c])
        },
        None => None,
    }
}

/// A track goes before another in an album.
pub open spec fn goes_before(tracks: Seq<PendingTrack>, i: usize, j: usize) -> bool {
    let rel = track_rel(tracks[i as int], tracks[j as int]);
    rel < 0 || (rel == 0 && i < j)
}

/// `order` names the tracks of an album, each once, in the album's order.
pub open spec fn is_track_order(order: Seq<usize>, tracks: Seq<PendingTrack>) -> bool {
    &&& order.len() == tracks.len()
    &&& forall|k: int| 0 <= k < order.len() ==> (#[trigger] order[k]) < tracks.len()
    &&& forall|i: usize| i < tracks.len() ==> #[trigger] order.contains(i)
    &&& forall|k: int, l: int|
        0 <= k < l < order.len() ==> goes_before(tracks, #[trigger] order[k], #[trigger] order[l])
}

/// The first genre among some tracks, from the `k`-th on; empty where no track has one.
pub open spec fn first_genre(tracks: Seq<PendingTrack>, order: Seq<usize>, k: int) -> Seq<char>
    decreases order.len() - k,
{
    if k >= order.len() {
        Seq::empty()
    } else if tracks[order[k] as int].genre@.len() > 0 {
        tracks[order[k] as int].genre@
    } else {
        first_genre(tracks, order, k + 1)
    }
}

/// The first year among some tracks, from the `k`-th on.
pub open spec fn first_year(tracks: Seq<PendingTrack>, order: Seq<usize>, k: int) -> Option<u32>
    decreases order.len() - k,
{
    if k >= order.len() {
        None
    } else if tracks[order[k] as int].year is Some {
        tracks[order[k] as int].year
    } else {
        first_year(tracks, order, k + 1)
    }
}

/// The identity of a chosen cover.
pub open spec fn choice_id(choice: Option<DirCover>) -> Option<u64> {
    match choice {
        Some(cover) => Some(cover_id_of(cover.path@, cover.mtime)),
        None => None,
    }
}

/// An album as it stands: its tracks in order, the first genre and year among them, and the chosen cover.
pub open spec fn is_standing(album: Album, pending: PendingView, order: Seq<usize>, choice: Option<DirCover>) -> bool {
    &&& album.id == pending.id
    &&& album.title == pending.title
    &&& album.artist == pending.artist
    &&& album.genre@ == first_genre(pending.tracks, order, 0)
    &&& album.year == first_year(pending.tracks, order, 0)
    &&& album.cover_id == choice_id(choice)
    &&& album.cover is None
    &&& album.accent is None
    &&& album.tracks@ == Seq::new(order.len(), |k: int| pending.tracks[order[k] as int].info)
}

/// An album as it stands, with the given choice of a cover.
pub open spec fn stands(album: Album, pending: PendingView, covers: Seq<DirCover>, choice: Option<DirCover>) -> bool {
    &&& is_choice(pending.contributions, covers, choice)
    &&& exists|order: Seq<usize>|
        #[trigger] is_track_order(order, pending.tracks) && is_standing(album, pending, order, choice)
}

/// A cover that is to be decoded for an album.
#[derive(Debug)]
pub struct CoverLoad {
    pub id: u64,
    pub album: u64,
    pub path: String,
    pub mtime: Mtime,
}

impl AssemblerView {
    /// The album with the given id.
    pub open spec fn pending(self, id: u64) -> PendingView {
        self.albums[album_in(self.albums, id, 0)->0]
    }

    /// The cover of an album is still to be decoded.
    pub open spec fn wants(self, album: Album) -> bool {
        album.cover_id matches Some(cover) && !self.known_covers.contains(cover) && !self.queued.contains(
            (cover, album.id),
        )
    }

    /// The cover of an album is being decoded, where that was still to be done.
    pub open spec fn queueing(self, album: Album) -> AssemblerView {
        if self.wants(album) {
            AssemblerView { queued: self.queued.insert((album.cover_id->0, album.id)), ..self }
        } else {
            self
        }
    }

    /// An album as it stands, and its cover where that is still to be decoded.
    pub open spec fn emits(self, id: u64, album: Album, load: Option<CoverLoad>) -> bool {
        exists|choice: Option<DirCover>|
            {
                &&& #[trigger] stands(album, self.pending(id), self.covers, choice)
                &&& load is Some <==> self.wants(album)
                &&& load matches Some(load) ==> choice matches Some(cover) && load.id == cover_id_of(
                    cover.path@,
                    cover.mtime,
                ) && load.album == id && load.path == cover.path && load.mtime == cover.mtime
            }
    }
}

fn is_queued(queued: &Vec<(u64, u64)>, cover: u64, album: u64) -> (r: bool)
    ensures
        r == queued@.contains((cover, album)),
{
    let mut k: usize = 0;
    while k < queued.len()
        invariant
            k <= queued.len(),
            forall|l: int| 0 <= l < k ==> queued@[l] != (cover, album),
        decreases queued.len() - k,
    {
        if queued[k].0 == cover && queued[k].1 == album {
            assert(queued@[k as int] == (cover, album));
            return true;
        }
        k = k + 1;
    }
    false
}

fn album_order(tracks: &Vec<PendingTrack>) -> (order: Vec<usize>)
    ensures
        is_track_order(order@, tracks@),
{
    let order: Vec<usize> = sorted(&Tracks(tracks), tracks.len());
    assert forall|k: int, l: int| 0 <= k < l < order.len() implies goes_before(
        tracks@,
        #[trigger] order@[k],
        #[trigger] order@[l],
    ) by {
        assert(Tracks(tracks).before(order@[k] as int, order@[l] as int));
    }
    order
}

fn find_genre(tracks: &Vec<PendingTrack>, order: &Vec<usize>) -> (genre: String)
    requires
        is_track_order(order@, tracks@),
    ensures
        genre@ == first_genre(tracks@, order@, 0),
{
    let mut k: usize = 0;
    while k < order.len()
        invariant
            k <= order.len(),
            is_track_order(order@, tracks@),
            first_genre(tracks@, order@, 0) == first_genre(tracks@, order@, k as int),
        decreases order.len() - k,
    {
        assert(order@[k as int] < tracks@.len());
        let genre: &String = &tracks[order[k]].genre;
        if genre.as_str().unicode_len() > 0 {
            return genre.clone();
        }
        k = k + 1;
    }
    let none = String::new();
    assert(none@ =~= Seq::empty());
    none
}

fn find_year(tracks: &Vec<PendingTrack>, order: &Vec<usize>) -> (year: Option<u32>)
    requires
        is_track_order(order@, tracks@),
    ensures
        year == first_year(tracks@, order@, 0),
{
    let mut k: usize = 0;
    while k < order.len()
        invariant
            k <= order.len(),
            is_track_order(order@, tracks@),
            first_year(tracks@, order@, 0) == first_year(tracks@, order@, k as int),
        decreases order.len() - k,
    {
        assert(order@[k as int] < tracks@.len());
        if tracks[order[k]].year.is_some() {
            return tracks[order[k]].year;
        }
        k = k + 1;
    }
    None
}

fn standing_tracks(tracks: &Vec<PendingTrack>, order: &Vec<usize>) -> (infos: Vec<TrackInfo>)
    requires
        is_track_order(order@, tracks@),
    ensures
        infos@ == Seq::new(order@.len(), |k: int| tracks@[order@[k] as int].info),
{
    let mut infos: Vec<TrackInfo> = Vec::new();
    while infos.len() < order.len()
        invariant
            infos.len() <= order.len(),
            is_track_order(order@, tracks@),
            infos@ == Seq::new(order@.len(), |k: int| tracks@[order@[k] as int].info).take(infos.len() as int),
        decreases order.len() - infos.len(),
    {
        let k: usize = infos.len();
        assert(order@[k as int] < tracks@.len());
        infos.push(tracks[order[k]].info.copy());
        assert(infos@ =~= Seq::new(order@.len(), |k: int| tracks@[order@[k] as int].info).take(
            infos.len() as int,
        ));
    }
    assert(infos@ =~= Seq::new(order@.len(), |k: int| tracks@[order@[k] as int].info));
    infos
}

impl Assembler {
    /// The album's current assembled state, plus -- when its chosen cover still needs decoding --
    /// the cover to queue. Genre is per-album: the first track (in album order) carrying one names the
    /// album's, and so with the year.
    pub fn snapshot(&mut self, id: u64) -> (r: (Album, Option<CoverLoad>))
        requires
            old(self).wf(),
            old(self)@.holds(id),
        ensures
            final(self).wf(),
            old(self)@.emits(id, r.0, r.1),
            r.0.id == id,
            final(self)@ == old(self)@.queueing(r.0),
            final(self).albums == old(self).albums,
    {
        let at: usize = match self.find(id) {
            Some(at) => at,
            None => 0,
        };
        proof {
            lemma_album_in(self@.albums, id, 0);
        }
        let pending: &PendingAlbum = &self.albums[at];
        assert(pending@ == self@.pending(id));
        let order: Vec<usize> = album_order(&pending.tracks);
        let choice: Option<&DirCover> = choose_cover(&pending.contributions, &self.covers);
        let ghost chosen = match choice {
            Some(cover) => Some(*cover),
            None => None,
        };
        let load: Option<CoverLoad> = match choice {
            Some(cover) => Some(
                CoverLoad {
                    id: cover_id(cover.path.as_str(), cover.mtime),
                    album: id,
                    path: cover.path.clone(),
                    mtime: cover.mtime,
                },
            ),
            None => None,
        };
        let chosen_id: Option<u64> = match &load {
            Some(load) => Some(load.id),
            None => None,
        };
        let album = Album {
            id,
            title: pending.title.clone(),
            artist: pending.artist.clone(),
            genre: find_genre(&pending.tracks, &order),
            year: find_year(&pending.tracks, &order),
            cover_id: chosen_id,
            cover: None,
            accent: None,
            tracks: standing_tracks(&pending.tracks, &order),
        };
        assert(is_standing(album, pending@, order@, chosen));
        assert(stands(album, self@.pending(id), self@.covers, chosen));
        if let Some(cover) = chosen_id {
            if !holds_id(&self.known_covers, cover) && !is_queued(&self.queued, cover, id) {
                assert(!self@.known_covers.contains(cover));
                assert(!self@.queued.contains((cover, id)));
                self.queued.push((cover, id));
                assert(self@.queued =~= old(self)@.queued.insert((cover, id))) by {
                    assert forall|x: (u64, u64)|
                        self@.queued.contains(x) <==> old(self)@.queued.insert((cover, id)).contains(x) by {
                        vstd::seq_lib::lemma_seq_contains_after_push(old(self).queued@, (cover, id), x);
                    }
                }
                return (album, load);
            }
            assert(self@.known_covers.contains(cover) || self@.queued.contains((cover, id)));
        }
        (album, None)
    }
}

/// What one more track makes of an album.
pub(crate) proof fn lemma_grown_keeps(albums: Seq<PendingView>, dir: Seq<char>, path: String, entry: CacheEntry, id: u64)
    ensures
        ({
            let after = grown(albums, dir, path, entry);
            match album_in(albums, id, 0) {
                Some(k) => album_in(after, id, 0) == Some(k) && after[k].tracks == if id_of(entry) == id {
                    albums[k].tracks.push(track_of(path, entry))
                } else {
                    albums[k].tracks
                },
                None => if id_of(entry) == id {
                    album_in(after, id, 0) matches Some(k) && after[k].tracks == Seq::<PendingTrack>::empty().push(
                        track_of(path, entry),
                    )
                } else {
                    album_in(after, id, 0) is None
                },
            }
        }),
{
    let after = grown(albums, dir, path, entry);
    lemma_album_in(albums, id, 0);
    lemma_album_in(albums, id_of(entry), 0);
    lemma_album_in(after, id, 0);
    lemma_first(albums, id, 0);
    lemma_first(after, id, 0);
    match album_in(albums, id, 0) {
        Some(k) => {
            assert(after[k].id == id);
            let l = album_in(after, id, 0)->0;
            if l < k {
                assert(albums[l].id == after[l].id);
            }
        },
        None => {
            match album_in(after, id, 0) {
                Some(l) => {
                    if l < albums.len() {
                        assert(albums[l].id == after[l].id);
                    }
                },
                None => {
                    if id_of(entry) == id {
                        assert(after[albums.len() as int].id == id);
                    }
                },
            }
        },
    }
}

proof fn lemma_first(albums: Seq<PendingView>, id: u64, k: int)
    requires
        0 <= k <= albums.len(),
    ensures
        album_in(albums, id, k) matches Some(ix) ==> forall|l: int|
            k <= l < ix ==> (#[trigger] albums[l]).id != id,
    decreases albums.len() - k,
{
    if k < albums.len() && albums[k].id != id {
        lemma_first(albums, id, k + 1);
    }
}

/// The number of the disc that a track is on: one without a number is on the first.
pub open spec fn disc_number(track: PendingTrack) -> int {
    if track.disc is Some {
        track.disc->0 as int
    } else {
        1
    }
}

/// An album lists each of its tracks once, disc by disc: every track of a lower disc stands before every track
/// of a higher one, whatever their track numbers. On a disc a lower track number stands before a higher one,
/// and tracks without a number come last; those that agree in both go by their titles.
pub proof fn law_albums_go_disc_by_disc(album: Album, pending: PendingView, covers: Seq<DirCover>, choice: Option<DirCover>)
    requires
        stands(album, pending, covers, choice),
    ensures
        album.tracks@.len() == pending.tracks.len(),
        exists|at: Seq<usize>|
            {
                let tracks = pending.tracks;
                &&& at.len() == tracks.len()
                &&& #[trigger] at.no_duplicates()
                &&& forall|k: int|
                    0 <= k < at.len() ==> (#[trigger] at[k]) < tracks.len() && album.tracks@[k]
                        == tracks[at[k] as int].info
                &&& forall|k: int, l: int|
                    0 <= k < l < at.len() ==> {
                        let a = tracks[#[trigger] at[k] as int];
                        let b = tracks[#[trigger] at[l] as int];
                        &&& disc_number(a) <= disc_number(b)
                        &&& disc_number(a) == disc_number(b) && a.track is Some && b.track is Some ==> a.track->0
                            <= b.track->0
                        &&& disc_number(a) == disc_number(b) && a.track is None && b.track is Some ==> b.track->0
                            == u32::MAX
                        &&& disc_number(a) == disc_number(b) && a.track == b.track ==> !is_alphabetically_before(
                            b.info.title@,
                            a.info.title@,
                        )
                    }
            },
{
    let order = choose|order: Seq<usize>|
        #[trigger] is_track_order(order, pending.tracks) && is_standing(album, pending, order, choice);
    let tracks = pending.tracks;
    assert forall|k: int, l: int| 0 <= k < l < order.len() implies #[trigger] order[k] != #[trigger] order[l] by {
        assert(goes_before(tracks, order[k], order[l]));
        lemma_track_rel(tracks[order[k] as int], tracks[order[l] as int], tracks[order[l] as int]);
    }
    assert(order.no_duplicates());
    assert forall|k: int, l: int| 0 <= k < l < order.len() implies {
        let a = tracks[#[trigger] order[k] as int];
        let b = tracks[#[trigger] order[l] as int];
        &&& disc_number(a) <= disc_number(b)
        &&& disc_number(a) == disc_number(b) && a.track is Some && b.track is Some ==> a.track->0 <= b.track->0
        &&& disc_number(a) == disc_number(b) && a.track is None && b.track is Some ==> b.track->0 == u32::MAX
        &&& disc_number(a) == disc_number(b) && a.track == b.track ==> !is_alphabetically_before(
            b.info.title@,
            a.info.title@,
        )
    } by {
        let a = tracks[order[k] as int];
        let b = tracks[order[l] as int];
        assert(goes_before(tracks, order[k], order[l]));
        if is_alphabetically_before(b.info.title@, a.info.title@) {
            lemma_alphabetical(b.info.title@, a.info.title@);
        }
    }
    assert forall|k: int| 0 <= k < order.len() implies (#[trigger] order[k]) < tracks.len() && album.tracks@[k]
        == tracks[order[k] as int].info by {}
}

proof fn lemma_cover_in(covers: Seq<DirCover>, dir: Seq<char>, k: int)
    requires
        0 <= k <= covers.len(),
    ensures
        match cover_in(covers, dir, k) {
            Some(found) => found.dir@ == dir && covers.contains(found),
            None => forall|c: int| k <= c < covers.len() ==> (#[trigger] covers[c]).dir@ != dir,
        },
    decreases covers.len() - k,
{
    if k < covers.len() {
        if covers[k].dir@ == dir {
            assert(covers.contains(covers[k]));
        } else {
            lemma_cover_in(covers, dir, k + 1);
        }
    }
}

/// An album's cover is of a directory that it has tracks in, where one of them has a cover: of the one that holds
/// the most of its tracks. Only where none has, that above one of them is looked at.
pub proof fn law_the_cover_is_where_most_tracks_are(
    album: Album,
    pending: PendingView,
    covers: Seq<DirCover>,
    choice: Option<DirCover>,
    j: int,
    c: int,
)
    requires
        stands(album, pending, covers, choice),
        0 <= j < pending.contributions.len(),
        0 <= c < covers.len(),
        covers[c].dir@ == pending.contributions[j].0,
    ensures
        choice is Some,
        covers.contains(choice->0),
        exists|k: int|
            {
                &&& 0 <= k < pending.contributions.len()
                &&& (#[trigger] pending.contributions[k]).0 == choice->0.dir@
                &&& pending.contributions[k].1 >= pending.contributions[j].1
            },
        album.cover_id == Some(cover_id_of(choice->0.path@, choice->0.mtime)),
{
    let counts = pending.contributions;
    lemma_cover_in(covers, counts[j].0, 0);
    assert(cover_at(covers, counts[j].0, false) is Some);
    assert(!is_bare(counts, covers, false));
    let k = choose|k: int|
        #[trigger] is_best(counts, covers, false, k) && choice == cover_at(covers, counts[k].0, false);
    lemma_cover_in(covers, counts[k].0, 0);
    assert(!is_better(counts[j], counts[k]));
    assert(counts[k].0 == choice->0.dir@);
}

/// An album without a cover has tracks in no directory that has one.
pub proof fn law_no_cover_is_passed_over(
    album: Album,
    pending: PendingView,
    covers: Seq<DirCover>,
    j: int,
    c: int,
)
    requires
        stands(album, pending, covers, None),
        0 <= j < pending.contributions.len(),
        0 <= c < covers.len(),
    ensures
        covers[c].dir@ != pending.contributions[j].0,
        parent_of(pending.contributions[j].0) != Some(covers[c].dir@),
        album.cover_id is None,
{
    let counts = pending.contributions;
    if !is_bare(counts, covers, false) {
        let k = choose|k: int|
            #[trigger] is_best(counts, covers, false, k) && None::<DirCover> == cover_at(covers, counts[k].0, false);
        assert(is_best(counts, covers, false, k));
    }
    if !is_bare(counts, covers, true) {
        let k = choose|k: int|
            #[trigger] is_best(counts, covers, true, k) && None::<DirCover> == cover_at(covers, counts[k].0, true);
        assert(is_best(counts, covers, true, k));
    }
    assert(cover_at(covers, counts[j].0, false) is None);
    assert(cover_at(covers, counts[j].0, true) is None);
    lemma_cover_in(covers, counts[j].0, 0);
    if parent_of(counts[j].0) is Some {
        lemma_cover_in(covers, parent_of(counts[j].0)->0, 0);
    }
}

proof fn lemma_firsts(tracks: Seq<PendingTrack>, order: Seq<usize>, from: int, k: int)
    requires
        0 <= from <= k < order.len(),
    ensures
        (forall|l: int| from <= l < k ==> tracks[#[trigger] order[l] as int].genre@.len() == 0)
            && tracks[order[k] as int].genre@.len() > 0 ==> first_genre(tracks, order, from)
            == tracks[order[k] as int].genre@,
        (forall|l: int| from <= l < k ==> tracks[#[trigger] order[l] as int].year is None)
            && tracks[order[k] as int].year is Some ==> first_year(tracks, order, from) == tracks[order[k] as int].year,
    decreases k - from,
{
    if from < k {
        lemma_firsts(tracks, order, from + 1, k);
        assert(order[from] == order[from]);
    }
}

/// An album has the genre, and the year, of the first of its tracks that has one.
pub proof fn law_the_first_genre_and_year_count(
    album: Album,
    pending: PendingView,
    order: Seq<usize>,
    choice: Option<DirCover>,
    k: int,
)
    requires
        is_standing(album, pending, order, choice),
        0 <= k < order.len(),
    ensures
        (forall|l: int| 0 <= l < k ==> pending.tracks[#[trigger] order[l] as int].genre@.len() == 0)
            && pending.tracks[order[k] as int].genre@.len() > 0 ==> album.genre@ == pending.tracks[order[k] as int].genre@,
        (forall|l: int| 0 <= l < k ==> pending.tracks[#[trigger] order[l] as int].year is None)
            && pending.tracks[order[k] as int].year is Some ==> album.year == pending.tracks[order[k] as int].year,
        album.title == pending.title,
        album.artist == pending.artist,
        album.id == pending.id,
        album.tracks@[k] == pending.tracks[order[k] as int].info,
{
    lemma_firsts(pending.tracks, order, 0, k);
}

/// An album that is emitted has its cover loaded unless that is known or on its way already: the one that is
/// chosen for it, from its file.
pub proof fn law_a_chosen_cover_is_loaded(assembler: AssemblerView, id: u64, album: Album, load: Option<CoverLoad>)
    requires
        assembler.emits(id, album, load),
    ensures
        load is Some <==> album.cover_id is Some && !assembler.known_covers.contains(album.cover_id->0)
            && !assembler.queued.contains((album.cover_id->0, album.id)),
        load matches Some(load) ==> {
            &&& album.cover_id == Some(load.id)
            &&& load.album == id
            &&& load.id == cover_id_of(load.path@, load.mtime)
            &&& exists|c: int|
                0 <= c < assembler.covers.len() && (#[trigger] assembler.covers[c]).path == load.path
                    && assembler.covers[c].mtime == load.mtime
        },
{
    let choice = choose|choice: Option<DirCover>|
        {
            &&& #[trigger] stands(album, assembler.pending(id), assembler.covers, choice)
            &&& load is Some <==> assembler.wants(album)
            &&& load matches Some(load) ==> choice matches Some(cover) && load.id == cover_id_of(
                cover.path@,
                cover.mtime,
            ) && load.album == id && load.path == cover.path && load.mtime == cover.mtime
        };
    let counts = assembler.pending(id).contributions;
    if load is Some {
        let above = is_bare(counts, assembler.covers, false);
        let k = choose|k: int|
            #[trigger] is_best(counts, assembler.covers, above, k) && choice == cover_at(
                assembler.covers,
                counts[k].0,
                above,
            );
        assert(cover_at(assembler.covers, counts[k].0, above) is Some);
        if above {
            lemma_cover_in(assembler.covers, parent_of(counts[k].0)->0, 0);
        } else {
            lemma_cover_in(assembler.covers, counts[k].0, 0);
        }
        let c = choose|c: int| 0 <= c < assembler.covers.len() && assembler.covers[c] == choice->0;
        assert(assembler.covers[c].path == load->0.path);
    }
}

proof fn lemma_dir_in(counts: Seq<(Seq<char>, int)>, dir: Seq<char>, k: int)
    requires
        0 <= k <= counts.len(),
    ensures
        match dir_in(counts, dir, k) {
            Some(i) => k <= i < counts.len() && counts[i].0 == dir,
            None => forall|i: int| k <= i < counts.len() ==> (#[trigger] counts[i]).0 != dir,
        },
    decreases counts.len() - k,
{
    if k < counts.len() && counts[k].0 != dir {
        lemma_dir_in(counts, dir, k + 1);
    }
}

/// A track counts for the directory that it is in: one more where the directory is counted already, and else the
/// first of it; the other counts stay.
pub proof fn law_tracks_count_for_their_directory(counts: Seq<(Seq<char>, int)>, dir: Seq<char>, i: int)
    requires
        0 <= i < counts.len(),
        forall|j: int, k: int| 0 <= j < k < counts.len() ==> (#[trigger] counts[j]).0 != (#[trigger] counts[k]).0,
    ensures
        counts[i].0 == dir ==> counted(counts, dir)[i] == (dir, counts[i].1 + 1) && counted(counts, dir).len()
            == counts.len(),
        counts[i].0 != dir ==> counted(counts, dir)[i] == counts[i],
        (forall|k: int| 0 <= k < counts.len() ==> (#[trigger] counts[k]).0 != dir) ==> counted(counts, dir) == counts.push(
            (dir, 1),
        ),
{
    lemma_dir_in(counts, dir, 0);
    match dir_in(counts, dir, 0) {
        Some(k) => {
            if counts[i].0 == dir && k != i {
                if k < i {
                    assert(counts[k].0 != counts[i].0);
                } else {
                    assert(counts[i].0 != counts[k].0);
                }
            }
        },
        None => {},
    }
}

} // verus!
