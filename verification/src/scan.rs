//! Music library scanning: what is found in each directory, and in what order directories are read.
//!
//! A scan streams results incrementally: an album is (re-)reported as directories contribute
//! tracks to it, growing until the scan completes, and cover art (the expensive part) trickles in
//! afterwards, decoded concurrently. On a warm rescan the tag cache predicts every directory an
//! album draws from, so each album is reported exactly once, fully assembled (see
//! [`Assembler`](crate::assembler::Assembler)).
//!
//! Tags are cached persistently (validated by file mtime + size), so only new or changed files
//! are actually opened; re-scans of an unchanged library cost directory reads and stats.

use crate::order::{compare, in_order, law_texts_are_ordered, sorted, text_rel, Ordered};
use crate::path::{extension_of, file_name, file_name_of, file_stem, file_stem_of};
use crate::tags::{album_id, album_key, album_byline, id_of, CacheEntry, Mtime};
use crate::text::{chars_of, lowercase, lowercased, opt_text, same, string_of};
use vstd::prelude::*;
use vstd::string::*;

verus! {

/// What a file in a directory is to the scan.
#[derive(Debug, Clone, Copy, PartialEq, Eq, Structural)]
pub enum FileKind {
    Audio,
    /// A candidate for the cover of the albums in the directory.
    Cover,
    Other,
}

/// A text is one of some.
pub open spec fn one_of(text: Seq<char>, texts: Seq<Seq<char>>) -> bool {
    texts.contains(text)
}

/// The extensions of the files that can be played.
pub open spec fn audio_extensions() -> Seq<Seq<char>> {
    seq!["wav"@, "opus"@]
}

/// The extensions of cover images.
pub open spec fn cover_extensions() -> Seq<Seq<char>> {
    seq!["jpg"@, "jpeg"@, "png"@, "webp"@]
}

/// The names of cover images.
pub open spec fn cover_stems() -> Seq<Seq<char>> {
    seq!["cover"@, "folder"@, "front"@, "albumart"@]
}

/// A part of a file's name, in lower case; empty where there is none.
pub open spec fn folded(part: Option<Seq<char>>) -> Seq<char> {
    match part {
        Some(part) => lowercase(part),
        None => Seq::empty(),
    }
}

/// What a file is to the scan, by the extension and the stem of its name.
pub open spec fn kind_of(extension: Option<Seq<char>>, stem: Option<Seq<char>>) -> FileKind {
    if one_of(folded(extension), audio_extensions()) {
        FileKind::Audio
    } else if one_of(folded(extension), cover_extensions()) && one_of(folded(stem), cover_stems()) {
        FileKind::Cover
    } else {
        FileKind::Other
    }
}

fn fold(part: &Option<String>) -> (r: String)
    ensures
        r@ == folded(opt_text(*part)),
{
    match part {
        Some(part) => lowercased(part.as_str()),
        None => {
            let none = String::new();
            assert(none@ =~= Seq::empty());
            none
        },
    }
}

/// What a file is to the scan, by the extension and the stem of its name.
pub fn file_kind(extension: &Option<String>, stem: &Option<String>) -> (kind: FileKind)
    ensures
        kind == kind_of(opt_text(*extension), opt_text(*stem)),
{
    let ext: String = fold(extension);
    let e: &str = ext.as_str();
    let ghost audio = audio_extensions();
    assert(audio[0] == "wav"@ && audio[1] == "opus"@);
    if same(e, "wav") || same(e, "opus") {
        return FileKind::Audio;
    }
    let stem: String = fold(stem);
    let s: &str = stem.as_str();
    let ghost exts = cover_extensions();
    let ghost stems = cover_stems();
    assert(exts[0] == "jpg"@ && exts[1] == "jpeg"@ && exts[2] == "png"@ && exts[3] == "webp"@);
    assert(stems[0] == "cover"@ && stems[1] == "folder"@ && stems[2] == "front"@ && stems[3] == "albumart"@);
    let image: bool = same(e, "jpg") || same(e, "jpeg") || same(e, "png") || same(e, "webp");
    let cover: bool = same(s, "cover") || same(s, "folder") || same(s, "front") || same(s, "albumart");
    if image && cover {
        FileKind::Cover
    } else {
        FileKind::Other
    }
}

/// What a file is to the scan.
pub fn classify(path: &str) -> (kind: FileKind)
    ensures
        kind == kind_of(extension_of(path@), file_stem_of(path@)),
{
    let extension: Option<String> = crate::path::extension(path);
    let stem: Option<String> = file_stem(path);
    file_kind(&extension, &stem)
}

/// An audio file found during the walk, with the stat data that decides cache validity, and what the tag
/// cache has under its path.
#[derive(Debug)]
pub struct AudioFile {
    pub path: String,
    pub mtime: Mtime,
    pub size: u64,
    pub cached: Option<CacheEntry>,
}

impl AudioFile {
    /// The cached tags, where they are still those of the file.
    pub open spec fn valid(self) -> Option<CacheEntry> {
        match self.cached {
            Some(entry) => if entry.mtime == self.mtime && entry.size == self.size {
                Some(entry)
            } else {
                None
            },
            None => None,
        }
    }

    /// The cached tags, where they are still those of the file.
    pub fn valid_entry(&self) -> (entry: Option<&CacheEntry>)
        ensures
            match entry {
                Some(entry) => self.valid() == Some(*entry),
                None => self.valid() is None,
            },
    {
        match &self.cached {
            Some(entry) => if entry.mtime == self.mtime && entry.size == self.size {
                Some(entry)
            } else {
                None
            },
            None => None,
        }
    }

    fn copy(&self) -> (file: AudioFile)
        ensures
            file == *self,
    {
        let cached: Option<CacheEntry> = match &self.cached {
            Some(entry) => Some(entry.copy()),
            None => None,
        };
        AudioFile { path: self.path.clone(), mtime: self.mtime, size: self.size, cached }
    }
}

/// A cover image candidate.
#[derive(Debug)]
pub struct CoverFile {
    pub path: String,
    pub mtime: Mtime,
}

/// A directory's worth of scanning work.
#[derive(Debug)]
pub struct DirJob {
    pub dir: String,
    pub files: Vec<AudioFile>,
    pub cover: Option<CoverFile>,
}

/// A path as it is put in order: component by component, which is to say that a separator comes before
/// everything else.
pub open spec fn path_key(path: Seq<char>) -> Seq<char> {
    path.map_values(
        |c: char|
            if c == '/' {
                '\u{0}'
            } else {
                c
            },
    )
}

/// How two paths compare.
pub open spec fn path_rel(a: Seq<char>, b: Seq<char>) -> int {
    text_rel(path_key(a), path_key(b))
}

fn keyed(path: &str) -> (key: String)
    ensures
        key@ == path_key(path@),
{
    let chars: Vec<char> = chars_of(path);
    let mut key: Vec<char> = Vec::new();
    while key.len() < chars.len()
        invariant
            key.len() <= chars.len(),
            chars@ == path@,
            key@ == path_key(path@).take(key.len() as int),
        decreases chars.len() - key.len(),
    {
        let c: char = chars[key.len()];
        if c == '/' {
            key.push('\u{0}');
        } else {
            key.push(c);
        }
        assert(key@ =~= path_key(path@).take(key.len() as int));
    }
    assert(key@ =~= path_key(path@));
    string_of(&key)
}

/// How two paths compare.
pub fn compare_paths(a: &str, b: &str) -> (r: i8)
    ensures
        r == path_rel(a@, b@),
{
    let a: String = keyed(a);
    let b: String = keyed(b);
    compare(a.as_str(), b.as_str())
}

/// The files of a directory, to be put in order of their paths.
pub struct Files<'a>(pub &'a Vec<AudioFile>);

impl<'a> Ordered for Files<'a> {
    open spec fn count(&self) -> nat {
        self.0@.len()
    }

    open spec fn before(&self, i: int, j: int) -> bool {
        let rel = path_rel(self.0@[i].path@, self.0@[j].path@);
        rel < 0 || (rel == 0 && i < j)
    }

    proof fn total(&self, i: int, j: int) {
        law_texts_are_ordered(path_key(self.0@[i].path@), path_key(self.0@[j].path@), Seq::empty());
    }

    proof fn asymmetric(&self, i: int, j: int) {
        law_texts_are_ordered(path_key(self.0@[i].path@), path_key(self.0@[j].path@), Seq::empty());
    }

    proof fn transitive(&self, i: int, j: int, k: int) {
        let a = path_key(self.0@[i].path@);
        let b = path_key(self.0@[j].path@);
        let c = path_key(self.0@[k].path@);
        law_texts_are_ordered(a, b, c);
        if text_rel(a, b) == 0 && text_rel(b, c) == 0 {
            assert(a == b);
        }
    }

    fn is_before(&self, i: usize, j: usize) -> (r: bool) {
        let rel: i8 = compare_paths(self.0[i].path.as_str(), self.0[j].path.as_str());
        rel < 0 || (rel == 0 && i < j)
    }
}

/// `after` are the files of `before` in the order of their paths.
pub open spec fn files_sorted(after: Seq<AudioFile>, before: &Vec<AudioFile>) -> bool {
    exists|order: Seq<usize>|
        {
            &&& #[trigger] in_order(order, &Files(before), before@.len() as int)
            &&& after == Seq::new(before@.len(), |k: int| before@[order[k] as int])
        }
}

impl DirJob {
    pub fn new(dir: String) -> (job: DirJob)
        ensures
            job.dir == dir,
            job.files@ == Seq::<AudioFile>::empty(),
            job.cover is None,
    {
        DirJob { dir, files: Vec::new(), cover: None }
    }

    /// Takes in an audio file of the directory.
    pub fn add_audio(&mut self, file: AudioFile)
        ensures
            final(self).files@ == old(self).files@.push(file),
            final(self).dir == old(self).dir,
            final(self).cover == old(self).cover,
    {
        self.files.push(file);
    }

    /// Takes in a cover candidate of the directory: the first one stands.
    pub fn add_cover(&mut self, cover: CoverFile)
        ensures
            final(self).cover == (match old(self).cover {
                Some(first) => Some(first),
                None => Some(cover),
            }),
            final(self).dir == old(self).dir,
            final(self).files == old(self).files,
    {
        if self.cover.is_none() {
            self.cover = Some(cover);
        }
    }

    /// The directory has been listed: its files go in the order of their paths.
    pub fn finish(&mut self)
        ensures
            files_sorted(final(self).files@, &old(self).files),
            final(self).dir == old(self).dir,
            final(self).cover == old(self).cover,
    {
        let order: Vec<usize> = sorted(&Files(&self.files), self.files.len());
        let mut files: Vec<AudioFile> = Vec::new();
        while files.len() < order.len()
            invariant
                files.len() <= order.len(),
                in_order(order@, &Files(&self.files), self.files@.len() as int),
                files@ == Seq::new(self.files@.len(), |k: int| self.files@[order@[k] as int]).take(
                    files.len() as int,
                ),
            decreases order.len() - files.len(),
        {
            let k: usize = files.len();
            assert(order@[k as int] < self.files@.len());
            files.push(self.files[order[k]].copy());
            assert(files@ =~= Seq::new(self.files@.len(), |k: int| self.files@[order@[k] as int]).take(
                files.len() as int,
            ));
        }
        assert(files@ =~= Seq::new(self.files@.len(), |k: int| self.files@[order@[k] as int]));
        assert(in_order(order@, &Files(&old(self).files), old(self).files@.len() as int));
        self.files = files;
    }
}

/// The rank of an album among those that come first; past all of them where it is none.
pub open spec fn rank_in(priority: Seq<u64>, id: u64, n: int) -> int
    decreases n,
{
    if n <= 0 {
        usize::MAX as int
    } else if priority[n - 1] == id {
        n - 1
    } else {
        rank_in(priority, id, n - 1)
    }
}

/// What a directory is put in order by: the rank of its first album, then its artist and title the way the
/// grid sorts. A directory that the tag cache does not know goes by its name, which usually approximates
/// the artist.
pub struct JobKeyView {
    pub rank: int,
    pub artist: Seq<char>,
    pub album: Seq<char>,
}

/// What a directory is put in order by.
pub open spec fn key_of(job: DirJob, priority: Seq<u64>) -> JobKeyView {
    if job.files@.len() > 0 && job.files@[0].cached is Some {
        let entry = job.files@[0].cached->0;
        JobKeyView {
            rank: rank_in(priority, id_of(entry), priority.len() as int),
            artist: lowercase(album_byline(entry)@),
            album: lowercase(entry.album@),
        }
    } else {
        JobKeyView {
            rank: usize::MAX as int,
            artist: lowercase(
                match file_name_of(job.dir@) {
                    Some(name) => name,
                    None => Seq::empty(),
                },
            ),
            album: Seq::empty(),
        }
    }
}

/// What a directory is put in order by.
pub struct JobKey {
    pub rank: usize,
    pub artist: String,
    pub album: String,
}

impl View for JobKey {
    type V = JobKeyView;

    open spec fn view(&self) -> JobKeyView {
        JobKeyView { rank: self.rank as int, artist: self.artist@, album: self.album@ }
    }
}

fn find_rank(priority: &Vec<u64>, id: u64) -> (rank: usize)
    ensures
        rank == rank_in(priority@, id, priority.len() as int),
{
    let mut n: usize = priority.len();
    while n > 0
        invariant
            n <= priority.len(),
            rank_in(priority@, id, priority.len() as int) == rank_in(priority@, id, n as int),
        decreases n,
    {
        if priority[n - 1] == id {
            return n - 1;
        }
        n = n - 1;
    }
    usize::MAX
}

fn job_key(job: &DirJob, priority: &Vec<u64>) -> (key: JobKey)
    ensures
        key@ == key_of(*job, priority@),
{
    if job.files.len() > 0 {
        if let Some(entry) = &job.files[0].cached {
            let (artist, album) = album_key(entry);
            return JobKey {
                rank: find_rank(priority, album_id(entry)),
                artist: lowercased(artist.as_str()),
                album: lowercased(album.as_str()),
            };
        }
    }
    let name: String = match file_name(job.dir.as_str()) {
        Some(name) => name,
        None => {
            let none = String::new();
            assert(none@ =~= Seq::empty());
            none
        },
    };
    let album = String::new();
    assert(album@ =~= Seq::empty());
    JobKey { rank: usize::MAX, artist: lowercased(name.as_str()), album }
}

/// How two directories compare by their keys.
pub open spec fn key_rel(a: JobKeyView, b: JobKeyView) -> int {
    if a.rank != b.rank {
        a.rank - b.rank
    } else if text_rel(a.artist, b.artist) != 0 {
        text_rel(a.artist, b.artist)
    } else {
        text_rel(a.album, b.album)
    }
}

/// Some directories by their keys, to be put in order; those that compare equal stay in the order they
/// came in.
pub struct JobKeys<'a>(pub &'a Vec<JobKey>);

impl<'a> Ordered for JobKeys<'a> {
    open spec fn count(&self) -> nat {
        self.0@.len()
    }

    open spec fn before(&self, i: int, j: int) -> bool {
        let rel = key_rel(self.0@[i]@, self.0@[j]@);
        rel < 0 || (rel == 0 && i < j)
    }

    proof fn total(&self, i: int, j: int) {
        let a = self.0@[i]@;
        let b = self.0@[j]@;
        law_texts_are_ordered(a.artist, b.artist, Seq::empty());
        law_texts_are_ordered(a.album, b.album, Seq::empty());
    }

    proof fn asymmetric(&self, i: int, j: int) {
        let a = self.0@[i]@;
        let b = self.0@[j]@;
        law_texts_are_ordered(a.artist, b.artist, Seq::empty());
        law_texts_are_ordered(a.album, b.album, Seq::empty());
    }

    proof fn transitive(&self, i: int, j: int, k: int) {
        let a = self.0@[i]@;
        let b = self.0@[j]@;
        let c = self.0@[k]@;
        law_texts_are_ordered(a.artist, b.artist, c.artist);
        law_texts_are_ordered(b.artist, c.artist, Seq::empty());
        law_texts_are_ordered(a.album, b.album, c.album);
        law_texts_are_ordered(b.album, c.album, Seq::empty());
    }

    fn is_before(&self, i: usize, j: usize) -> (r: bool) {
        let a: &JobKey = &self.0[i];
        let b: &JobKey = &self.0[j];
        if a.rank != b.rank {
            return a.rank < b.rank;
        }
        let artist: i8 = compare(a.artist.as_str(), b.artist.as_str());
        if artist != 0 {
            return artist < 0;
        }
        let album: i8 = compare(a.album.as_str(), b.album.as_str());
        album < 0 || (album == 0 && i < j)
    }
}

/// `order` names the directories in the order they are read in.
pub open spec fn is_job_order(order: Seq<usize>, jobs: Seq<DirJob>, priority: Seq<u64>) -> bool {
    &&& order.len() == jobs.len()
    &&& forall|k: int| 0 <= k < order.len() ==> (#[trigger] order[k]) < jobs.len()
    &&& forall|i: usize| i < jobs.len() ==> #[trigger] order.contains(i)
    &&& forall|k: int, l: int|
        0 <= k < l < order.len() ==> reads_before(jobs, priority, #[trigger] order[k], #[trigger] order[l])
}

/// A directory is read before another.
pub open spec fn reads_before(jobs: Seq<DirJob>, priority: Seq<u64>, i: usize, j: usize) -> bool {
    let rel = key_rel(key_of(jobs[i as int], priority), key_of(jobs[j as int], priority));
    rel < 0 || (rel == 0 && i < j)
}

/// The order to read directories in, so that covers stream in usefully: prioritized albums first (in their
/// given
/// order), then the way the grid sorts (artist, then album title) so the visible top of an
/// unscrolled library fills next. The keys -- including each directory's album id, for the
/// priority lookup -- come from the tag cache, already loaded, no file reads; new directories
/// (a cache miss) fall back to their name, which usually approximates the artist anyway.
pub fn job_order(jobs: &Vec<DirJob>, priority: &Vec<u64>) -> (order: Vec<usize>)
    ensures
        is_job_order(order@, jobs@, priority@),
{
    let mut keys: Vec<JobKey> = Vec::new();
    while keys.len() < jobs.len()
        invariant
            keys.len() <= jobs.len(),
            forall|k: int| 0 <= k < keys.len() ==> (#[trigger] keys@[k])@ == key_of(jobs@[k], priority@),
        decreases jobs.len() - keys.len(),
    {
        let key: JobKey = job_key(&jobs[keys.len()], priority);
        keys.push(key);
    }
    let order: Vec<usize> = sorted(&JobKeys(&keys), keys.len());
    assert forall|k: int, l: int| 0 <= k < l < order.len() implies reads_before(
        jobs@,
        priority@,
        #[trigger] order@[k],
        #[trigger] order@[l],
    ) by {
        assert(JobKeys(&keys).before(order@[k] as int, order@[l] as int));
        assert(order@[k] < keys.len());
        assert(order@[l] < keys.len());
        assert(keys@[order@[k] as int]@ == key_of(jobs@[order@[k] as int], priority@));
        assert(keys@[order@[l] as int]@ == key_of(jobs@[order@[l] as int], priority@));
    }
    order
}

/// Directories of albums that come first are read before all others.
pub proof fn law_prioritized_directories_come_first(order: Seq<usize>, jobs: Seq<DirJob>, priority: Seq<u64>, k: int, l: int)
    requires
        is_job_order(order, jobs, priority),
        0 <= k < order.len(),
        0 <= l < order.len(),
        key_of(jobs[order[k] as int], priority).rank < key_of(jobs[order[l] as int], priority).rank,
    ensures
        k < l,
{
    if l < k {
        assert(reads_before(jobs, priority, order[l], order[k]));
    }
}

/// What is played are WAV and Opus files, by the extension in capitals or not; a cover is an image by one of the
/// four usual names; everything else is passed over.
pub proof fn law_files_are_known_by_their_names(extension: Option<Seq<char>>, stem: Option<Seq<char>>)
    ensures
        ({
            let ext = match extension {
                Some(e) => lowercase(e),
                None => Seq::empty(),
            };
            let name = match stem {
                Some(s) => lowercase(s),
                None => Seq::empty(),
            };
            let audio = ext == "wav"@ || ext == "opus"@;
            let image = ext == "jpg"@ || ext == "jpeg"@ || ext == "png"@ || ext == "webp"@;
            let cover = name == "cover"@ || name == "folder"@ || name == "front"@ || name == "albumart"@;
            &&& kind_of(extension, stem) == FileKind::Audio <==> audio
            &&& kind_of(extension, stem) == FileKind::Cover <==> !audio && image && cover
        }),
{
    let ext = folded(extension);
    let name = folded(stem);
    let audio = audio_extensions();
    let image = cover_extensions();
    let cover = cover_stems();
    assert(audio[0] == "wav"@ && audio[1] == "opus"@);
    assert(image[0] == "jpg"@ && image[1] == "jpeg"@ && image[2] == "png"@ && image[3] == "webp"@);
    assert(cover[0] == "cover"@ && cover[1] == "folder"@ && cover[2] == "front"@ && cover[3] == "albumart"@);
    assert(audio.contains(ext) <==> ext == "wav"@ || ext == "opus"@);
    assert(image.contains(ext) <==> ext == "jpg"@ || ext == "jpeg"@ || ext == "png"@ || ext == "webp"@);
    assert(cover.contains(name) <==> name == "cover"@ || name == "folder"@ || name == "front"@ || name == "albumart"@);
}

/// Cached tags are used as long as the file is as it was: of the same size, and changed at the same time.
pub proof fn law_tags_are_cached_until_the_file_changes(file: AudioFile, entry: CacheEntry)
    requires
        file.cached == Some(entry),
    ensures
        entry.mtime == file.mtime && entry.size == file.size ==> file.valid() == Some(entry),
        entry.mtime != file.mtime || entry.size != file.size ==> file.valid() is None,
{
}

/// Paths compare directory by directory: what is in a directory comes before what merely begins with its name.
pub proof fn law_paths_compare_by_directory(dir: Seq<char>, a: Seq<char>, c: char, b: Seq<char>)
    requires
        c != '/',
        c != '\u{0}',
    ensures
        path_rel(dir + seq!['/'] + a, dir + seq![c] + b) < 0,
        path_rel(dir + seq![c] + b, dir + seq!['/'] + a) > 0,
{
    let x = path_key(dir + seq!['/'] + a);
    let y = path_key(dir + seq![c] + b);
    let i = dir.len() as int;
    assert(x.take(i) =~= y.take(i));
    assert(x[i] == '\u{0}' && y[i] == c);
    assert(x[i] < y[i]);
    assert(crate::sort::is_alphabetically_before(x, y));
    crate::order::lemma_alphabetical(x, y);
}

/// Directories of the same rank are read by the artist of their first album, and then by its title.
pub proof fn law_directories_go_by_artist_and_title(a: JobKeyView, b: JobKeyView)
    requires
        a.rank == b.rank,
    ensures
        crate::sort::is_alphabetically_before(a.artist, b.artist) ==> key_rel(a, b) < 0 && key_rel(b, a) > 0,
        a.artist == b.artist && crate::sort::is_alphabetically_before(a.album, b.album) ==> key_rel(a, b) < 0 && key_rel(
            b,
            a,
        ) > 0,
{
    law_texts_are_ordered(a.artist, b.artist, Seq::empty());
    if crate::sort::is_alphabetically_before(a.artist, b.artist) {
        crate::order::lemma_alphabetical(a.artist, b.artist);
    }
    if crate::sort::is_alphabetically_before(a.album, b.album) {
        crate::order::lemma_alphabetical(a.album, b.album);
    }
}

} // verus!
