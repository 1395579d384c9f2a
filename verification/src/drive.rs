//! The course of a scan: what each step of it reports, and what is kept of it.
//!
//! Directories are read one by one, in whatever order they complete; each may make albums ready to be
//! reported, and covers to be decoded. Albums go out before their covers, so a cover can never reach the
//! consumer ahead of the album it belongs to.

use crate::assembler::{
    absorbing, album_in, awaited_dir, expected_of, ids_expected, is_awaited, stands, without_dir, Assembler,
    AssemblerView, CoverLoad, DirCover, ExpectedView, PendingTrack, PendingView, Tagged,
};
use crate::library::Album;
use crate::order::ascending;
use crate::path::file_stem_of;
use crate::scan::{AudioFile, DirJob};
use crate::tags::{id_of, resolve_at, resolves, FileTags, Mtime};
use vstd::prelude::*;

verus! {

/// A cover to be decoded, once for all the albums that show it (a pooled directory's
/// shared cover decodes once for all its albums).
#[derive(Debug)]
pub struct CoverBatch {
    pub id: u64,
    pub path: String,
    pub mtime: Mtime,
    pub albums: Vec<u64>,
}

/// A cover to be decoded, by what it is for.
#[verifier::ext_equal]
pub struct BatchView {
    pub id: u64,
    pub path: String,
    pub mtime: Mtime,
    pub albums: Seq<u64>,
}

impl View for CoverBatch {
    type V = BatchView;

    open spec fn view(&self) -> BatchView {
        BatchView { id: self.id, path: self.path, mtime: self.mtime, albums: self.albums@ }
    }
}

/// Some covers to be decoded, by what they are for.
pub open spec fn batch_views(batches: Seq<CoverBatch>) -> Seq<BatchView> {
    batches.map_values(|b: CoverBatch| b@)
}

/// The first of some batches, from the `k`-th on, of the given cover.
pub open spec fn batch_of(batches: Seq<BatchView>, id: u64, k: int) -> Option<int>
    decreases batches.len() - k,
{
    if k >= batches.len() {
        None
    } else if batches[k].id == id {
        Some(k)
    } else {
        batch_of(batches, id, k + 1)
    }
}

/// Some batches with one more album.
pub open spec fn joined(batches: Seq<BatchView>, load: CoverLoad) -> Seq<BatchView> {
    match batch_of(batches, load.id, 0) {
        Some(k) => batches.update(k, BatchView { albums: batches[k].albums.push(load.album), ..batches[k] }),
        None => batches.push(
            BatchView { id: load.id, path: load.path, mtime: load.mtime, albums: seq![load.album] },
        ),
    }
}

/// The first `n` of some covers to be decoded, batched by cover.
pub open spec fn batched(loads: Seq<CoverLoad>, n: int) -> Seq<BatchView>
    decreases n,
{
    if n <= 0 {
        Seq::empty()
    } else {
        joined(batched(loads, n - 1), loads[n - 1])
    }
}

fn join(batches: &mut Vec<CoverBatch>, load: &CoverLoad)
    ensures
        batch_views(final(batches)@) == joined(batch_views(old(batches)@), *load),
{
    let ghost before = batch_views(batches@);
    let mut k: usize = 0;
    while k < batches.len()
        invariant
            k <= batches.len(),
            *batches == *old(batches),
            before == batch_views(batches@),
            batch_of(before, load.id, 0) == batch_of(before, load.id, k as int),
        decreases batches.len() - k,
    {
        assert(before[k as int] == batches@[k as int]@);
        if batches[k].id == load.id {
            let mut batch: CoverBatch = batches.remove(k);
            batch.albums.push(load.album);
            batches.insert(k, batch);
            assert(batch_views(batches@) =~= before.update(k as int, batch@));
            return;
        }
        k = k + 1;
    }
    let mut albums: Vec<u64> = Vec::new();
    albums.push(load.album);
    assert(albums@ =~= seq![load.album]);
    batches.push(CoverBatch { id: load.id, path: load.path.clone(), mtime: load.mtime, albums });
    assert(batch_views(batches@) =~= joined(before, *load));
}

/// Batches covers to be decoded, so that each is decoded once.
pub fn batch(loads: &Vec<CoverLoad>) -> (batches: Vec<CoverBatch>)
    ensures
        batch_views(batches@) == batched(loads@, loads@.len() as int),
{
    let mut batches: Vec<CoverBatch> = Vec::new();
    assert(batch_views(batches@) =~= Seq::empty());
    let mut n: usize = 0;
    while n < loads.len()
        invariant
            n <= loads.len(),
            batch_views(batches@) == batched(loads@, n as int),
        decreases loads.len() - n,
    {
        join(&mut batches, &loads[n]);
        n = n + 1;
    }
    batches
}

/// What is reported: albums, and the covers to be decoded for them.
#[derive(Debug)]
pub struct Emission {
    pub albums: Vec<Album>,
    pub loads: Vec<CoverLoad>,
}

/// The covers of the first `n` of some albums that are still to be decoded.
pub open spec fn wanted(assembler: AssemblerView, albums: Seq<Album>, n: int) -> Seq<(u64, u64)>
    decreases n,
{
    if n <= 0 {
        Seq::empty()
    } else {
        let before = wanted(assembler, albums, n - 1);
        if assembler.wants(albums[n - 1]) {
            before.push((albums[n - 1].cover_id->0, albums[n - 1].id))
        } else {
            before
        }
    }
}

/// The covers, and the albums they are for.
pub open spec fn pairs(loads: Seq<CoverLoad>) -> Seq<(u64, u64)> {
    loads.map_values(|l: CoverLoad| (l.id, l.album))
}

/// The albums with the given ids as they stand, and their covers where they are still to be decoded.
pub open spec fn is_emission(assembler: AssemblerView, ids: Seq<u64>, albums: Seq<Album>, loads: Seq<CoverLoad>) -> bool {
    &&& albums.len() == ids.len()
    &&& forall|k: int|
        0 <= k < ids.len() ==> (#[trigger] albums[k]).id == ids[k] && exists|choice: Option<DirCover>|
            #[trigger] stands(albums[k], assembler.pending(ids[k]), assembler.covers, choice)
    &&& pairs(loads) == wanted(assembler, albums, albums.len() as int)
    &&& forall|k: int|
        0 <= k < loads.len() ==> (#[trigger] loads[k]).id == crate::assembler::cover_id_of(
            loads[k].path@,
            loads[k].mtime,
        )
}

proof fn lemma_wanted(assembler: AssemblerView, albums: Seq<Album>, more: Seq<Album>, n: int)
    requires
        0 <= n <= albums.len() <= more.len(),
        forall|k: int| 0 <= k < n ==> albums[k] == more[k],
    ensures
        wanted(assembler, albums, n) == wanted(assembler, more, n),
    decreases n,
{
    if n > 0 {
        lemma_wanted(assembler, albums, more, n - 1);
    }
}

proof fn lemma_wanted_ids(assembler: AssemblerView, albums: Seq<Album>, n: int)
    requires
        0 <= n <= albums.len(),
    ensures
        forall|k: int|
            0 <= k < wanted(assembler, albums, n).len() ==> exists|j: int|
                0 <= j < n && (#[trigger] albums[j]).id == (#[trigger] wanted(assembler, albums, n)[k]).1,
    decreases n,
{
    if n > 0 {
        lemma_wanted_ids(assembler, albums, n - 1);
        let before = wanted(assembler, albums, n - 1);
        let after = wanted(assembler, albums, n);
        assert forall|k: int| 0 <= k < after.len() implies exists|j: int|
            0 <= j < n && (#[trigger] albums[j]).id == (#[trigger] after[k]).1 by {
            if k < before.len() {
                assert(after[k] == before[k]);
                let j = choose|j: int| 0 <= j < n - 1 && (#[trigger] albums[j]).id == before[k].1;
                assert(albums[j].id == after[k].1);
            } else {
                assert(albums[n - 1].id == after[k].1);
            }
        }
    }
}

impl Assembler {
    /// Reports the albums with the given ids as they stand, and the covers that are to be decoded for them.
    pub fn emit(&mut self, ids: &Vec<u64>) -> (e: Emission)
        requires
            old(self).wf(),
            forall|k: int, l: int| 0 <= k < l < ids@.len() ==> #[trigger] ids@[k] < #[trigger] ids@[l],
            forall|k: int| 0 <= k < ids@.len() ==> old(self)@.holds(#[trigger] ids@[k]),
        ensures
            final(self).wf(),
            is_emission(old(self)@, ids@, e.albums@, e.loads@),
            final(self)@ == (AssemblerView {
                queued: old(self)@.queued + wanted(old(self)@, e.albums@, e.albums@.len() as int).to_set(),
                ..old(self)@
            }),
            final(self).albums == old(self).albums,
    {
        let ghost before = self@;
        let mut albums: Vec<Album> = Vec::new();
        let mut loads: Vec<CoverLoad> = Vec::new();
        assert(pairs(loads@) =~= Seq::empty());
        assert(self@.queued =~= before.queued + Seq::<(u64, u64)>::empty().to_set());
        while albums.len() < ids.len()
            invariant
                albums.len() <= ids.len(),
                self.wf(),
                self.albums == old(self).albums,
                before == old(self)@,
                forall|k: int, l: int| 0 <= k < l < ids@.len() ==> #[trigger] ids@[k] < #[trigger] ids@[l],
                forall|k: int| 0 <= k < ids@.len() ==> before.holds(#[trigger] ids@[k]),
                is_emission(before, ids@.take(albums.len() as int), albums@, loads@),
                self@ == (AssemblerView {
                    queued: before.queued + wanted(before, albums@, albums@.len() as int).to_set(),
                    ..before
                }),
            decreases ids.len() - albums.len(),
        {
            let n: usize = albums.len();
            let ghost emitted = albums@;
            let ghost loading = loads@;
            let ghost already = wanted(before, emitted, n as int);
            let id: u64 = ids[n];
            let (album, load) = self.snapshot(id);
            proof {
                lemma_wanted_ids(before, emitted, n as int);
                if album.cover_id is Some {
                    let cover = album.cover_id->0;
                    assert(!already.to_set().contains((cover, id))) by {
                        if already.contains((cover, id)) {
                            let k = choose|k: int| 0 <= k < already.len() && already[k] == (cover, id);
                            let j = choose|j: int| 0 <= j < n && (#[trigger] emitted[j]).id == already[k].1;
                            assert(emitted[j].id == ids@.take(n as int)[j]);
                            assert(ids@[j] < ids@[n as int]);
                        }
                    }
                }
            }
            albums.push(album);
            if let Some(load) = load {
                loads.push(load);
            }
            proof {
                let now = albums@;
                lemma_wanted(before, emitted, now, n as int);
                assert(before.wants(album) == (load is Some));
                assert(pairs(loads@) =~= wanted(before, now, n + 1));
                assert(wanted(before, now, n + 1).to_set() =~= if load is Some {
                    already.to_set().insert((album.cover_id->0, id))
                } else {
                    already.to_set()
                }) by {
                    if load is Some {
                        assert forall|x: (u64, u64)|
                            already.push((album.cover_id->0, id)).to_set().contains(x)
                                <==> already.to_set().insert((album.cover_id->0, id)).contains(x) by {
                            vstd::seq_lib::lemma_seq_contains_after_push(already, (album.cover_id->0, id), x);
                        }
                    }
                }
                assert(self@.queued =~= before.queued + wanted(before, now, n + 1).to_set());
                let choice = choose|choice: Option<DirCover>|
                    {
                        &&& #[trigger] stands(album, before.pending(id), before.covers, choice)
                        &&& load matches Some(load) ==> choice matches Some(cover) && load.id
                            == crate::assembler::cover_id_of(cover.path@, cover.mtime) && load.path == cover.path
                            && load.mtime == cover.mtime
                    };
                let upto = ids@.take(n + 1);
                assert forall|k: int| 0 <= k < upto.len() implies (#[trigger] now[k]).id == upto[k] && exists|
                    choice: Option<DirCover>,
                |
                    #[trigger] stands(now[k], before.pending(upto[k]), before.covers, choice) by {
                    if k < n {
                        assert(now[k] == emitted[k]);
                        assert(emitted[k].id == ids@.take(n as int)[k]);
                        assert(ids@.take(n as int)[k] == upto[k]);
                    } else {
                        assert(stands(now[k], before.pending(upto[k]), before.covers, choice));
                    }
                }
                assert forall|k: int| 0 <= k < loads@.len() implies (#[trigger] loads@[k]).id
                    == crate::assembler::cover_id_of(loads@[k].path@, loads@[k].mtime) by {
                    if k < loading.len() {
                        assert(loads@[k] == loading[k]);
                    }
                }
            }
        }
        assert(ids@.take(albums.len() as int) =~= ids@);
        Emission { albums, loads }
    }
}

/// The tags of a directory's files, as they come in: from the cache where it is still valid, and from the
/// file otherwise.
#[derive(Debug)]
pub struct DirTags {
    pub entries: Vec<Tagged>,
    /// How many files had to be parsed.
    pub parsed: usize,
}

impl DirTags {
    /// Nothing has been read yet.
    pub fn new() -> (tags: Self)
        ensures
            tags.entries@ == Seq::<Tagged>::empty(),
            tags.parsed == 0,
    {
        DirTags { entries: Vec::new(), parsed: 0 }
    }

    /// Takes a file's tags from the cache, where they are still valid. Where they are not, the file is to
    /// be read (see [`take_read`](Self::take_read)).
    pub fn take_cached(&mut self, file: &AudioFile) -> (taken: bool)
        ensures
            taken == (file.valid() is Some),
            final(self).entries@ == (match file.valid() {
                Some(entry) => old(self).entries@.push(Tagged { path: file.path, entry }),
                None => old(self).entries@,
            }),
            final(self).parsed == old(self).parsed,
    {
        match file.valid_entry() {
            Some(entry) => {
                self.entries.push(Tagged { path: file.path.clone(), entry: entry.copy() });
                true
            },
            None => false,
        }
    }

    /// Takes what was read of a file: nothing, where it could not be parsed.
    pub fn take_read(&mut self, file: &AudioFile, tags: Option<FileTags>)
        ensures
            final(self).parsed == (if old(self).parsed < usize::MAX {
                (old(self).parsed + 1) as usize
            } else {
                usize::MAX
            }),
            match tags {
                Some(tags) => {
                    &&& final(self).entries@.len() == old(self).entries@.len() + 1
                    &&& final(self).entries@.drop_last() == old(self).entries@
                    &&& final(self).entries@.last().path == file.path
                    &&& resolves(
                        final(self).entries@.last().entry,
                        tags@,
                        file_stem_of(file.path@),
                        file.mtime,
                        file.size,
                    )
                },
                None => final(self).entries@ == old(self).entries@,
            },
    {
        self.parsed = self.parsed.saturating_add(1);
        if let Some(tags) = tags {
            let entry = resolve_at(tags, file.path.as_str(), file.mtime, file.size);
            self.entries.push(Tagged { path: file.path.clone(), entry });
            assert(self.entries@.drop_last() =~= old(self).entries@);
        }
    }
}

/// The ids of some albums.
pub open spec fn ids_of(albums: Seq<Album>) -> Seq<u64> {
    albums.map_values(|a: Album| a.id)
}

/// The ids of all albums that are being assembled.
pub open spec fn all_ids(assembler: AssemblerView) -> Seq<u64> {
    assembler.albums.map_values(|a: PendingView| a.id)
}

/// What reading a directory does, apart from covers: its files are taken in, and the albums that nothing
/// more is expected of are reported, in ascending order of their ids.
pub open spec fn is_read(
    before: AssemblerView,
    dir: Seq<char>,
    files: Seq<Tagged>,
    reported: Seq<u64>,
    after: AssemblerView,
) -> bool {
    let absorbed = before.absorbed(dir, files);
    &&& ascending(reported, absorbed.settled())
    &&& after.albums == absorbed.albums
    &&& after.expected == absorbed.expected
    &&& after.dirty == absorbed.dirty.difference(absorbed.settled())
}

/// A scan under way: the albums being assembled, the tags that have been read, and how many files had to
/// be parsed for them.
#[derive(Debug)]
pub struct Scan {
    pub assembler: Assembler,
    pub fresh: Vec<Tagged>,
    pub parsed: usize,
    /// How many files the tag cache knew.
    pub cached: usize,
}

/// The tag cache is not what the scan has found: files were parsed, or are gone.
pub open spec fn is_stale(parsed: usize, fresh: nat, cached: usize) -> bool {
    parsed > 0 || fresh != cached
}

impl Scan {
    pub open spec fn wf(&self) -> bool {
        self.assembler.wf()
    }

    /// Starts a scan of the directories that the walk found, given the number of files in the tag cache.
    pub fn start(jobs: &Vec<DirJob>, covers: Vec<DirCover>, known_covers: Vec<u64>, cached: usize) -> (scan: Scan)
        ensures
            scan.wf(),
            scan.assembler@ == (AssemblerView {
                albums: Seq::empty(),
                expected: expected_of(jobs@, jobs@.len() as int),
                dirty: Set::empty(),
                queued: Set::empty(),
                covers: covers@,
                known_covers: known_covers@.to_set(),
            }),
            scan.fresh@ == Seq::<Tagged>::empty(),
            scan.parsed == 0,
            scan.cached == cached,
    {
        Scan { assembler: Assembler::new(jobs, covers, known_covers), fresh: Vec::new(), parsed: 0, cached }
    }

    /// A directory has been read: the albums that are now ready are reported.
    pub fn dir_read(&mut self, dir: &str, files: Vec<Tagged>, parsed: usize) -> (e: Emission)
        requires
            old(self).wf(),
        ensures
            final(self).wf(),
            is_read(old(self).assembler@, dir@, files@, ids_of(e.albums@), final(self).assembler@),
            ({
                let absorbed = old(self).assembler@.absorbed(dir@, files@);
                let emitting = AssemblerView { dirty: absorbed.dirty.difference(absorbed.settled()), ..absorbed };
                exists|ids: Seq<u64>|
                    {
                        &&& #[trigger] ascending(ids, absorbed.settled())
                        &&& is_emission(emitting, ids, e.albums@, e.loads@)
                        &&& final(self).assembler@ == (AssemblerView {
                            queued: emitting.queued + wanted(emitting, e.albums@, e.albums@.len() as int).to_set(),
                            ..emitting
                        })
                    }
            }),
            final(self).fresh@ == old(self).fresh@ + files@,
            final(self).parsed == (if old(self).parsed + parsed <= usize::MAX {
                (old(self).parsed + parsed) as usize
            } else {
                usize::MAX
            }),
            final(self).cached == old(self).cached,
    {
        self.parsed = self.parsed.saturating_add(parsed);
        self.assembler.absorb(dir, &files);
        let ghost absorbed = self.assembler@;
        let mut files = files;
        self.fresh.append(&mut files);
        let ids: Vec<u64> = self.assembler.ready();
        proof {
            assert forall|k: int| 0 <= k < ids@.len() implies self.assembler@.holds(#[trigger] ids@[k]) by {
                assert(ids@.to_set().contains(ids@[k]));
                assert(absorbed.dirty.contains(ids@[k]));
            }
        }
        let e: Emission = self.assembler.emit(&ids);
        assert(ascending(ids@, absorbed.settled()));
        assert(ids_of(e.albums@) =~= ids@);
        e
    }

    /// Every directory has been read: what has not been reported yet is reported.
    pub fn tags_done(&mut self) -> (e: Emission)
        requires
            old(self).wf(),
        ensures
            final(self).wf(),
            ascending(ids_of(e.albums@), old(self).assembler@.dirty),
            ({
                let emitting = AssemblerView { dirty: Set::empty(), ..old(self).assembler@ };
                exists|ids: Seq<u64>|
                    {
                        &&& #[trigger] ascending(ids, old(self).assembler@.dirty)
                        &&& is_emission(emitting, ids, e.albums@, e.loads@)
                        &&& final(self).assembler@ == (AssemblerView {
                            queued: emitting.queued + wanted(emitting, e.albums@, e.albums@.len() as int).to_set(),
                            ..emitting
                        })
                    }
            }),
            final(self).fresh == old(self).fresh,
            final(self).parsed == old(self).parsed,
            final(self).cached == old(self).cached,
    {
        let ghost before = self.assembler@;
        let ids: Vec<u64> = self.assembler.flush();
        proof {
            assert forall|k: int| 0 <= k < ids@.len() implies self.assembler@.holds(#[trigger] ids@[k]) by {
                assert(ids@.to_set().contains(ids@[k]));
                assert(before.dirty.contains(ids@[k]));
            }
        }
        let e: Emission = self.assembler.emit(&ids);
        assert(ascending(ids@, before.dirty));
        assert(ids_of(e.albums@) =~= ids@);
        e
    }

    /// The scan is complete: the ids of all albums, and the tags to be cached where the cache is stale.
    pub fn finish(self) -> (r: (Vec<u64>, Option<Vec<Tagged>>))
        ensures
            r.0@ == all_ids(self.assembler@),
            match r.1 {
                Some(fresh) => is_stale(self.parsed, self.fresh@.len(), self.cached) && fresh == self.fresh,
                None => !is_stale(self.parsed, self.fresh@.len(), self.cached),
            },
    {
        let ghost all = all_ids(self.assembler@);
        let mut ids: Vec<u64> = Vec::new();
        while ids.len() < self.assembler.albums.len()
            invariant
                ids.len() <= self.assembler.albums.len(),
                all == all_ids(self.assembler@),
                ids@ == all.take(ids.len() as int),
            decreases self.assembler.albums.len() - ids.len(),
        {
            assert(self.assembler@.albums[ids.len() as int] == self.assembler.albums@[ids.len() as int]@);
            ids.push(self.assembler.albums[ids.len()].id);
            assert(ids@ =~= all.take(ids.len() as int));
        }
        assert(ids@ =~= all);
        if self.parsed > 0 || self.fresh.len() != self.cached {
            (ids, Some(self.fresh))
        } else {
            (ids, None)
        }
    }
}

/// What is still expected once some directories have been read.
pub open spec fn expected_after(expected: Seq<ExpectedView>, read: Seq<Seq<char>>) -> Seq<ExpectedView>
    decreases read.len(),
{
    if read.len() == 0 {
        expected
    } else {
        without_dir(expected_after(expected, read.drop_last()), read.last())
    }
}

/// Something is expected of a directory for an album.
pub open spec fn is_expected_of(expected: Seq<ExpectedView>, dir: Seq<char>, id: u64) -> bool {
    exists|k: int| 0 <= k < expected.len() && (#[trigger] expected[k]).0 == dir && expected[k].1.contains(id)
}

proof fn lemma_awaited_dir(expected: Seq<ExpectedView>, dir: Seq<char>, k: int)
    requires
        0 <= k <= expected.len(),
    ensures
        awaited_dir(expected, dir, k) matches Some(ix) ==> k <= ix < expected.len() && expected[ix].0 == dir,
    decreases expected.len() - k,
{
    if k < expected.len() && expected[k].0 != dir {
        lemma_awaited_dir(expected, dir, k + 1);
    }
}

pub(crate) proof fn lemma_still_expected(expected: Seq<ExpectedView>, read: Seq<Seq<char>>, dir: Seq<char>, id: u64)
    requires
        is_expected_of(expected, dir, id),
        !read.contains(dir),
    ensures
        is_expected_of(expected_after(expected, read), dir, id),
    decreases read.len(),
{
    if read.len() > 0 {
        let init = read.drop_last();
        assert forall|k: int| 0 <= k < init.len() implies init[k] != dir by {
            assert(init[k] == read[k]);
        }
        lemma_still_expected(expected, init, dir, id);
        let before = expected_after(expected, init);
        let last = read.last();
        assert(read[read.len() - 1] == last);
        lemma_awaited_dir(before, last, 0);
        let k = choose|k: int| 0 <= k < before.len() && (#[trigger] before[k]).0 == dir && before[k].1.contains(id);
        match awaited_dir(before, last, 0) {
            Some(ix) => {
                let after = before.remove(ix);
                if k < ix {
                    assert(after[k] == before[k]);
                } else {
                    assert(after[k - 1] == before[k]);
                }
            },
            None => {},
        }
    }
}

proof fn lemma_ids_expected(job: DirJob, f: int, n: int)
    requires
        0 <= f < n <= job.files@.len(),
        job.files@[f].valid() is Some,
    ensures
        ids_expected(job.files@, n).contains(id_of(job.files@[f].valid()->0)),
    decreases n,
{
    let files = job.files@;
    let id = id_of(files[f].valid()->0);
    if f == n - 1 {
        let ids = ids_expected(files, n);
        assert(ids[ids.len() - 1] == id);
    } else {
        lemma_ids_expected(job, f, n - 1);
        let before = ids_expected(files, n - 1);
        let k = choose|k: int| 0 <= k < before.len() && before[k] == id;
        assert(ids_expected(files, n)[k] == id);
    }
}

pub(crate) proof fn lemma_expected_of(jobs: Seq<DirJob>, j: int, f: int, n: int)
    requires
        0 <= j < n <= jobs.len(),
        0 <= f < jobs[j].files@.len(),
        jobs[j].files@[f].valid() is Some,
    ensures
        is_expected_of(expected_of(jobs, n), jobs[j].dir@, id_of(jobs[j].files@[f].valid()->0)),
    decreases n,
{
    let id = id_of(jobs[j].files@[f].valid()->0);
    if j == n - 1 {
        lemma_ids_expected(jobs[j], f, jobs[j].files@.len() as int);
        let all = expected_of(jobs, n);
        let last = all[all.len() - 1];
        assert(last.0 == jobs[j].dir@ && last.1.contains(id));
    } else {
        lemma_expected_of(jobs, j, f, n - 1);
        let before = expected_of(jobs, n - 1);
        let k = choose|k: int|
            0 <= k < before.len() && (#[trigger] before[k]).0 == jobs[j].dir@ && before[k].1.contains(id);
        assert(expected_of(jobs, n)[k] == before[k]);
    }
}

/// An album is held back as long as a directory that the tag cache predicts a track of it in has not been
/// read: whatever is reported as ready has all its predicted tracks, so that on a warm rescan each album is
/// reported once, fully assembled.
pub proof fn law_albums_wait_for_their_directories(
    jobs: Seq<DirJob>,
    read: Seq<Seq<char>>,
    j: int,
    f: int,
    assembler: AssemblerView,
)
    requires
        0 <= j < jobs.len(),
        0 <= f < jobs[j].files@.len(),
        jobs[j].files@[f].valid() is Some,
        !read.contains(jobs[j].dir@),
        assembler.expected == expected_after(expected_of(jobs, jobs.len() as int), read),
    ensures
        !assembler.settled().contains(id_of(jobs[j].files@[f].valid()->0)),
{
    let id = id_of(jobs[j].files@[f].valid()->0);
    let expected = expected_of(jobs, jobs.len() as int);
    lemma_expected_of(jobs, j, f, jobs.len() as int);
    lemma_still_expected(expected, read, jobs[j].dir@, id);
    let after = assembler.expected;
    let k = choose|k: int|
        0 <= k < after.len() && (#[trigger] after[k]).0 == jobs[j].dir@ && after[k].1.contains(id);
    assert(after[k].1.contains(id));
    assert(is_awaited(after, id));
}

/// No two directories have the same path.
pub open spec fn are_apart(jobs: Seq<DirJob>) -> bool {
    forall|i: int, j: int| 0 <= i < j < jobs.len() ==> (#[trigger] jobs[i]).dir@ != (#[trigger] jobs[j]).dir@
}

/// What is expected is expected of different directories.
spec fn is_single(expected: Seq<ExpectedView>) -> bool {
    forall|i: int, j: int| 0 <= i < j < expected.len() ==> (#[trigger] expected[i]).0 != (#[trigger] expected[j]).0
}

proof fn lemma_source(files: Seq<AudioFile>, id: u64, n: int)
    requires
        0 <= n <= files.len(),
        ids_expected(files, n).contains(id),
    ensures
        exists|f: int|
            0 <= f < n && (#[trigger] files[f]).valid() is Some && id_of(files[f].valid()->0) == id,
    decreases n,
{
    if n > 0 {
        let ids = ids_expected(files, n);
        let before = ids_expected(files, n - 1);
        let k = choose|k: int| 0 <= k < ids.len() && ids[k] == id;
        if k < before.len() {
            assert(before[k] == id);
            lemma_source(files, id, n - 1);
            let f = choose|f: int|
                0 <= f < n - 1 && (#[trigger] files[f]).valid() is Some && id_of(files[f].valid()->0) == id;
            assert(files[f].valid() is Some);
        } else {
            assert(files[n - 1].valid() is Some);
        }
    }
}

/// Where an expectation comes from.
spec fn comes_from(jobs: Seq<DirJob>, e: ExpectedView, n: int) -> bool {
    exists|j: int|
        0 <= j < n && (#[trigger] jobs[j]).dir@ == e.0 && ids_expected(jobs[j].files@, jobs[j].files@.len() as int) == e.1
}

proof fn lemma_expectations(jobs: Seq<DirJob>, n: int)
    requires
        0 <= n <= jobs.len(),
        are_apart(jobs),
    ensures
        is_single(expected_of(jobs, n)),
        forall|k: int| 0 <= k < expected_of(jobs, n).len() ==> comes_from(jobs, #[trigger] expected_of(jobs, n)[k], n),
    decreases n,
{
    if n > 0 {
        lemma_expectations(jobs, n - 1);
        let before = expected_of(jobs, n - 1);
        let after = expected_of(jobs, n);
        assert forall|k: int| 0 <= k < after.len() implies comes_from(jobs, #[trigger] after[k], n) by {
            if k < before.len() {
                assert(after[k] == before[k]);
                assert(comes_from(jobs, before[k], n - 1));
                let j = choose|j: int|
                    0 <= j < n - 1 && (#[trigger] jobs[j]).dir@ == before[k].0 && ids_expected(
                        jobs[j].files@,
                        jobs[j].files@.len() as int,
                    ) == before[k].1;
                assert(jobs[j].dir@ == after[k].0);
            } else {
                assert(jobs[n - 1].dir@ == after[k].0);
            }
        }
        assert forall|i: int, j: int| 0 <= i < j < after.len() implies (#[trigger] after[i]).0 != (#[trigger] after[j]).0 by {
            assert(after[i] == before[i]);
            if j < before.len() {
                assert(after[j] == before[j]);
            } else {
                assert(comes_from(jobs, before[i], n - 1));
                let source = choose|l: int|
                    0 <= l < n - 1 && (#[trigger] jobs[l]).dir@ == before[i].0 && ids_expected(
                        jobs[l].files@,
                        jobs[l].files@.len() as int,
                    ) == before[i].1;
                assert(jobs[source].dir@ != jobs[n - 1].dir@);
            }
        }
    }
}

proof fn lemma_no_dir(expected: Seq<ExpectedView>, dir: Seq<char>, k: int)
    requires
        0 <= k <= expected.len(),
        awaited_dir(expected, dir, k) is None,
    ensures
        forall|i: int| k <= i < expected.len() ==> (#[trigger] expected[i]).0 != dir,
    decreases expected.len() - k,
{
    if k < expected.len() {
        lemma_no_dir(expected, dir, k + 1);
    }
}

proof fn lemma_left_over(expected: Seq<ExpectedView>, read: Seq<Seq<char>>)
    requires
        is_single(expected),
    ensures
        ({
            let after = expected_after(expected, read);
            &&& is_single(after)
            &&& forall|k: int|
                0 <= k < after.len() ==> expected.contains(#[trigger] after[k]) && !read.contains(after[k].0)
        }),
    decreases read.len(),
{
    if read.len() > 0 {
        let init = read.drop_last();
        let last = read.last();
        lemma_left_over(expected, init);
        let before = expected_after(expected, init);
        let after = expected_after(expected, read);
        lemma_awaited_dir(before, last, 0);
        assert(read =~= init.push(last));
        match awaited_dir(before, last, 0) {
            Some(ix) => {
                assert forall|k: int| 0 <= k < after.len() implies expected.contains(#[trigger] after[k]) && !read.contains(
                    after[k].0,
                ) by {
                    let old = if k < ix {
                        k
                    } else {
                        k + 1
                    };
                    assert(after[k] == before[old]);
                    assert(before[old].0 != before[ix].0);
                    if read.contains(after[k].0) {
                        let m = choose|m: int| 0 <= m < read.len() && read[m] == after[k].0;
                        assert(init[m] == after[k].0);
                    }
                }
                assert forall|i: int, j: int| 0 <= i < j < after.len() implies (#[trigger] after[i]).0 != (
                #[trigger] after[j]).0 by {
                    let oi = if i < ix {
                        i
                    } else {
                        i + 1
                    };
                    let oj = if j < ix {
                        j
                    } else {
                        j + 1
                    };
                    assert(after[i] == before[oi] && after[j] == before[oj]);
                }
            },
            None => {
                lemma_no_dir(before, last, 0);
                assert forall|k: int| 0 <= k < after.len() implies expected.contains(#[trigger] after[k]) && !read.contains(
                    after[k].0,
                ) by {
                    assert(before[k].0 != last);
                    if read.contains(after[k].0) {
                        let m = choose|m: int| 0 <= m < read.len() && read[m] == after[k].0;
                        assert(init[m] == after[k].0);
                    }
                }
            },
        }
    } else {
        assert forall|k: int| 0 <= k < expected.len() implies expected.contains(#[trigger] expected[k]) by {}
    }
}

/// A touched album is ready as soon as every directory has been read that the tag cache predicts a track
/// of it in. (With [`law_albums_wait_for_their_directories`]: no later, and no sooner.)
pub proof fn law_a_predicted_album_is_ready_in_time(
    jobs: Seq<DirJob>,
    read: Seq<Seq<char>>,
    id: u64,
    assembler: AssemblerView,
)
    requires
        are_apart(jobs),
        forall|j: int, f: int|
            0 <= j < jobs.len() && 0 <= f < jobs[j].files@.len() && (#[trigger] jobs[j].files@[f]).valid() is Some
                && id_of(jobs[j].files@[f].valid()->0) == id ==> read.contains(jobs[j].dir@),
        assembler.expected == expected_after(expected_of(jobs, jobs.len() as int), read),
        assembler.dirty.contains(id),
    ensures
        assembler.settled().contains(id),
{
    let n = jobs.len() as int;
    let expected = expected_of(jobs, n);
    lemma_expectations(jobs, n);
    lemma_left_over(expected, read);
    let after = assembler.expected;
    if is_awaited(after, id) {
        let k = choose|k: int| 0 <= k < after.len() && (#[trigger] after[k]).1.contains(id);
        let e = after[k];
        assert(expected.contains(e));
        let m = choose|m: int| 0 <= m < expected.len() && expected[m] == e;
        assert(comes_from(jobs, expected[m], n));
        let j = choose|j: int|
            0 <= j < n && (#[trigger] jobs[j]).dir@ == e.0 && ids_expected(jobs[j].files@, jobs[j].files@.len() as int)
                == e.1;
        lemma_source(jobs[j].files@, id, jobs[j].files@.len() as int);
        let f = choose|f: int|
            0 <= f < jobs[j].files@.len() && (#[trigger] jobs[j].files@[f]).valid() is Some && id_of(
                jobs[j].files@[f].valid()->0,
            ) == id;
        assert(jobs[j].files@[f].valid() is Some);
    }
}

/// Where the tag cache predicts nothing -- a cold scan -- a directory's albums are ready as soon as it has
/// been read.
pub proof fn law_a_cold_scan_reports_at_once(assembler: AssemblerView, dir: Seq<char>, files: Seq<Tagged>, k: int)
    requires
        assembler.expected.len() == 0,
        0 <= k < files.len(),
    ensures
        assembler.absorbed(dir, files).settled().contains(id_of(files[k].entry)),
{
    let after = assembler.absorbed(dir, files);
    assert(after.expected.len() == 0);
    assert(crate::assembler::is_touched(files, id_of(files[k].entry)));
}

proof fn lemma_grown_tracks(albums: Seq<PendingView>, dir: Seq<char>, file: Tagged, id: u64)
    ensures
        ({
            let after = crate::assembler::grown(albums, dir, file.path, file.entry);
            let track = crate::assembler::track_of(file.path, file.entry);
            tracks_of(after, id) == if id_of(file.entry) == id {
                tracks_of(albums, id).push(track)
            } else {
                tracks_of(albums, id)
            }
        }),
{
    let after = crate::assembler::grown(albums, dir, file.path, file.entry);
    crate::assembler::lemma_album_in(albums, id, 0);
    crate::assembler::lemma_album_in(albums, id_of(file.entry), 0);
    crate::assembler::lemma_grown_keeps(albums, dir, file.path, file.entry, id);
}

/// The tracks that have been found of an album, in the order they were found in.
pub open spec fn tracks_of(albums: Seq<PendingView>, id: u64) -> Seq<PendingTrack> {
    match album_in(albums, id, 0) {
        Some(k) => albums[k].tracks,
        None => Seq::empty(),
    }
}

/// The tracks of an album among the first `n` files of a directory.
pub open spec fn tracks_in(files: Seq<Tagged>, id: u64, n: int) -> Seq<PendingTrack>
    decreases n,
{
    if n <= 0 {
        Seq::empty()
    } else {
        let before = tracks_in(files, id, n - 1);
        if id_of(files[n - 1].entry) == id {
            before.push(crate::assembler::track_of(files[n - 1].path, files[n - 1].entry))
        } else {
            before
        }
    }
}

/// An album has the tracks that the tags say it has, from whatever directories: reading a directory adds
/// those of its files that are tagged with the album, and no others.
pub proof fn law_albums_are_what_the_tags_say(
    albums: Seq<PendingView>,
    dir: Seq<char>,
    files: Seq<Tagged>,
    id: u64,
    n: int,
)
    requires
        0 <= n <= files.len(),
    ensures
        tracks_of(absorbing(albums, dir, files, n), id) == tracks_of(albums, id) + tracks_in(files, id, n),
    decreases n,
{
    if n > 0 {
        law_albums_are_what_the_tags_say(albums, dir, files, id, n - 1);
        lemma_grown_tracks(absorbing(albums, dir, files, n - 1), dir, files[n - 1], id);
        assert(tracks_of(absorbing(albums, dir, files, n), id) =~= tracks_of(albums, id) + tracks_in(files, id, n));
    } else {
        assert(tracks_of(albums, id) =~= tracks_of(albums, id) + tracks_in(files, id, 0));
    }
}

/// A file becomes a track of its album as it is tagged: with its path, its title, its numbers, its year and its
/// genre, behind the tracks that the album has.
pub proof fn law_a_file_becomes_a_track(albums: Seq<PendingView>, dir: Seq<char>, files: Seq<Tagged>, n: int)
    requires
        0 < n <= files.len(),
    ensures
        ({
            let file = files[n - 1];
            let tracks = tracks_of(absorbing(albums, dir, files, n), id_of(file.entry));
            let track = tracks.last();
            &&& tracks.len() > 0
            &&& track.info.path == file.path
            &&& track.info.title == file.entry.title
            &&& track.disc == file.entry.disc
            &&& track.track == file.entry.track
            &&& track.year == file.entry.year
            &&& track.genre == file.entry.genre
        }),
{
    let before = absorbing(albums, dir, files, n - 1);
    lemma_grown_tracks(before, dir, files[n - 1], id_of(files[n - 1].entry));
}

proof fn lemma_batch_of(batches: Seq<BatchView>, id: u64, k: int)
    requires
        0 <= k <= batches.len(),
    ensures
        match batch_of(batches, id, k) {
            Some(b) => k <= b < batches.len() && batches[b].id == id,
            None => forall|b: int| k <= b < batches.len() ==> (#[trigger] batches[b]).id != id,
        },
    decreases batches.len() - k,
{
    if k < batches.len() && batches[k].id != id {
        lemma_batch_of(batches, id, k + 1);
    }
}

/// A cover is decoded once, for all the albums that show it: there is one batch of it, and it names each of them.
pub proof fn law_a_cover_is_decoded_once_for_all(loads: Seq<CoverLoad>, n: int)
    requires
        0 <= n <= loads.len(),
    ensures
        forall|a: int, b: int|
            0 <= a < b < batched(loads, n).len() ==> (#[trigger] batched(loads, n)[a]).id != (#[trigger] batched(
                loads,
                n,
            )[b]).id,
        forall|l: int|
            0 <= l < n ==> exists|b: int|
                {
                    &&& 0 <= b < batched(loads, n).len()
                    &&& (#[trigger] batched(loads, n)[b]).id == (#[trigger] loads[l]).id
                    &&& batched(loads, n)[b].albums.contains(loads[l].album)
                },
    decreases n,
{
    if n > 0 {
        law_a_cover_is_decoded_once_for_all(loads, n - 1);
        let before = batched(loads, n - 1);
        let after = batched(loads, n);
        let load = loads[n - 1];
        lemma_batch_of(before, load.id, 0);
        let at = match batch_of(before, load.id, 0) {
            Some(k) => k,
            None => before.len() as int,
        };
        assert(after[at].albums.last() == load.album);
        assert(after[at].albums.contains(load.album)) by {
            assert(after[at].albums[after[at].albums.len() - 1] == load.album);
        }
        assert forall|a: int, b: int| 0 <= a < b < after.len() implies (#[trigger] after[a]).id != (
        #[trigger] after[b]).id by {
            if b < before.len() {
                assert(before[a].id != before[b].id);
            } else {
                assert(before[a].id != load.id);
            }
        }
        assert forall|l: int| 0 <= l < n implies exists|b: int|
            {
                &&& 0 <= b < after.len()
                &&& (#[trigger] after[b]).id == (#[trigger] loads[l]).id
                &&& after[b].albums.contains(loads[l].album)
            } by {
            if l == n - 1 {
                assert(after[at].id == loads[l].id);
            } else {
                let b = choose|b: int|
                    {
                        &&& 0 <= b < before.len()
                        &&& (#[trigger] before[b]).id == loads[l].id
                        &&& before[b].albums.contains(loads[l].album)
                    };
                assert(before[b].id == loads[l].id);
                let i = choose|i: int| 0 <= i < before[b].albums.len() && before[b].albums[i] == loads[l].album;
                assert(after[b].albums[i] == loads[l].album);
                assert(after[b].id == loads[l].id);
            }
        }
    }
}

/// The tag cache is written anew where a file had to be read, or where it has more or fewer files than there are.
pub proof fn law_a_cache_that_differs_is_stale(parsed: usize, fresh: nat, cached: usize)
    ensures
        is_stale(parsed, fresh, cached) <==> !(parsed == 0 && fresh == cached),
{
}

} // verus!
