//! The course of a whole scan: what is reported over all its steps together.

use crate::assembler::{
    absorbing, album_in, expected_of, is_awaited, is_touched, lemma_album_in, lemma_grown_keeps, AssemblerView, PendingView,
    Tagged,
};
use crate::drive::{all_ids, expected_after, is_read, lemma_expected_of, lemma_still_expected};
use crate::order::ascending;
use crate::scan::DirJob;
use crate::tags::id_of;
use vstd::prelude::*;

verus! {

/// A scan from start to end: the directories in the order that they were read in, the files read in each,
/// the states in between, and the ids of the albums that were reported: by each read, and at last by the end
/// of the reading.
pub struct Course {
    pub dirs: Seq<Seq<char>>,
    pub files: Seq<Seq<Tagged>>,
    pub states: Seq<AssemblerView>,
    pub reports: Seq<Seq<u64>>,
}

impl Course {
    /// The course is that of a scan of some directories: it starts with nothing (see
    /// [`Scan::start`](crate::drive::Scan::start)), goes on by reads (see
    /// [`Scan::dir_read`](crate::drive::Scan::dir_read)), and ends by reporting what was not yet (see
    /// [`Scan::tags_done`](crate::drive::Scan::tags_done)).
    pub open spec fn is_of(self, jobs: Seq<DirJob>) -> bool {
        let n = self.dirs.len() as int;
        &&& self.files.len() == n
        &&& self.states.len() == n + 1
        &&& self.reports.len() == n + 1
        &&& self.states[0].albums.len() == 0
        &&& self.states[0].expected == expected_of(jobs, jobs.len() as int)
        &&& self.states[0].dirty == Set::<u64>::empty()
        &&& forall|k: int| 0 <= k < n ==> self.goes_on(k)
        &&& ascending(self.reports[n], self.states[n].dirty)
    }

    /// The `k`-th read is one.
    pub open spec fn goes_on(self, k: int) -> bool {
        is_read(self.states[k], self.dirs[k], self.files[k], self.reports[k], self.states[k + 1])
    }

    /// An album is reported by one of the first `k` reports.
    pub open spec fn reports_by(self, id: u64, k: int) -> bool {
        exists|i: int| 0 <= i < k && (#[trigger] self.reports[i]).contains(id)
    }

    /// The tag cache knows all that is read: each file belongs to an album that it predicts a track of in
    /// that directory.
    pub open spec fn is_warm(self, jobs: Seq<DirJob>) -> bool {
        forall|k: int, f: int|
            0 <= k < self.dirs.len() && 0 <= f < self.files[k].len() ==> is_predicted(
                jobs,
                self.dirs[k],
                id_of((#[trigger] self.files[k][f]).entry),
            )
    }
}

/// The tag cache predicts a track of an album in a directory.
pub open spec fn is_predicted(jobs: Seq<DirJob>, dir: Seq<char>, id: u64) -> bool {
    exists|j: int, f: int|
        0 <= j < jobs.len() && 0 <= f < jobs[j].files@.len() && jobs[j].dir@ == dir && (
        #[trigger] jobs[j].files@[f]).valid() is Some && id_of(jobs[j].files@[f].valid()->0) == id
}

/// The albums that are held once some files have been taken in: those that were, and those of the files. None
/// is held twice.
proof fn lemma_absorbing(albums: Seq<PendingView>, dir: Seq<char>, files: Seq<Tagged>, n: int)
    requires
        0 <= n <= files.len(),
        are_distinct(albums),
    ensures
        are_distinct(absorbing(albums, dir, files, n)),
        forall|id: u64|
            #[trigger] album_in(absorbing(albums, dir, files, n), id, 0) is Some <==> album_in(albums, id, 0) is Some
                || is_touched(files.take(n), id),
    decreases n,
{
    if n > 0 {
        lemma_absorbing(albums, dir, files, n - 1);
        let before = absorbing(albums, dir, files, n - 1);
        let after = absorbing(albums, dir, files, n);
        let file = files[n - 1];
        lemma_album_in(before, id_of(file.entry), 0);
        assert(are_distinct(after)) by {
            match album_in(before, id_of(file.entry), 0) {
                Some(k) => {
                    assert forall|i: int, j: int| 0 <= i < j < after.len() implies (#[trigger] after[i]).id != (
                    #[trigger] after[j]).id by {
                        assert(after[i].id == before[i].id && after[j].id == before[j].id);
                    }
                },
                None => {
                    assert forall|i: int, j: int| 0 <= i < j < after.len() implies (#[trigger] after[i]).id != (
                    #[trigger] after[j]).id by {
                        assert(after[i] == before[i]);
                        if j < before.len() {
                            assert(after[j] == before[j]);
                        }
                    }
                },
            }
        }
        let earlier = files.take(n - 1);
        let now = files.take(n);
        assert forall|id: u64| #[trigger] album_in(after, id, 0) is Some <==> album_in(albums, id, 0) is Some || is_touched(
            now,
            id,
        ) by {
            lemma_grown_keeps(before, dir, file.path, file.entry, id);
            if is_touched(earlier, id) {
                let k = choose|k: int| 0 <= k < earlier.len() && id_of((#[trigger] earlier[k]).entry) == id;
                assert(now[k] == earlier[k]);
            }
            if id_of(file.entry) == id {
                assert(now[n - 1] == file);
            }
            if is_touched(now, id) && id_of(file.entry) != id {
                let k = choose|k: int| 0 <= k < now.len() && id_of((#[trigger] now[k]).entry) == id;
                assert(earlier[k] == now[k]);
            }
        }
    } else {
        assert forall|id: u64| !is_touched(files.take(0), id) by {}
    }
}

/// No album is held twice.
spec fn are_distinct(albums: Seq<PendingView>) -> bool {
    forall|i: int, j: int| 0 <= i < j < albums.len() ==> (#[trigger] albums[i]).id != (#[trigger] albums[j]).id
}

/// After `k` reads: what is still expected, and that every album that is held has been reported, or is still
/// to be, and no other.
proof fn lemma_so_far(course: Course, jobs: Seq<DirJob>, k: int)
    requires
        course.is_of(jobs),
        0 <= k <= course.dirs.len(),
    ensures
        ({
            let state = course.states[k];
            &&& are_distinct(state.albums)
            &&& state.expected == expected_after(expected_of(jobs, jobs.len() as int), course.dirs.take(k))
            &&& forall|id: u64|
                #[trigger] state.holds(id) <==> state.dirty.contains(id) || course.reports_by(id, k)
        }),
    decreases k,
{
    let state = course.states[k];
    if k == 0 {
        assert(course.dirs.take(0) =~= Seq::empty());
        assert forall|id: u64| !(#[trigger] state.holds(id)) by {
            lemma_album_in(state.albums, id, 0);
        }
    } else {
        lemma_so_far(course, jobs, k - 1);
        assert(course.goes_on(k - 1));
        let before = course.states[k - 1];
        let dir = course.dirs[k - 1];
        let files = course.files[k - 1];
        let absorbed = before.absorbed(dir, files);
        assert(course.dirs.take(k).drop_last() =~= course.dirs.take(k - 1));
        lemma_absorbing(before.albums, dir, files, files.len() as int);
        assert(files.take(files.len() as int) =~= files);
        assert forall|id: u64| #[trigger] state.holds(id) <==> state.dirty.contains(id) || course.reports_by(id, k) by {
            assert(album_in(absorbed.albums, id, 0) is Some <==> before.holds(id) || is_touched(files, id));
            assert(absorbed.dirty.contains(id) <==> before.dirty.contains(id) || is_touched(files, id));
            assert(course.reports[k - 1].to_set().contains(id) <==> absorbed.settled().contains(id));
            if course.reports_by(id, k - 1) {
                let i = choose|i: int| 0 <= i < k - 1 && (#[trigger] course.reports[i]).contains(id);
                assert(course.reports[i].contains(id));
            }
            if course.reports[k - 1].contains(id) {
                assert(course.reports_by(id, k));
            }
            if course.reports_by(id, k) && !course.reports[k - 1].contains(id) {
                let i = choose|i: int| 0 <= i < k && (#[trigger] course.reports[i]).contains(id);
                assert(course.reports_by(id, k - 1));
            }
        }
    }
}

/// The albums whose ids are handed out at the end of a scan (see [`Scan::finish`](crate::drive::Scan::finish):
/// those that are held, which the last report leaves as they are) are exactly those that have been reported in
/// its course, and each is handed out once.
pub proof fn law_a_scan_hands_out_what_it_reported(course: Course, jobs: Seq<DirJob>)
    requires
        course.is_of(jobs),
    ensures
        ({
            let ids = all_ids(course.states.last());
            &&& ids.no_duplicates()
            &&& forall|id: u64|
                #[trigger] ids.contains(id) <==> course.reports_by(id, course.reports.len() as int)
        }),
{
    let n = course.dirs.len() as int;
    lemma_so_far(course, jobs, n);
    let end = course.states[n];
    let ids = all_ids(end);
    assert forall|i: int, j: int| 0 <= i < ids.len() && 0 <= j < ids.len() && i != j implies ids[i] != ids[j] by {
        assert(ids[i] == end.albums[i].id && ids[j] == end.albums[j].id);
        if i < j {
            assert(end.albums[i].id != end.albums[j].id);
        } else {
            assert(end.albums[j].id != end.albums[i].id);
        }
    }
    assert forall|id: u64| #[trigger] ids.contains(id) <==> course.reports_by(id, n + 1) by {
        lemma_album_in(end.albums, id, 0);
        if ids.contains(id) {
            let k = choose|k: int| 0 <= k < ids.len() && ids[k] == id;
            assert(end.albums[k].id == id);
            assert(end.holds(id));
        }
        if end.holds(id) {
            let k = album_in(end.albums, id, 0)->0;
            assert(ids[k] == id);
        }
        assert(course.reports[n].to_set().contains(id) <==> end.dirty.contains(id));
        if course.reports_by(id, n) {
            let i = choose|i: int| 0 <= i < n && (#[trigger] course.reports[i]).contains(id);
            assert(course.reports[i].contains(id));
        }
        if course.reports_by(id, n + 1) && !course.reports[n].contains(id) {
            let i = choose|i: int| 0 <= i < n + 1 && (#[trigger] course.reports[i]).contains(id);
            assert(course.reports_by(id, n));
        }
    }
}

/// An album that the `k`-th read has reported is not touched again on a warm scan.
proof fn lemma_untouched(course: Course, jobs: Seq<DirJob>, id: u64, k: int, l: int)
    requires
        course.is_of(jobs),
        course.is_warm(jobs),
        course.dirs.no_duplicates(),
        0 <= k < l <= course.dirs.len(),
        course.reports[k].contains(id),
    ensures
        !course.states[l].dirty.contains(id),
        l < course.dirs.len() ==> !is_touched(course.files[l], id),
    decreases l - k,
{
    let expected = expected_of(jobs, jobs.len() as int);
    assert(course.goes_on(k));
    lemma_so_far(course, jobs, k + 1);
    assert(course.reports[k].to_set().contains(id));
    assert(!is_awaited(course.states[k + 1].expected, id));
    if l < course.dirs.len() && is_touched(course.files[l], id) {
        let f = choose|f: int|
            0 <= f < course.files[l].len() && id_of((#[trigger] course.files[l][f]).entry) == id;
        assert(is_predicted(jobs, course.dirs[l], id_of(course.files[l][f].entry)));
        let (j, g) = choose|j: int, g: int|
            0 <= j < jobs.len() && 0 <= g < jobs[j].files@.len() && jobs[j].dir@ == course.dirs[l] && (
            #[trigger] jobs[j].files@[g]).valid() is Some && id_of(jobs[j].files@[g].valid()->0) == id;
        lemma_expected_of(jobs, j, g, jobs.len() as int);
        let read = course.dirs.take(k + 1);
        assert(!read.contains(course.dirs[l])) by {
            if read.contains(course.dirs[l]) {
                let i = choose|i: int| 0 <= i < read.len() && read[i] == course.dirs[l];
                assert(course.dirs[i] == course.dirs[l]);
            }
        }
        lemma_still_expected(expected, read, course.dirs[l], id);
        let after = course.states[k + 1].expected;
        let m = choose|m: int|
            0 <= m < after.len() && (#[trigger] after[m]).0 == course.dirs[l] && after[m].1.contains(id);
        assert(after[m].1.contains(id));
    }
    if l > k + 1 {
        lemma_untouched(course, jobs, id, k, l - 1);
        assert(course.goes_on(l - 1));
    }
}

/// On a warm rescan, where the tag cache knows all that is read and no directory is read twice, each album is
/// reported once: by one report, and by that one once. (With [`law_a_scan_hands_out_what_it_reported`]: each
/// that is handed out at the end, and no other.)
pub proof fn law_a_warm_scan_reports_each_album_once(course: Course, jobs: Seq<DirJob>, id: u64, k: int, l: int)
    requires
        course.is_of(jobs),
        course.is_warm(jobs),
        course.dirs.no_duplicates(),
        0 <= k < course.reports.len(),
        0 <= l < course.reports.len(),
        course.reports[k].contains(id),
        course.reports[l].contains(id),
    ensures
        k == l,
        course.reports[k].no_duplicates(),
{
    let n = course.dirs.len() as int;
    let (first, second) = if k < l {
        (k, l)
    } else {
        (l, k)
    };
    if first < second {
        lemma_untouched(course, jobs, id, first, second);
        assert(course.reports[second].to_set().contains(id));
        if second < n {
            assert(course.goes_on(second));
        }
    }
    if k < n {
        assert(course.goes_on(k));
    }
}

} // verus!
