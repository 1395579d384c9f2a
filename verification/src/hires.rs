//! A least-recently-used cache of decoded high-res covers, shared across every album that plays.
//! Demand-driven in the style of a query-compilation cache: callers [`query`](HiResCache::query) a cover
//! and the cache tells whether it has to be decoded, memoizing the result once it
//! [`complete`](HiResCache::complete)s; there is no manual get-then-insert. It holds the covers around the
//! current album and a good many recently-played others, up to [`HIRES_CAP`], so revisiting an album is
//! instant.

use std::sync::Arc;
use vstd::prelude::*;

verus! {

/// How many decoded high-res covers [`HiResCache`] keeps. At FULL² RGBA (~3 MiB each) this bounds
/// its footprint near 240 MiB -- and only a session that plays that many *distinct* albums reaches
/// it; a typical one holds far fewer. Enough to blanket a favorite genre or playlist, so bouncing
/// among its albums never re-decodes a cover.
pub const HIRES_CAP: usize = 80;

/// A decoded cover. The cache and whoever draws it share one allocation.
pub type Pixels = Arc<Vec<u8>>;

/// A resident cover.
#[derive(Debug)]
pub struct Cached {
    pub id: u64,
    pub pixels: Pixels,
}

#[derive(Debug)]
pub struct HiResCache {
    /// The resident covers, from the least to the most recently used.
    pub entries: Vec<Cached>,
    /// Cover ids whose decode is in flight, so a repeated [`query`](Self::query) doesn't launch a
    /// second decode of the same cover.
    pub pending: Vec<u64>,
}

/// The resident covers, from the least to the most recently used, and the ids being decoded.
#[verifier::ext_equal]
pub struct HiResView {
    pub entries: Seq<Cached>,
    pub pending: Set<u64>,
}

impl View for HiResCache {
    type V = HiResView;

    open spec fn view(&self) -> HiResView {
        HiResView { entries: self.entries@, pending: self.pending@.to_set() }
    }
}

/// The cover `id` is at slot `k`.
pub open spec fn is_at(entries: Seq<Cached>, id: u64, k: int) -> bool {
    0 <= k < entries.len() && entries[k].id == id
}

/// The cover `id` is resident.
pub open spec fn resident(entries: Seq<Cached>, id: u64) -> bool {
    exists|k: int| is_at(entries, id, k)
}

/// Where the cover `id` is.
pub open spec fn slot_of(entries: Seq<Cached>, id: u64) -> int {
    choose|k: int| is_at(entries, id, k)
}

/// No cover is resident twice.
pub open spec fn all_distinct(entries: Seq<Cached>) -> bool {
    forall|k: int, l: int|
        0 <= k < entries.len() && 0 <= l < entries.len() && k != l ==> (#[trigger] entries[k]).id != (
        #[trigger] entries[l]).id
}

/// The covers without the cover `id`.
pub open spec fn without(entries: Seq<Cached>, id: u64) -> Seq<Cached> {
    if resident(entries, id) {
        entries.remove(slot_of(entries, id))
    } else {
        entries
    }
}

/// The covers that stay when there are too many: the most recently used ones.
pub open spec fn bounded(entries: Seq<Cached>) -> Seq<Cached> {
    if entries.len() > HIRES_CAP {
        entries.skip(entries.len() - HIRES_CAP)
    } else {
        entries
    }
}

impl HiResView {
    /// No cover is resident twice, and there are no more than the cache keeps.
    pub open spec fn wf(self) -> bool {
        &&& all_distinct(self.entries)
        &&& self.entries.len() <= HIRES_CAP
    }

    /// A resident cover has just been used.
    pub open spec fn touched(self, id: u64) -> HiResView {
        if resident(self.entries, id) {
            HiResView {
                entries: without(self.entries, id).push(self.entries[slot_of(self.entries, id)]),
                ..self
            }
        } else {
            self
        }
    }

    /// Whether demanding a cover has it decoded: it is neither resident nor being decoded.
    pub open spec fn demands(self, id: u64) -> bool {
        !resident(self.entries, id) && !self.pending.contains(id)
    }

    /// A cover has been demanded.
    pub open spec fn queried(self, id: u64) -> HiResView {
        if resident(self.entries, id) {
            self.touched(id)
        } else {
            HiResView { pending: self.pending.insert(id), ..self }
        }
    }

    /// A decode has ended.
    pub open spec fn completed(self, id: u64, pixels: Option<Pixels>) -> HiResView {
        let pending = self.pending.remove(id);
        match pixels {
            None => HiResView { pending, ..self },
            Some(pixels) => HiResView {
                entries: bounded(without(self.entries, id).push(Cached { id, pixels })),
                pending,
            },
        }
    }
}

impl HiResCache {
    /// See [`HiResView::wf`]; and no id is being decoded twice.
    pub open spec fn wf(&self) -> bool {
        &&& self@.wf()
        &&& self.pending@.no_duplicates()
    }

    pub fn new() -> (cache: Self)
        ensures
            cache.wf(),
            cache@ == (HiResView { entries: Seq::empty(), pending: Set::empty() }),
    {
        let cache = HiResCache { entries: Vec::new(), pending: Vec::new() };
        assert(cache@.pending =~= Set::empty());
        cache
    }

    /// How many covers are resident.
    pub fn len(&self) -> (n: usize)
        ensures
            n == self@.entries.len(),
    {
        self.entries.len()
    }

    fn find(&self, id: u64) -> (slot: Option<usize>)
        requires
            self.wf(),
        ensures
            match slot {
                Some(k) => is_at(self@.entries, id, k as int) && slot_of(self@.entries, id) == k,
                None => !resident(self@.entries, id),
            },
    {
        let mut k: usize = 0;
        while k < self.entries.len()
            invariant
                k <= self.entries.len(),
                self.wf(),
                forall|l: int| 0 <= l < k ==> (#[trigger] self.entries@[l]).id != id,
            decreases self.entries.len() - k,
        {
            if self.entries[k].id == id {
                assert(is_at(self@.entries, id, k as int));
                return Some(k);
            }
            k = k + 1;
        }
        None
    }

    fn find_pending(&self, id: u64) -> (slot: Option<usize>)
        ensures
            match slot {
                Some(k) => k < self.pending.len() && self.pending[k as int] == id,
                None => !self.pending@.contains(id),
            },
    {
        let mut k: usize = 0;
        while k < self.pending.len()
            invariant
                k <= self.pending.len(),
                forall|l: int| 0 <= l < k ==> self.pending@[l] != id,
            decreases self.pending.len() - k,
        {
            if self.pending[k] == id {
                return Some(k);
            }
            k = k + 1;
        }
        None
    }

    /// Marks a resident cover as just-used, moving it to the far end of the eviction order, and
    /// reports whether it was resident at all. Keeping the on-screen window touched on every query
    /// keeps eviction falling on colder, off-screen covers.
    pub fn touch(&mut self, id: u64) -> (r: bool)
        requires
            old(self).wf(),
        ensures
            final(self).wf(),
            r == resident(old(self)@.entries, id),
            final(self)@ == old(self)@.touched(id),
            final(self).pending == old(self).pending,
    {
        match self.find(id) {
            Some(k) => {
                let entry: Cached = self.entries.remove(k);
                self.entries.push(entry);
                true
            },
            None => false,
        }
    }

    /// Demands the high-res cover for `id`, and tells whether it is to be decoded. Query-compilation
    /// style: if it's already cached this just promotes it in the LRU (the view reads the pixels via
    /// [`peek`]); otherwise the caller's decode lands back through [`complete`], which
    /// memoizes it. Deduplicated -- a cover already resident or already decoding demands nothing -- so
    /// callers can query their whole window every album move without tracking
    /// what's loaded or in flight.
    ///
    /// [`peek`]: HiResCache::peek
    /// [`complete`]: HiResCache::complete
    pub fn query(&mut self, id: u64) -> (decode: bool)
        requires
            old(self).wf(),
        ensures
            final(self).wf(),
            decode == old(self)@.demands(id),
            final(self)@ == old(self)@.queried(id),
    {
        // Resident: promote and done. Already decoding: let the in-flight decode land.
        if self.touch(id) {
            return false;
        }
        match self.find_pending(id) {
            Some(k) => {
                assert(self.pending@.to_set().contains(id));
                assert(self@.pending =~= old(self)@.pending.insert(id));
                false
            },
            None => {
                assert(!self.pending@.to_set().contains(id));
                self.pending.push(id);
                proof {
                    lemma_pushed(old(self).pending@, id);
                }
                true
            },
        }
    }

    /// Absorbs the result of a [`query`](Self::query)'s decode: clears the in-flight mark and, on
    /// success, memoizes the cover (evicting the least-recently-used if now over [`HIRES_CAP`]). A
    /// failed decode (`None`) simply leaves the cover on its thumbnail.
    pub fn complete(&mut self, id: u64, pixels: Option<Pixels>)
        requires
            old(self).wf(),
        ensures
            final(self).wf(),
            final(self)@ == old(self)@.completed(id, pixels),
    {
        match self.find_pending(id) {
            Some(k) => {
                self.pending.remove(k);
                proof {
                    lemma_removed(old(self).pending@, k as int);
                }
            },
            None => {
                assert(!self.pending@.to_set().contains(id));
                assert(self@.pending =~= old(self)@.pending.remove(id));
            },
        }
        if let Some(pixels) = pixels {
            if let Some(k) = self.find(id) {
                self.entries.remove(k);
            }
            let ghost entries = self.entries@;
            assert(entries =~= without(old(self)@.entries, id));
            self.entries.push(Cached { id, pixels });
            if self.entries.len() > HIRES_CAP {
                self.entries.remove(0);
            }
            assert(self.entries@ =~= bounded(entries.push(Cached { id, pixels })));
            proof {
                lemma_completed(old(self)@.entries, id, pixels);
            }
        }
    }

    /// The cover for `id`, if resident. A non-promoting probe for the
    /// view, which calls it every frame and must render *something* (the thumbnail) when a cover
    /// isn't loaded yet -- promotion is [`query`](Self::query)'s job, once per album move.
    pub fn peek(&self, id: u64) -> (pixels: Option<&Pixels>)
        requires
            self.wf(),
        ensures
            match pixels {
                Some(pixels) => resident(self@.entries, id) && *pixels == self@.entries[slot_of(
                    self@.entries,
                    id,
                )].pixels,
                None => !resident(self@.entries, id),
            },
    {
        match self.find(id) {
            Some(k) => Some(&self.entries[k].pixels),
            None => None,
        }
    }
}

impl Default for HiResCache {
    fn default() -> (cache: Self)
        ensures
            cache.wf(),
            cache@ == (HiResView { entries: Seq::empty(), pending: Set::empty() }),
    {
        Self::new()
    }
}

proof fn lemma_pushed(ids: Seq<u64>, id: u64)
    requires
        ids.no_duplicates(),
        !ids.contains(id),
    ensures
        ids.push(id).no_duplicates(),
        ids.push(id).to_set() == ids.to_set().insert(id),
{
    let pushed = ids.push(id);
    assert forall|x: u64| pushed.to_set().contains(x) <==> ids.to_set().insert(id).contains(x) by {
        if pushed.contains(x) {
            let k = choose|k: int| 0 <= k < pushed.len() && pushed[k] == x;
            if k < ids.len() {
                assert(ids[k] == x);
            }
        }
        if ids.contains(x) {
            let k = choose|k: int| 0 <= k < ids.len() && ids[k] == x;
            assert(pushed[k] == x);
        }
        assert(pushed[ids.len() as int] == id);
    }
    assert(pushed.to_set() =~= ids.to_set().insert(id));
}

proof fn lemma_removed(ids: Seq<u64>, k: int)
    requires
        ids.no_duplicates(),
        0 <= k < ids.len(),
    ensures
        ids.remove(k).no_duplicates(),
        ids.remove(k).to_set() == ids.to_set().remove(ids[k]),
{
    let left = ids.remove(k);
    assert forall|x: u64| left.to_set().contains(x) <==> ids.to_set().remove(ids[k]).contains(x) by {
        if left.contains(x) {
            let l = choose|l: int| 0 <= l < left.len() && left[l] == x;
            if l < k {
                assert(ids[l] == x);
            } else {
                assert(ids[l + 1] == x);
            }
        }
        if ids.contains(x) && x != ids[k] {
            let l = choose|l: int| 0 <= l < ids.len() && ids[l] == x;
            if l < k {
                assert(left[l] == x);
            } else {
                assert(left[l - 1] == x);
            }
        }
    }
    assert(left.to_set() =~= ids.to_set().remove(ids[k]));
}

/// What a successful decode memoizes is resident from then on, as it was decoded.
pub proof fn law_a_completed_cover_is_resident(cache: HiResView, id: u64, pixels: Pixels)
    requires
        cache.wf(),
    ensures
        ({
            let after = cache.completed(id, Some(pixels));
            &&& after.wf()
            &&& resident(after.entries, id)
            &&& after.entries[slot_of(after.entries, id)].pixels == pixels
            &&& !after.pending.contains(id)
        }),
{
    lemma_completed(cache.entries, id, pixels);
    let after = cache.completed(id, Some(pixels)).entries;
    assert(is_at(after, id, after.len() - 1));
    assert(is_at(after, id, slot_of(after, id)));
}

proof fn lemma_completed(entries: Seq<Cached>, id: u64, pixels: Pixels)
    requires
        all_distinct(entries),
    ensures
        all_distinct(bounded(without(entries, id).push(Cached { id, pixels }))),
{
    lemma_without(entries, id);
    let left = without(entries, id);
    assert forall|l: int| 0 <= l < left.len() implies (#[trigger] left[l]).id != id by {
        assert(!is_at(left, id, l));
    }
    let pushed = left.push(Cached { id, pixels });
    assert(all_distinct(pushed));
    let kept = bounded(pushed);
    assert forall|k: int, l: int| 0 <= k < kept.len() && 0 <= l < kept.len() && k != l implies (
    #[trigger] kept[k]).id != (#[trigger] kept[l]).id by {
        let d = pushed.len() - kept.len();
        assert(kept[k] == pushed[k + d]);
        assert(kept[l] == pushed[l + d]);
    }
}

proof fn lemma_without(entries: Seq<Cached>, id: u64)
    requires
        all_distinct(entries),
    ensures
        all_distinct(without(entries, id)),
        !resident(without(entries, id), id),
        without(entries, id).len() == entries.len() - if resident(entries, id) {
            1int
        } else {
            0int
        },
{
    let left = without(entries, id);
    if resident(entries, id) {
        let k = slot_of(entries, id);
        assert(is_at(entries, id, k));
        assert forall|l: int| 0 <= l < left.len() implies (#[trigger] left[l]).id != id by {
            if l < k {
                assert(left[l] == entries[l]);
            } else {
                assert(left[l] == entries[l + 1]);
            }
        }
    }
}

/// When the cache is full and another cover comes in, it is the least recently used one that goes, and no
/// other.
pub proof fn law_the_least_recently_used_goes(cache: HiResView, id: u64, pixels: Pixels, other: u64)
    requires
        cache.wf(),
        cache.entries.len() == HIRES_CAP,
        !resident(cache.entries, id),
        other != id,
    ensures
        resident(cache.completed(id, Some(pixels)).entries, other) <==> resident(cache.entries, other)
            && other != cache.entries[0].id,
{
    let before = cache.entries;
    let after = cache.completed(id, Some(pixels)).entries;
    assert(after =~= before.skip(1).push(Cached { id, pixels }));
    if resident(after, other) {
        let k = slot_of(after, other);
        assert(is_at(after, other, k));
        assert(before[k + 1] == after[k]);
        assert(is_at(before, other, k + 1));
    }
    if resident(before, other) && other != before[0].id {
        let k = slot_of(before, other);
        assert(is_at(before, other, k));
        assert(is_at(after, other, k - 1));
    }
}

/// A cover that has just been used survives the next one that comes in, however full the cache is.
pub proof fn law_a_used_cover_survives(cache: HiResView, used: u64, id: u64, pixels: Pixels)
    requires
        cache.wf(),
        resident(cache.entries, used),
        used != id,
    ensures
        resident(cache.queried(used).completed(id, Some(pixels)).entries, used),
{
    let entries = cache.entries;
    let k = slot_of(entries, used);
    assert(is_at(entries, used, k));
    lemma_without(entries, used);
    let touched = cache.queried(used).entries;
    let n = touched.len();
    assert(touched[n - 1].id == used);
    let left = without(touched, id);
    if resident(touched, id) {
        let s = slot_of(touched, id);
        assert(is_at(touched, id, s));
        assert(left[n - 2] == touched[n - 1]);
    }
    assert(left[left.len() - 1].id == used);
    let pushed = left.push(Cached { id, pixels });
    let after = bounded(pushed);
    assert(after[after.len() - 2].id == used);
    assert(is_at(after, used, after.len() - 2));
}

/// A decode that failed stores nothing, and lets a later query demand the cover again.
pub proof fn law_a_failed_decode_reopens_the_query(cache: HiResView, id: u64)
    requires
        !resident(cache.entries, id),
    ensures
        cache.completed(id, None).entries == cache.entries,
        cache.completed(id, None).demands(id),
{
}

/// Until its decode ends, a cover is demanded once.
pub proof fn law_a_cover_is_demanded_once(cache: HiResView, id: u64)
    ensures
        !cache.queried(id).demands(id),
{
    if resident(cache.entries, id) {
        let k = slot_of(cache.entries, id);
        assert(is_at(cache.entries, id, k));
        let after = cache.queried(id).entries;
        assert(is_at(after, id, after.len() - 1));
    }
}

/// Up to eighty covers are kept: as long as there are fewer, none goes when another comes in.
pub proof fn law_eighty_covers_are_kept(cache: HiResView, id: u64, pixels: Pixels, other: u64)
    requires
        cache.wf(),
        cache.entries.len() < 80,
        resident(cache.entries, other),
        other != id,
    ensures
        resident(cache.completed(id, Some(pixels)).entries, other),
        cache.completed(id, Some(pixels)).entries.len() <= 80,
{
    let before = cache.entries;
    let after = cache.completed(id, Some(pixels)).entries;
    let k = slot_of(before, other);
    assert(is_at(before, other, k));
    lemma_without(before, id);
    let left = without(before, id);
    if resident(before, id) {
        let s = slot_of(before, id);
        assert(is_at(before, id, s));
        if k < s {
            assert(is_at(after, other, k));
        } else {
            assert(left[k - 1] == before[k]);
            assert(is_at(after, other, k - 1));
        }
    } else {
        assert(is_at(after, other, k));
    }
}

} // verus!
