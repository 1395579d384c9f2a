//! Reordering a play queue.
//!
//! Works on the album keys alone -- one per queue slot, equal keys meaning the same album -- and
//! returns a permutation of the slots, so a player applies it to whatever its own queue items are.

use vstd::prelude::*;

verus! {

/// What a shuffle permutes: single tracks, or whole albums, each album's tracks staying together and
/// in their queue order while the albums land in random order.
#[derive(Debug, Clone, Copy, PartialEq, Eq, Structural)]
pub enum Grouping {
    Tracks,
    Albums,
}

/// How much of the queue a shuffle reorders.
#[derive(Debug, Clone, Copy, PartialEq, Eq, Structural)]
pub enum Scope {
    /// The playing track, or its whole album, moves to the front and everything else shuffles in
    /// behind it -- so nothing lands unreachably behind the cursor and playback carries on.
    Others,
    /// Everything shuffles, the playing track included.
    All,
}

/// The odd 64-bit constant SplitMix64 walks its state by: 2^64 divided by the golden ratio.
pub const GOLDEN: u64 = 0x9E37_79B9_7F4A_7C15;

/// The state SplitMix64 moves to from `state`.
pub open spec fn advanced(state: u64) -> u64 {
    state.wrapping_add(GOLDEN)
}

/// The number SplitMix64 draws in `state`.
pub open spec fn drawn(state: u64) -> u64 {
    let a = (state ^ (state >> 30)).wrapping_mul(0xBF58_476D_1CE4_E5B9);
    let b = (a ^ (a >> 27)).wrapping_mul(0x94D0_49BB_1331_11EB);
    b ^ (b >> 31)
}

/// The nanoseconds since the Unix epoch, by `std::time::SystemTime::now`; `None` on a clock set before
/// the epoch. The time is whatever the clock says, so nothing is claimed of it.
#[verifier::external_body]
fn nanos_since_epoch() -> (nanos: Option<u128>) {
    std::time::SystemTime::now()
        .duration_since(std::time::UNIX_EPOCH)
        .ok()
        .map(|d| d.as_nanos())
}

/// The seed that a reading of the clock makes: its low 64 bits, or a constant without a reading.
pub fn seed_from(nanos: Option<u128>) -> (s: u64)
    ensures
        s == (match nanos {
            Some(n) => n as u64,
            None => GOLDEN,
        }),
{
    match nanos {
        Some(n) => #[verifier::truncate] (n as u64),
        None => GOLDEN,
    }
}

/// A seed for [`shuffle`], off the clock. Its own function so the shuffle itself stays pure, and so a
/// caller with a better source of entropy can pass that instead.
pub fn seed() -> u64 {
    seed_from(nanos_since_epoch())
}

/// SplitMix64: enough of a generator to shuffle a play queue with, and short enough not to warrant a
/// dependency.
pub struct Random {
    pub state: u64,
}

pub fn random(seed: u64) -> (r: Random)
    ensures
        r.state == seed,
{
    Random { state: seed }
}

impl Random {
    /// Advances the generator and draws from its new state.
    pub fn next(&mut self) -> (n: u64)
        ensures
            final(self).state == advanced(old(self).state),
            n == drawn(advanced(old(self).state)),
    {
        self.state = self.state.wrapping_add(GOLDEN);
        let z: u64 = self.state;
        let a: u64 = (z ^ (z >> 30)).wrapping_mul(0xBF58_476D_1CE4_E5B9);
        let b: u64 = (a ^ (a >> 27)).wrapping_mul(0x94D0_49BB_1331_11EB);
        b ^ (b >> 31)
    }
}

pub open spec fn swapped<T>(s: Seq<T>, i: int, j: int) -> Seq<T> {
    s.update(i, s[j]).update(j, s[i])
}

/// The Fisher-Yates shuffle of the items of `s` from slot `from` up to and including slot `i`, walking
/// down from `i` and drawing from the generator as it stands in `state`.
pub open spec fn fisher_yates_from<T>(s: Seq<T>, from: int, i: int, state: u64) -> Seq<T>
    decreases i - from,
{
    if i <= from {
        s
    } else {
        let n = drawn(advanced(state));
        let j = from + n as int % (i - from + 1);
        fisher_yates_from(swapped(s, i, j), from, i - 1, advanced(state))
    }
}

/// Shuffles the items from slot `from` on; those before it stay.
pub fn fisher_yates<T: Copy>(items: &mut Vec<T>, from: usize, rng: &mut Random)
    requires
        from <= old(items).len(),
    ensures
        final(items)@ == fisher_yates_from(
            old(items)@,
            from as int,
            old(items).len() - 1,
            old(rng).state,
        ),
        final(items).len() == old(items).len(),
{
    let n: usize = items.len();
    if n == 0 {
        return ;
    }
    let mut i: usize = n - 1;
    while i > from
        invariant
            n == items.len() == old(items).len(),
            i < n,
            from <= n,
            fisher_yates_from(items@, from as int, i as int, rng.state) == fisher_yates_from(
                old(items)@,
                from as int,
                n - 1,
                old(rng).state,
            ),
        decreases i,
    {
        // The modulo bias is immaterial at queue lengths.
        let span: u64 = (i - from) as u64 + 1;
        let drawn_number: u64 = rng.next();
        let j: usize = from + (drawn_number % span) as usize;
        let a: T = items[i];
        let b: T = items[j];
        items.set(i, b);
        items.set(j, a);
        i = i - 1;
    }
}

/// The album keys in the order in which they first occur.
pub open spec fn distinct(albums: Seq<u64>) -> Seq<u64>
    decreases albums.len(),
{
    if albums.len() == 0 {
        Seq::empty()
    } else {
        let before = distinct(albums.drop_last());
        if before.contains(albums.last()) {
            before
        } else {
            before.push(albums.last())
        }
    }
}

/// The slots of album `key`, in queue order.
pub open spec fn slots_of(albums: Seq<u64>, key: u64) -> Seq<usize>
    decreases albums.len(),
{
    if albums.len() == 0 {
        Seq::empty()
    } else {
        let before = slots_of(albums.drop_last(), key);
        if albums.last() == key {
            before.push((albums.len() - 1) as usize)
        } else {
            before
        }
    }
}

/// The groups of slots that a shuffle moves as one.
pub open spec fn groups_of(albums: Seq<u64>, grouping: Grouping) -> Seq<Seq<usize>> {
    match grouping {
        Grouping::Tracks => Seq::new(albums.len(), |ix: int| seq![ix as usize]),
        Grouping::Albums => distinct(albums).map_values(|key: u64| slots_of(albums, key)),
    }
}

/// The first group from the `k`-th on that holds `slot`; the first of all where none does.
pub open spec fn group_with(groups: Seq<Seq<usize>>, slot: usize, k: int) -> int
    decreases groups.len() - k,
{
    if k >= groups.len() {
        0
    } else if groups[k].contains(slot) {
        k
    } else {
        group_with(groups, slot, k + 1)
    }
}

/// The order of the groups: for [`Scope::Others`] the playing group leads and what follows is
/// shuffled, for [`Scope::All`] everything is.
pub open spec fn group_order(n: nat, playing: int, scope: Scope, seed: u64) -> Seq<usize> {
    let in_order = Seq::new(n, |k: int| k as usize);
    match scope {
        Scope::All => fisher_yates_from(in_order, 0, n - 1, seed),
        Scope::Others => fisher_yates_from(swapped(in_order, 0, playing), 1, n - 1, seed),
    }
}

/// The slots of the groups, one group after the other in the given order.
pub open spec fn laid_out(groups: Seq<Seq<usize>>, order: Seq<usize>) -> Seq<usize> {
    order.map_values(|k: usize| groups[k as int]).flatten()
}

/// The order that [`shuffle`] puts the queue in.
pub open spec fn shuffled(
    albums: Seq<u64>,
    current: usize,
    grouping: Grouping,
    scope: Scope,
    seed: u64,
) -> Seq<usize> {
    if albums.len() == 0 {
        Seq::empty()
    } else {
        let groups = groups_of(albums, grouping);
        laid_out(groups, group_order(groups.len(), group_with(groups, current, 0), scope, seed))
    }
}

/// The views of the groups.
pub open spec fn viewed(groups: Seq<Vec<usize>>) -> Seq<Seq<usize>> {
    groups.map_values(|group: Vec<usize>| group@)
}

proof fn lemma_slots_of_absent(albums: Seq<u64>, key: u64)
    requires
        !albums.contains(key),
    ensures
        slots_of(albums, key) == Seq::<usize>::empty(),
    decreases albums.len(),
{
    if albums.len() > 0 {
        assert(albums[albums.len() - 1] == albums.last());
        assert forall|i: int| 0 <= i < albums.drop_last().len() implies albums.drop_last()[i] != key by {
            assert(albums.drop_last()[i] == albums[i]);
        }
        lemma_slots_of_absent(albums.drop_last(), key);
    }
}

proof fn lemma_distinct(albums: Seq<u64>)
    ensures
        distinct(albums).no_duplicates(),
        forall|key: u64| distinct(albums).contains(key) <==> albums.contains(key),
        distinct(albums).len() <= albums.len(),
        albums.len() > 0 ==> distinct(albums).len() > 0,
    decreases albums.len(),
{
    if albums.len() > 0 {
        let init = albums.drop_last();
        lemma_distinct(init);
        assert(albums =~= init.push(albums.last()));
        assert forall|key: u64| distinct(albums).contains(key) <==> albums.contains(key) by {
            vstd::seq_lib::lemma_seq_contains_after_push(init, albums.last(), key);
            vstd::seq_lib::lemma_seq_contains_after_push(distinct(init), albums.last(), key);
        }
    }
}

fn album_groups(albums: &[u64]) -> (groups: Vec<Vec<usize>>)
    ensures
        viewed(groups@) == groups_of(albums@, Grouping::Albums),
{
    let mut keys: Vec<u64> = Vec::new();
    let mut groups: Vec<Vec<usize>> = Vec::new();
    let mut ix: usize = 0;
    while ix < albums.len()
        invariant
            ix <= albums.len(),
            keys@ == distinct(albums@.take(ix as int)),
            groups.len() == keys.len(),
            forall|k: int|
                0 <= k < groups.len() ==> (#[trigger] groups[k])@ == slots_of(
                    albums@.take(ix as int),
                    keys[k],
                ),
        decreases albums.len() - ix,
    {
        let album: u64 = albums[ix];
        let ghost before = albums@.take(ix as int);
        let ghost upto = albums@.take(ix + 1);
        proof {
            lemma_distinct(before);
            assert(upto.drop_last() =~= before);
        }
        let mut k: usize = 0;
        while k < keys.len() && keys[k] != album
            invariant
                k <= keys.len(),
                forall|l: int| 0 <= l < k ==> keys[l] != album,
            decreases keys.len() - k,
        {
            k = k + 1;
        }
        if k < keys.len() {
            assert(keys@.contains(album));
            groups[k].push(ix);
        } else {
            assert(!keys@.contains(album));
            proof {
                lemma_slots_of_absent(before, album);
            }
            keys.push(album);
            groups.push(vec![ix]);
            assert(groups[k as int]@ =~= slots_of(upto, album));
        }
        ix = ix + 1;
    }
    assert(albums@.take(ix as int) =~= albums@);
    assert(viewed(groups@) =~= groups_of(albums@, Grouping::Albums));
    groups
}

/// The order a shuffle puts the queue in, as a permutation of its slots: `albums` is the album key of
/// each slot, `current` the slot playing. Empty in, empty out.
///
/// A permutation rather than the reordered queue, because a queue may hold the same track twice --
/// an album queued twice over -- and following the playing slot by identity would then be ambiguous.
/// The caller permutes its own items and finds `current`'s new position by looking for its index.
pub fn shuffle(
    albums: &[u64],
    current: usize,
    grouping: Grouping,
    scope: Scope,
    seed: u64,
) -> (order: Vec<usize>)
    ensures
        order@ == shuffled(albums@, current, grouping, scope, seed),
{
    if albums.len() == 0 {
        return vec![];
    }
    proof {
        lemma_distinct(albums@);
    }
    let groups: Vec<Vec<usize>> = match grouping {
        Grouping::Tracks => {
            let mut groups: Vec<Vec<usize>> = Vec::new();
            let mut ix: usize = 0;
            while ix < albums.len()
                invariant
                    ix <= albums.len(),
                    groups.len() == ix,
                    forall|k: int| 0 <= k < ix ==> (#[trigger] groups[k])@ == seq![k as usize],
                decreases albums.len() - ix,
            {
                groups.push(vec![ix]);
                assert(groups[ix as int]@ =~= seq![ix]);
                ix = ix + 1;
            }
            assert(viewed(groups@) =~= groups_of(albums@, grouping));
            groups
        },
        Grouping::Albums => album_groups(albums),
    };
    let ghost specified = groups_of(albums@, grouping);
    let mut order: Vec<usize> = Vec::new();
    let mut k: usize = 0;
    while k < groups.len()
        invariant
            k <= groups.len(),
            order@ == Seq::new(k as nat, |l: int| l as usize),
        decreases groups.len() - k,
    {
        order.push(k);
        k = k + 1;
        assert(order@ =~= Seq::new(k as nat, |l: int| l as usize));
    }
    let mut rng: Random = random(seed);
    match scope {
        Scope::All => fisher_yates(&mut order, 0, &mut rng),
        Scope::Others => {
            // The playing group goes to the front; only what follows is shuffled.
            let playing: usize = find_group(&groups, current);
            let first: usize = order[0];
            let second: usize = order[playing];
            order.set(0, second);
            order.set(playing, first);
            fisher_yates(&mut order, 1, &mut rng);
        },
    }
    assert(order@ == group_order(groups.len() as nat, group_with(specified, current, 0), scope, seed));
    proof {
        lemma_group_order(specified, current, scope, seed);
    }
    let mut slots: Vec<usize> = Vec::new();
    let mut g: usize = 0;
    let ghost laid = order@.map_values(|k: usize| specified[k as int]);
    while g < order.len()
        invariant
            g <= order.len(),
            forall|l: int| 0 <= l < order.len() ==> (#[trigger] order[l]) < groups.len(),
            viewed(groups@) == specified,
            laid == order@.map_values(|k: usize| specified[k as int]),
            slots@ == laid.take(g as int).flatten(),
        decreases order.len() - g,
    {
        let ghost sofar = laid.take(g as int);
        proof {
            assert(order[g as int] < groups.len());
            assert(laid.take(g + 1) =~= sofar.push(laid[g as int]));
            sofar.lemma_flatten_push(laid[g as int]);
            assert(laid[g as int] == viewed(groups@)[order[g as int] as int]);
            assert(laid[g as int] == groups[order[g as int] as int]@);
        }
        let group: &Vec<usize> = &groups[order[g]];
        slots.extend_from_slice(group.as_slice());
        assert(slots@ =~= sofar.flatten() + group@);
        g = g + 1;
    }
    assert(laid.take(g as int) =~= laid);
    slots
}

fn holds(group: &Vec<usize>, slot: usize) -> (found: bool)
    ensures
        found == group@.contains(slot),
{
    let mut i: usize = 0;
    while i < group.len()
        invariant
            i <= group.len(),
            forall|l: int| 0 <= l < i ==> group[l] != slot,
        decreases group.len() - i,
    {
        if group[i] == slot {
            return true;
        }
        i = i + 1;
    }
    false
}

fn find_group(groups: &Vec<Vec<usize>>, slot: usize) -> (found: usize)
    ensures
        found == group_with(viewed(groups@), slot, 0),
        groups.len() > 0 ==> found < groups.len(),
{
    let mut k: usize = 0;
    while k < groups.len()
        invariant
            k <= groups.len(),
            group_with(viewed(groups@), slot, 0) == group_with(viewed(groups@), slot, k as int),
        decreases groups.len() - k,
    {
        let group: &Vec<usize> = &groups[k];
        assert(viewed(groups@)[k as int] == group@);
        if holds(group, slot) {
            return k;
        }
        k = k + 1;
    }
    0
}

proof fn lemma_swapped<T>(s: Seq<T>, i: int, j: int)
    requires
        0 <= i < s.len(),
        0 <= j < s.len(),
    ensures
        swapped(s, i, j).len() == s.len(),
        s.no_duplicates() ==> swapped(s, i, j).no_duplicates(),
        forall|x: T| swapped(s, i, j).contains(x) <==> s.contains(x),
{
    let t = swapped(s, i, j);
    assert forall|x: T| t.contains(x) <==> s.contains(x) by {
        if t.contains(x) {
            let k = choose|k: int| 0 <= k < t.len() && t[k] == x;
            let l = if k == j {
                i
            } else if k == i {
                j
            } else {
                k
            };
            assert(s[l] == x);
        }
        if s.contains(x) {
            let k = choose|k: int| 0 <= k < s.len() && s[k] == x;
            let l = if k == j {
                i
            } else if k == i {
                j
            } else {
                k
            };
            assert(t[l] == x);
        }
    }
}

proof fn lemma_fisher_yates<T>(s: Seq<T>, from: int, i: int, state: u64)
    requires
        0 <= from,
        i < s.len(),
    ensures
        ({
            let t = fisher_yates_from(s, from, i, state);
            &&& t.len() == s.len()
            &&& s.no_duplicates() ==> t.no_duplicates()
            &&& forall|x: T| t.contains(x) <==> s.contains(x)
            &&& forall|k: int| 0 <= k < from && k < s.len() ==> #[trigger] t[k] == s[k]
        }),
    decreases i - from,
{
    if i > from {
        let j = from + drawn(advanced(state)) as int % (i - from + 1);
        lemma_swapped(s, i, j);
        lemma_fisher_yates(swapped(s, i, j), from, i - 1, advanced(state));
    }
}

/// The order of the groups names each group once.
proof fn lemma_group_order(groups: Seq<Seq<usize>>, current: usize, scope: Scope, seed: u64)
    requires
        0 < groups.len() <= usize::MAX,
    ensures
        ({
            let order = group_order(groups.len(), group_with(groups, current, 0), scope, seed);
            &&& order.len() == groups.len()
            &&& order.no_duplicates()
            &&& forall|k: int| 0 <= k < order.len() ==> (#[trigger] order[k]) < groups.len()
            &&& forall|k: usize| k < groups.len() ==> #[trigger] order.contains(k)
            &&& scope == Scope::Others ==> order[0] == group_with(groups, current, 0)
        }),
{
    let n = groups.len();
    let playing = group_with(groups, current, 0);
    let in_order = Seq::new(n, |k: int| k as usize);
    let order = group_order(n, playing, scope, seed);
    lemma_group_with(groups, current, 0);
    assert(forall|k: usize| k < n ==> in_order[k as int] == k);
    assert forall|k: usize| in_order.contains(k) <==> k < n by {
        if k < n {
            assert(in_order[k as int] == k);
        }
    }
    match scope {
        Scope::All => {
            lemma_fisher_yates(in_order, 0, n - 1, seed);
        },
        Scope::Others => {
            lemma_swapped(in_order, 0, playing);
            lemma_fisher_yates(swapped(in_order, 0, playing), 1, n - 1, seed);
        },
    }
    assert forall|k: usize| k < n implies #[trigger] order.contains(k) by {
        assert(in_order.contains(k));
    }
    assert(in_order.no_duplicates());
    assert(scope == Scope::Others ==> order[0] == swapped(in_order, 0, playing)[0]);
    assert forall|k: int| 0 <= k < order.len() implies (#[trigger] order[k]) < n by {
        assert(order.contains(order[k]));
        assert(in_order.contains(order[k]));
    }
}

proof fn lemma_group_with(groups: Seq<Seq<usize>>, slot: usize, k: int)
    requires
        0 <= k <= groups.len(),
    ensures
        ({
            let p = group_with(groups, slot, k);
            &&& 0 <= p
            &&& groups.len() > 0 ==> p < groups.len()
            &&& groups.len() == 0 ==> p == 0
            &&& forall|l: int|
                k <= l < groups.len() && (#[trigger] groups[l]).contains(slot) ==> k <= p
                    && groups[p].contains(slot)
        }),
    decreases groups.len() - k,
{
    if k < groups.len() && !groups[k].contains(slot) {
        lemma_group_with(groups, slot, k + 1);
    }
}

proof fn lemma_slots_of(albums: Seq<u64>, key: u64)
    requires
        albums.len() <= usize::MAX,
    ensures
        forall|slot: usize|
            #[trigger] slots_of(albums, key).contains(slot) <==> slot < albums.len()
                && albums[slot as int] == key,
        forall|i: int, j: int|
            0 <= i < j < slots_of(albums, key).len() ==> #[trigger] slots_of(albums, key)[i]
                < #[trigger] slots_of(albums, key)[j],
    decreases albums.len(),
{
    let slots = slots_of(albums, key);
    if albums.len() > 0 {
        let init = albums.drop_last();
        let last = (albums.len() - 1) as usize;
        let before = slots_of(init, key);
        lemma_slots_of(init, key);
        assert forall|slot: usize| slots.contains(slot) <==> slot < albums.len() && albums[slot as int]
            == key by {
            vstd::seq_lib::lemma_seq_contains_after_push(before, last, slot);
            assert(before.contains(slot) <==> slot < init.len() && init[slot as int] == key);
        }
        assert forall|i: int, j: int| 0 <= i < j < slots.len() implies #[trigger] slots[i]
            < #[trigger] slots[j] by {
            if j < before.len() {
                assert(slots[i] == before[i] && slots[j] == before[j]);
            } else {
                assert(slots[i] == before[i]);
                assert(before.contains(before[i]));
            }
        }
    }
}

proof fn lemma_flatten_contains(parts: Seq<Seq<usize>>)
    ensures
        forall|x: usize|
            #[trigger] parts.flatten().contains(x) <==> exists|k: int|
                0 <= k < parts.len() && (#[trigger] parts[k]).contains(x),
    decreases parts.len(),
{
    let whole = parts.flatten();
    if parts.len() > 0 {
        let rest = parts.drop_first();
        lemma_flatten_contains(rest);
        assert forall|x: usize| whole.contains(x) <==> exists|k: int|
            0 <= k < parts.len() && (#[trigger] parts[k]).contains(x) by {
            vstd::seq_lib::lemma_seq_concat_contains_all_elements(parts.first(), rest.flatten(), x);
            if rest.flatten().contains(x) {
                let k = choose|k: int| 0 <= k < rest.len() && (#[trigger] rest[k]).contains(x);
                assert(parts[k + 1].contains(x));
            }
            if exists|k: int| 0 <= k < parts.len() && (#[trigger] parts[k]).contains(x) {
                let k = choose|k: int| 0 <= k < parts.len() && (#[trigger] parts[k]).contains(x);
                if k > 0 {
                    assert(rest[k - 1].contains(x));
                } else {
                    assert(parts.first().contains(x));
                }
            }
        }
    } else {
        assert(whole =~= Seq::empty());
    }
}

proof fn lemma_flatten_no_duplicates(parts: Seq<Seq<usize>>)
    requires
        forall|k: int| 0 <= k < parts.len() ==> (#[trigger] parts[k]).no_duplicates(),
        forall|k: int, l: int, x: usize|
            0 <= k < l < parts.len() && #[trigger] parts[k].contains(x) ==> !#[trigger] parts[l].contains(x),
    ensures
        parts.flatten().no_duplicates(),
    decreases parts.len(),
{
    if parts.len() > 0 {
        let rest = parts.drop_first();
        assert forall|k: int| 0 <= k < rest.len() implies (#[trigger] rest[k]).no_duplicates() by {
            assert(rest[k] == parts[k + 1]);
        }
        assert forall|k: int, l: int, x: usize|
            0 <= k < l < rest.len() && #[trigger] rest[k].contains(x) implies !#[trigger] rest[l].contains(x) by {
            assert(parts[k + 1].contains(x));
            assert(rest[l] == parts[l + 1]);
        }
        lemma_flatten_no_duplicates(rest);
        lemma_flatten_contains(rest);
        let first = parts.first();
        let tail = rest.flatten();
        let whole = parts.flatten();
        assert(whole =~= first + tail);
        assert forall|i: int, j: int| 0 <= i < whole.len() && 0 <= j < whole.len() && i != j implies whole[i]
            != whole[j] by {
            if i < first.len() && j >= first.len() {
                lemma_apart(parts, i, j - first.len());
            } else if j < first.len() && i >= first.len() {
                lemma_apart(parts, j, i - first.len());
            }
        }
    }
}

proof fn lemma_apart(parts: Seq<Seq<usize>>, i: int, j: int)
    requires
        parts.len() > 0,
        0 <= i < parts[0].len(),
        0 <= j < parts.drop_first().flatten().len(),
        forall|k: int, l: int, x: usize|
            0 <= k < l < parts.len() && #[trigger] parts[k].contains(x) ==> !#[trigger] parts[l].contains(x),
    ensures
        parts[0][i] != parts.drop_first().flatten()[j],
{
    let rest = parts.drop_first();
    let x = rest.flatten()[j];
    lemma_flatten_contains(rest);
    assert(rest.flatten().contains(x));
    let k = choose|k: int| 0 <= k < rest.len() && (#[trigger] rest[k]).contains(x);
    assert(parts[k + 1].contains(x));
    if parts[0][i] == x {
        assert(parts[0].contains(x));
    }
}

/// `order` holds each of the slots `0..n` exactly once.
pub open spec fn is_permutation(order: Seq<usize>, n: nat) -> bool {
    &&& order.len() == n
    &&& order.no_duplicates()
    &&& forall|slot: usize| slot < n <==> #[trigger] order.contains(slot)
}

spec fn holds_slot(groups: Seq<Seq<usize>>, slot: usize) -> bool {
    exists|k: int| 0 <= k < groups.len() && (#[trigger] groups[k]).contains(slot)
}

/// The groups hold every slot, and no slot twice.
proof fn lemma_groups_partition(albums: Seq<u64>, grouping: Grouping)
    requires
        albums.len() <= usize::MAX,
    ensures
        ({
            let groups = groups_of(albums, grouping);
            &&& groups.len() <= albums.len()
            &&& albums.len() > 0 ==> groups.len() > 0
            &&& forall|k: int| 0 <= k < groups.len() ==> (#[trigger] groups[k]).no_duplicates()
            &&& forall|k: int, l: int, x: usize|
                0 <= k < groups.len() && 0 <= l < groups.len() && k != l && #[trigger] groups[k].contains(x) ==> !#[trigger] groups[l].contains(x)
            &&& forall|k: int, x: usize|
                0 <= k < groups.len() && #[trigger] groups[k].contains(x) ==> x < albums.len()
            &&& forall|x: usize| x < albums.len() ==> #[trigger] holds_slot(groups, x)
        }),
{
    let groups = groups_of(albums, grouping);
    match grouping {
        Grouping::Tracks => {
            assert forall|x: usize| x < albums.len() implies #[trigger] holds_slot(groups, x) by {
                assert(groups[x as int][0] == x);
            }
        },
        Grouping::Albums => {
            let keys = distinct(albums);
            lemma_distinct(albums);
            assert forall|k: int| 0 <= k < groups.len() implies (#[trigger] groups[k]).no_duplicates() by {
                lemma_slots_of(albums, keys[k]);
                let slots = slots_of(albums, keys[k]);
                assert forall|i: int, j: int|
                    0 <= i < slots.len() && 0 <= j < slots.len() && i != j implies slots[i]
                    != slots[j] by {
                    if i < j {
                        assert(slots[i] < slots[j]);
                    } else {
                        assert(slots[j] < slots[i]);
                    }
                }
            }
            assert forall|k: int, l: int, x: usize|
                0 <= k < groups.len() && 0 <= l < groups.len() && k != l && #[trigger] groups[k].contains(x) implies !#[trigger] groups[l].contains(x) by {
                lemma_slots_of(albums, keys[k]);
                lemma_slots_of(albums, keys[l]);
                assert(slots_of(albums, keys[k]).contains(x));
                if slots_of(albums, keys[l]).contains(x) {
                    assert(keys[k] == keys[l]);
                }
            }
            assert forall|k: int, x: usize|
                0 <= k < groups.len() && #[trigger] groups[k].contains(x) implies x < albums.len() by {
                lemma_slots_of(albums, keys[k]);
                assert(slots_of(albums, keys[k]).contains(x));
            }
            assert forall|x: usize| x < albums.len() implies #[trigger] holds_slot(groups, x) by {
                let key = albums[x as int];
                assert(albums.contains(key));
                assert(keys.contains(key));
                let k = choose|k: int| 0 <= k < keys.len() && keys[k] == key;
                lemma_slots_of(albums, key);
                assert(slots_of(albums, key).contains(x));
                assert(groups[k].contains(x));
            }
        },
    }
}

/// Whatever the shuffle, every slot is present exactly once: a queue neither loses nor duplicates a
/// track.
pub proof fn law_shuffle_is_a_permutation(
    albums: Seq<u64>,
    current: usize,
    grouping: Grouping,
    scope: Scope,
    seed: u64,
)
    requires
        albums.len() <= usize::MAX,
    ensures
        is_permutation(shuffled(albums, current, grouping, scope, seed), albums.len()),
{
    let result = shuffled(albums, current, grouping, scope, seed);
    if albums.len() > 0 {
        let groups = groups_of(albums, grouping);
        let order = group_order(groups.len(), group_with(groups, current, 0), scope, seed);
        let parts = order.map_values(|k: usize| groups[k as int]);
        lemma_groups_partition(albums, grouping);
        lemma_group_order(groups, current, scope, seed);
        assert forall|k: int| 0 <= k < parts.len() implies (#[trigger] parts[k]).no_duplicates() by {
            assert(parts[k] == groups[order[k] as int]);
        }
        assert forall|k: int, l: int, x: usize|
            0 <= k < l < parts.len() && #[trigger] parts[k].contains(x) implies !#[trigger] parts[l].contains(x) by {
            assert(parts[k] == groups[order[k] as int]);
            assert(parts[l] == groups[order[l] as int]);
            assert(order[k] != order[l]);
        }
        lemma_flatten_no_duplicates(parts);
        lemma_flatten_contains(parts);
        assert forall|slot: usize| slot < albums.len() <==> #[trigger] result.contains(slot) by {
            if slot < albums.len() {
                assert(holds_slot(groups, slot));
                let k = choose|k: int| 0 <= k < groups.len() && (#[trigger] groups[k]).contains(slot);
                assert(order.contains(k as usize));
                let l = choose|l: int| 0 <= l < order.len() && order[l] == k as usize;
                assert(parts[l].contains(slot));
            }
            if result.contains(slot) {
                let l = choose|l: int| 0 <= l < parts.len() && (#[trigger] parts[l]).contains(slot);
                assert(parts[l] == groups[order[l] as int]);
                assert(groups[order[l] as int].contains(slot));
            }
        }
        let in_order = Seq::new(albums.len(), |k: int| k as usize);
        result.unique_seq_to_set();
        in_order.unique_seq_to_set();
        assert forall|x: usize| result.to_set().contains(x) <==> in_order.to_set().contains(x) by {
            assert(result.to_set().contains(x) <==> result.contains(x));
            if x < albums.len() {
                assert(in_order[x as int] == x);
            }
        }
        assert(result.to_set() =~= in_order.to_set());
    } else {
        assert(!result.contains(0));
    }
}

/// Slots of one album stand next to each other, in their queue order.
pub open spec fn keeps_albums_together(order: Seq<usize>, albums: Seq<u64>) -> bool {
    forall|i: int, m: int, j: int|
        0 <= i <= m <= j < order.len() && albums[#[trigger] order[i] as int]
            == albums[#[trigger] order[j] as int] ==> albums[#[trigger] order[m] as int]
            == albums[order[i] as int] && (i < j ==> order[i] < order[j])
}

proof fn lemma_flatten_together(parts: Seq<Seq<usize>>, keys: Seq<u64>, albums: Seq<u64>)
    requires
        albums.len() <= usize::MAX,
        keys.len() == parts.len(),
        keys.no_duplicates(),
        forall|k: int| 0 <= k < parts.len() ==> #[trigger] parts[k] == slots_of(albums, keys[k]),
    ensures
        keeps_albums_together(parts.flatten(), albums),
    decreases parts.len(),
{
    if parts.len() > 0 {
        let first = parts.first();
        let rest = parts.drop_first();
        let tail = rest.flatten();
        let whole = parts.flatten();
        let key = keys[0];
        assert(keys.drop_first().no_duplicates());
        assert forall|k: int| 0 <= k < rest.len() implies #[trigger] rest[k] == slots_of(
            albums,
            keys.drop_first()[k],
        ) by {
            assert(rest[k] == parts[k + 1]);
        }
        lemma_flatten_together(rest, keys.drop_first(), albums);
        lemma_slots_of(albums, key);
        assert(first == slots_of(albums, key));
        assert(whole =~= first + tail);
        assert forall|i: int| 0 <= i < tail.len() implies albums[#[trigger] tail[i] as int] != key by {
            lemma_flatten_contains(rest);
            assert(tail.contains(tail[i]));
            let k = choose|k: int| 0 <= k < rest.len() && (#[trigger] rest[k]).contains(tail[i]);
            lemma_slots_of(albums, keys[k + 1]);
            assert(slots_of(albums, keys[k + 1]).contains(tail[i]));
            assert(keys[k + 1] != keys[0]);
        }
        assert forall|i: int| 0 <= i < first.len() implies albums[#[trigger] first[i] as int] == key by {
            assert(slots_of(albums, key).contains(first[i]));
        }
        assert forall|i: int, m: int, j: int|
            0 <= i <= m <= j < whole.len() && albums[#[trigger] whole[i] as int]
                == albums[#[trigger] whole[j] as int] implies albums[#[trigger] whole[m] as int]
            == albums[whole[i] as int] && (i < j ==> whole[i] < whole[j]) by {
            let n = first.len();
            if i < n {
                assert(whole[i] == first[i]);
                if j >= n {
                    assert(whole[j] == tail[j - n]);
                } else {
                    assert(whole[j] == first[j]);
                    assert(whole[m] == first[m]);
                }
            } else {
                assert(whole[i] == tail[i - n]);
                assert(whole[m] == tail[m - n]);
                assert(whole[j] == tail[j - n]);
            }
        }
    }
}

/// Grouping by album keeps each album's tracks together and in their queue order; only the albums
/// move.
pub proof fn law_shuffling_albums_keeps_them_together(
    albums: Seq<u64>,
    current: usize,
    scope: Scope,
    seed: u64,
)
    requires
        albums.len() <= usize::MAX,
    ensures
        keeps_albums_together(shuffled(albums, current, Grouping::Albums, scope, seed), albums),
{
    if albums.len() > 0 {
        let groups = groups_of(albums, Grouping::Albums);
        let order = group_order(groups.len(), group_with(groups, current, 0), scope, seed);
        let parts = order.map_values(|k: usize| groups[k as int]);
        let keys = order.map_values(|k: usize| distinct(albums)[k as int]);
        lemma_distinct(albums);
        lemma_group_order(groups, current, scope, seed);
        assert forall|k: int, l: int| 0 <= k < keys.len() && 0 <= l < keys.len() && k != l implies keys[k]
            != keys[l] by {
            assert(order[k] != order[l]);
            assert(order[k] < groups.len() && order[l] < groups.len());
        }
        assert forall|k: int| 0 <= k < parts.len() implies #[trigger] parts[k] == slots_of(
            albums,
            keys[k],
        ) by {
            assert(order[k] < groups.len());
        }
        lemma_flatten_together(parts, keys, albums);
    }
}

/// Shuffling the others puts the playing slot in front; grouped by album, its whole album leads, in
/// queue order.
pub proof fn law_shuffling_the_others_leaves_the_playing_in_front(
    albums: Seq<u64>,
    current: usize,
    grouping: Grouping,
    seed: u64,
)
    requires
        current < albums.len() <= usize::MAX,
    ensures
        ({
            let order = shuffled(albums, current, grouping, Scope::Others, seed);
            match grouping {
                Grouping::Tracks => order[0] == current,
                Grouping::Albums => slots_of(albums, albums[current as int]).is_prefix_of(order),
            }
        }),
{
    let groups = groups_of(albums, grouping);
    let playing = group_with(groups, current, 0);
    let order = group_order(groups.len(), playing, Scope::Others, seed);
    let parts = order.map_values(|k: usize| groups[k as int]);
    let result = shuffled(albums, current, grouping, Scope::Others, seed);
    lemma_groups_partition(albums, grouping);
    lemma_group_order(groups, current, Scope::Others, seed);
    lemma_group_with(groups, current, 0);
    assert(holds_slot(groups, current));
    assert(groups[playing].contains(current));
    assert(parts[0] == groups[playing]);
    assert(result =~= parts.first() + parts.drop_first().flatten());
    match grouping {
        Grouping::Tracks => {
            assert(groups[playing].len() == 1);
            assert(groups[playing][0] == current);
            assert(result[0] == parts.first()[0]);
        },
        Grouping::Albums => {
            lemma_slots_of(albums, distinct(albums)[playing]);
            assert(slots_of(albums, distinct(albums)[playing]).contains(current));
        },
    }
}

proof fn lemma_fisher_yates_above<T>(s: Seq<T>, from: int, i: int, state: u64, k: int)
    requires
        0 <= from,
        i < s.len(),
        0 <= k < s.len(),
        k < from || k > i,
    ensures
        fisher_yates_from(s, from, i, state).len() == s.len(),
        fisher_yates_from(s, from, i, state)[k] == s[k],
    decreases i - from,
{
    if i > from {
        let n = drawn(advanced(state));
        let j = from + n as int % (i - from + 1);
        assert(from <= j <= i) by {
            assert(0 <= n as int % (i - from + 1) < i - from + 1) by (nonlinear_arith)
                requires
                    i - from + 1 > 0,
            ;
        }
        lemma_fisher_yates_above(swapped(s, i, j), from, i - 1, advanced(state), k);
    }
}

/// A shuffle draws what comes last from all that it may reorder, each slot as likely as its number is drawn; what
/// stands before the slots that it may reorder stays. What is left is shuffled in the same way, with what came
/// last in place of what was drawn.
pub proof fn law_each_slot_is_drawn_from_all_that_are_left<T>(s: Seq<T>, from: int, i: int, state: u64, k: int)
    requires
        0 <= from < i < s.len(),
        0 <= k < s.len(),
    ensures
        ({
            let result = fisher_yates_from(s, from, i, state);
            let drawn_slot = from + drawn((state.wrapping_add(0x9E37_79B9_7F4A_7C15)) as u64) as int % (i - from + 1);
            let left = s.update(drawn_slot, s[i]).update(i, s[drawn_slot]);
            &&& result.len() == s.len()
            &&& result[i] == s[drawn_slot]
            &&& k < from || k > i ==> result[k] == s[k]
            &&& result == fisher_yates_from(left, from, i - 1, state.wrapping_add(0x9E37_79B9_7F4A_7C15))
        }),
{
    let n = drawn(advanced(state));
    let j = from + n as int % (i - from + 1);
    assert(0 <= n as int % (i - from + 1) < i - from + 1) by (nonlinear_arith)
        requires
            i - from + 1 > 0,
    ;
    let left = s.update(j, s[i]).update(i, s[j]);
    assert(swapped(s, i, j) =~= left);
    lemma_fisher_yates_above(left, from, i - 1, advanced(state), i);
    if k < from || k > i {
        lemma_fisher_yates_above(left, from, i - 1, advanced(state), k);
    }
}

proof fn lemma_single_slots(order: Seq<usize>, n: nat)
    requires
        forall|k: int| 0 <= k < order.len() ==> #[trigger] order[k] < n,
    ensures
        laid_out(Seq::new(n, |ix: int| seq![ix as usize]), order) == order,
    decreases order.len(),
{
    let groups = Seq::new(n, |ix: int| seq![ix as usize]);
    let parts = order.map_values(|k: usize| groups[k as int]);
    if order.len() > 0 {
        let rest = order.drop_first();
        assert forall|k: int| 0 <= k < rest.len() implies #[trigger] rest[k] < n by {
            assert(rest[k] == order[k + 1]);
        }
        lemma_single_slots(rest, n);
        assert(parts.drop_first() =~= rest.map_values(|k: usize| groups[k as int]));
        assert(parts.flatten() =~= parts.first() + parts.drop_first().flatten());
        assert(order[0] < n);
        assert(parts.first() =~= seq![order[0]]);
        assert(seq![order[0]] + rest =~= order);
    } else {
        assert(parts.flatten() =~= order);
    }
}

/// Shuffling all tracks puts in the last place the track that the seed draws from all of them.
pub proof fn law_shuffling_all_draws_from_all(albums: Seq<u64>, current: usize, seed: u64)
    requires
        1 < albums.len() <= usize::MAX,
    ensures
        ({
            let order = shuffled(albums, current, Grouping::Tracks, Scope::All, seed);
            order.len() == albums.len() && order.last() == drawn(
                seed.wrapping_add(0x9E37_79B9_7F4A_7C15),
            ) as int % albums.len() as int
        }),
{
    let n = albums.len();
    let in_order = Seq::new(n, |k: int| k as usize);
    let groups = groups_of(albums, Grouping::Tracks);
    let order = group_order(n, group_with(groups, current, 0), Scope::All, seed);
    assert(groups =~= Seq::new(n, |ix: int| seq![ix as usize]));
    lemma_groups_partition(albums, Grouping::Tracks);
    lemma_group_order(groups, current, Scope::All, seed);
    assert forall|k: int| 0 <= k < order.len() implies #[trigger] order[k] < n by {}
    lemma_single_slots(order, n);
    law_each_slot_is_drawn_from_all_that_are_left(in_order, 0, n - 1, seed, 0);
    let j = drawn(seed.wrapping_add(0x9E37_79B9_7F4A_7C15)) as int % n as int;
    assert(0 <= j < n);
    assert(in_order[j] == j);
}

} // verus!
