//! Putting things in order, by whatever order there is on them.

use crate::sort::{compare_texts, is_alphabetically_before, text_ordering};
use std::cmp::Ordering;
use vstd::prelude::*;

verus! {

/// A number of things, and a strict total order on them by their positions.
pub trait Ordered {
    /// How many there are.
    spec fn count(&self) -> nat;

    /// The `i`-th goes before the `j`-th.
    spec fn before(&self, i: int, j: int) -> bool;

    /// Of two different things, one goes before the other.
    proof fn total(&self, i: int, j: int)
        ensures
            i != j ==> self.before(i, j) || self.before(j, i),
    ;

    /// No two things go before each other.
    proof fn asymmetric(&self, i: int, j: int)
        ensures
            !(self.before(i, j) && self.before(j, i)),
    ;

    /// What goes before a thing goes before all that follow on it.
    proof fn transitive(&self, i: int, j: int, k: int)
        ensures
            self.before(i, j) && self.before(j, k) ==> self.before(i, k),
    ;

    fn is_before(&self, i: usize, j: usize) -> (r: bool)
        requires
            i < self.count(),
            j < self.count(),
        ensures
            r == self.before(i as int, j as int),
    ;
}

/// `order` names the first `n` things, each once, in their order.
pub open spec fn in_order<S: Ordered>(order: Seq<usize>, things: &S, n: int) -> bool {
    &&& order.len() == n
    &&& forall|k: int| 0 <= k < order.len() ==> (#[trigger] order[k]) < n
    &&& forall|i: usize| i < n ==> #[trigger] order.contains(i)
    &&& forall|k: int, l: int|
        0 <= k < l < order.len() ==> things.before(#[trigger] order[k] as int, #[trigger] order[l] as int)
}

/// Where the `i`-th thing goes among those already placed.
fn place<S: Ordered>(order: &Vec<usize>, things: &S, i: usize) -> (at: usize)
    requires
        i < things.count(),
        in_order(order@, things, i as int),
    ensures
        at <= order.len(),
        forall|k: int| 0 <= k < at ==> things.before(#[trigger] order@[k] as int, i as int),
        forall|k: int| at <= k < order.len() ==> things.before(i as int, #[trigger] order@[k] as int),
{
    let mut lo: usize = 0;
    let mut hi: usize = order.len();
    while lo < hi
        invariant
            lo <= hi <= order.len(),
            i < things.count(),
            in_order(order@, things, i as int),
            forall|k: int| 0 <= k < lo ==> things.before(#[trigger] order@[k] as int, i as int),
            forall|k: int| hi <= k < order.len() ==> things.before(i as int, #[trigger] order@[k] as int),
        decreases hi - lo,
    {
        let mid: usize = lo + (hi - lo) / 2;
        let j: usize = order[mid];
        assert(order@[mid as int] < i);
        if things.is_before(j, i) {
            assert forall|k: int| 0 <= k < mid + 1 implies things.before(#[trigger] order@[k] as int, i as int) by {
                if k < mid {
                    assert(things.before(order@[k] as int, order@[mid as int] as int));
                    things.transitive(order@[k] as int, j as int, i as int);
                }
            }
            lo = mid + 1;
        } else {
            proof {
                things.total(i as int, j as int);
            }
            assert forall|k: int| mid <= k < order.len() implies things.before(
                i as int,
                #[trigger] order@[k] as int,
            ) by {
                if k > mid {
                    assert(things.before(order@[mid as int] as int, order@[k] as int));
                    things.transitive(i as int, j as int, order@[k] as int);
                }
            }
            hi = mid;
        }
    }
    lo
}

proof fn lemma_placed<S: Ordered>(order: Seq<usize>, things: &S, i: usize, at: int)
    requires
        i < usize::MAX,
        in_order(order, things, i as int),
        0 <= at <= order.len(),
        forall|k: int| 0 <= k < at ==> things.before(#[trigger] order[k] as int, i as int),
        forall|k: int| at <= k < order.len() ==> things.before(i as int, #[trigger] order[k] as int),
    ensures
        in_order(order.insert(at, i), things, i + 1),
{
    let after = order.insert(at, i);
    assert forall|k: int| 0 <= k < after.len() implies (#[trigger] after[k]) < i + 1 by {
        if k < at {
            assert(after[k] == order[k]);
        } else if k > at {
            assert(after[k] == order[k - 1]);
        }
    }
    assert forall|j: usize| j < i + 1 implies #[trigger] after.contains(j) by {
        if j == i {
            assert(after[at] == i);
        } else {
            assert(order.contains(j));
            let l = choose|l: int| 0 <= l < order.len() && order[l] == j;
            if l < at {
                assert(after[l] == j);
            } else {
                assert(after[l + 1] == j);
            }
        }
    }
    assert forall|k: int, l: int| 0 <= k < l < after.len() implies things.before(
        #[trigger] after[k] as int,
        #[trigger] after[l] as int,
    ) by {
        let a = if k < at {
            k
        } else {
            k - 1
        };
        let b = if l < at {
            l
        } else {
            l - 1
        };
        if k == at {
            assert(after[l] == order[b]);
        } else if l == at {
            assert(after[k] == order[a]);
        } else {
            assert(after[k] == order[a]);
            assert(after[l] == order[b]);
        }
    }
}

/// The things in their order, by their positions.
pub fn sorted<S: Ordered>(things: &S, n: usize) -> (order: Vec<usize>)
    requires
        n == things.count(),
    ensures
        in_order(order@, things, n as int),
{
    let mut order: Vec<usize> = Vec::new();
    let mut i: usize = 0;
    while i < n
        invariant
            i <= n == things.count(),
            in_order(order@, things, i as int),
        decreases n - i,
    {
        let at: usize = place(&order, things, i);
        proof {
            lemma_placed(order@, things, i, at as int);
        }
        order.insert(at, i);
        i = i + 1;
    }
    order
}

proof fn lemma_no_other<S: Ordered>(a: Seq<usize>, b: Seq<usize>, things: &S, n: int, k: int)
    requires
        in_order(a, things, n),
        in_order(b, things, n),
        0 <= k <= n,
        forall|l: int| 0 <= l < k ==> a[l] == b[l],
    ensures
        a == b,
    decreases n - k,
{
    if k < n {
        assert(b.contains(a[k]));
        let l = choose|l: int| 0 <= l < b.len() && b[l] == a[k];
        if l < k {
            assert(a[l] == a[k]);
            things.asymmetric(a[l] as int, a[k] as int);
        }
        assert(a.contains(b[k]));
        let m = choose|m: int| 0 <= m < a.len() && a[m] == b[k];
        if m < k {
            assert(b[m] == b[k]);
            things.asymmetric(b[m] as int, b[k] as int);
        }
        if l > k && m > k {
            assert(things.before(b[k] as int, b[l] as int));
            assert(things.before(a[k] as int, a[m] as int));
            things.asymmetric(a[k] as int, b[k] as int);
        }
        lemma_no_other(a, b, things, n, k + 1);
    } else {
        assert(a =~= b);
    }
}

/// There is only one way to put things in order.
pub proof fn law_the_order_is_settled<S: Ordered>(a: Seq<usize>, b: Seq<usize>, things: &S, n: int)
    requires
        in_order(a, things, n),
        in_order(b, things, n),
    ensures
        a == b,
{
    if n >= 0 {
        lemma_no_other(a, b, things, n, 0);
    }
}

/// Some numbers, to be put in ascending order; equal ones stay in the order they came in.
pub struct Numbers<'a>(pub &'a Vec<u64>);

impl<'a> Ordered for Numbers<'a> {
    open spec fn count(&self) -> nat {
        self.0@.len()
    }

    open spec fn before(&self, i: int, j: int) -> bool {
        self.0@[i] < self.0@[j] || (self.0@[i] == self.0@[j] && i < j)
    }

    proof fn total(&self, i: int, j: int) {
    }

    proof fn asymmetric(&self, i: int, j: int) {
    }

    proof fn transitive(&self, i: int, j: int, k: int) {
    }

    fn is_before(&self, i: usize, j: usize) -> (r: bool) {
        self.0[i] < self.0[j] || (self.0[i] == self.0[j] && i < j)
    }
}

/// `ids` holds the members of `set`, each once, in ascending order.
pub open spec fn ascending(ids: Seq<u64>, set: Set<u64>) -> bool {
    &&& ids.to_set() == set
    &&& forall|k: int, l: int| 0 <= k < l < ids.len() ==> #[trigger] ids[k] < #[trigger] ids[l]
}

/// Some distinct numbers in ascending order.
pub fn ascended(numbers: &Vec<u64>) -> (r: Vec<u64>)
    requires
        numbers@.no_duplicates(),
    ensures
        ascending(r@, numbers@.to_set()),
{
    let things = Numbers(numbers);
    let order: Vec<usize> = sorted(&things, numbers.len());
    let mut r: Vec<u64> = Vec::new();
    while r.len() < order.len()
        invariant
            r.len() <= order.len(),
            in_order(order@, &things, numbers.len() as int),
            things == Numbers(numbers),
            forall|k: int| 0 <= k < r.len() ==> #[trigger] r@[k] == numbers@[order@[k] as int],
        decreases order.len() - r.len(),
    {
        let k: usize = r.len();
        assert(order@[k as int] < numbers.len());
        r.push(numbers[order[k]]);
    }
    assert forall|k: int, l: int| 0 <= k < l < r.len() implies #[trigger] r@[k] < #[trigger] r@[l] by {
        assert(things.before(order@[k] as int, order@[l] as int));
        assert(order@[k] < numbers.len());
        assert(order@[l] < numbers.len());
        if order@[k] == order@[l] {
            things.asymmetric(order@[k] as int, order@[l] as int);
        }
        assert(numbers@[order@[k] as int] != numbers@[order@[l] as int]);
    }
    assert forall|x: u64| r@.to_set().contains(x) <==> numbers@.to_set().contains(x) by {
        if r@.contains(x) {
            let k = choose|k: int| 0 <= k < r.len() && r@[k] == x;
            assert(r@[k] == numbers@[order@[k] as int]);
            assert(order@[k] < numbers.len());
        }
        if numbers@.contains(x) {
            let i = choose|i: int| 0 <= i < numbers.len() && numbers@[i] == x;
            assert(order@.contains(i as usize));
            let k = choose|k: int| 0 <= k < order.len() && order@[k] == i as usize;
            assert(r@[k] == x);
        }
    }
    assert(r@.to_set() =~= numbers@.to_set());
    r
}

/// How two texts compare by their code points: below 0 where the first comes first, above 0 where the
/// second does.
pub open spec fn text_rel(a: Seq<char>, b: Seq<char>) -> int {
    match text_ordering(a, b, 0) {
        Ordering::Less => -1,
        Ordering::Equal => 0,
        Ordering::Greater => 1,
    }
}

/// How two texts compare by their code points.
pub fn compare(a: &str, b: &str) -> (r: i8)
    ensures
        r == text_rel(a@, b@),
{
    match compare_texts(a, b) {
        Ordering::Less => -1,
        Ordering::Equal => 0,
        Ordering::Greater => 1,
    }
}

/// A text that comes before another in the alphabet compares so.
pub(crate) proof fn lemma_alphabetical(a: Seq<char>, b: Seq<char>)
    requires
        is_alphabetically_before(a, b),
    ensures
        text_rel(a, b) < 0,
        text_rel(b, a) > 0,
{
    crate::sort::lemma_alphabetically_before(a, b);
}

/// Comparing texts is an order.
pub proof fn law_texts_are_ordered(a: Seq<char>, b: Seq<char>, c: Seq<char>)
    ensures
        text_rel(b, a) == -text_rel(a, b),
        text_rel(a, b) == 0 ==> a == b,
        text_rel(a, b) <= 0 && text_rel(b, c) <= 0 ==> text_rel(a, c) <= 0,
        text_rel(a, b) <= 0 && text_rel(b, c) <= 0 && (text_rel(a, b) < 0 || text_rel(b, c) < 0) ==> text_rel(a, c) < 0,
{
    crate::sort::lemma_text_order_reversed(a, b, 0);
    if text_rel(a, b) == 0 {
        crate::sort::lemma_equal_texts(a, b, 0);
    }
    if text_rel(a, b) <= 0 && text_rel(b, c) <= 0 {
        crate::sort::lemma_text_order_transitive(a, b, c, 0);
    }
}

} // verus!
