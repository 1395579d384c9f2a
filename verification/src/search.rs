//! Fuzzy text ranking, for searching a library by typing at it.
//!
//! Plain text in, a rank out: what a browser filters album titles by, and a picker its genres and
//! artists. Nothing here knows about albums.

use crate::text::{chars_of, is_space, lowercase, lowercased, whitespace};
use vstd::prelude::*;
use vstd::string::*;
use vstd::utf8::encode_utf8;

verus! {

/// `word` occurs in `s`.
pub open spec fn occurs(s: Seq<char>, word: Seq<char>) -> bool {
    exists|k: int| #[trigger] occurs_at(s, word, k)
}

pub open spec fn occurs_at(s: Seq<char>, word: Seq<char>, k: int) -> bool {
    0 <= k <= s.len() - word.len() && s.subrange(k, k + word.len()) == word
}

/// A word of `s` stands from `i` to `j`: between spaces, or the ends of `s`, and without one inside.
pub open spec fn is_word(s: Seq<char>, i: int, j: int) -> bool {
    &&& 0 <= i < j <= s.len()
    &&& forall|k: int| i <= k < j ==> !is_space(#[trigger] s[k])
    &&& i > 0 ==> is_space(s[i - 1])
    &&& j < s.len() ==> is_space(s[j])
}

/// There is nothing but space in `s`.
pub open spec fn is_blank(s: Seq<char>) -> bool {
    forall|k: int| 0 <= k < s.len() ==> is_space(#[trigger] s[k])
}

/// Every word of `query` occurs in `candidate`.
pub open spec fn has_all_words(candidate: Seq<char>, query: Seq<char>) -> bool {
    forall|i: int, j: int|
        #[trigger] is_word(query, i, j) ==> occurs(candidate, query.subrange(i, j))
}

/// `a` and `b` have `n` bytes in a row in common, ending at `i` and at `j`.
pub open spec fn common_at(a: Seq<u8>, b: Seq<u8>, i: int, j: int, n: int) -> bool {
    &&& 0 <= n <= i <= a.len()
    &&& n <= j <= b.len()
    &&& a.subrange(i - n, i) == b.subrange(j - n, j)
}

/// `a` and `b` have `n` bytes in a row in common.
pub open spec fn in_common(a: Seq<u8>, b: Seq<u8>, n: int) -> bool {
    exists|i: int, j: int| #[trigger] common_at(a, b, i, j, n)
}

/// `n` is the length of the longest common substring of `a` and `b`.
pub open spec fn is_longest(a: Seq<u8>, b: Seq<u8>, n: nat) -> bool {
    in_common(a, b, n as int) && forall|m: int| #[trigger] in_common(a, b, m) ==> m <= n
}

pub open spec fn longest(a: Seq<u8>, b: Seq<u8>) -> nat {
    choose|n: nat| is_longest(a, b, n)
}

/// The rank of `candidate` against `query`, both in lower case.
pub open spec fn rank_of_lowercase(candidate: Seq<char>, query: Seq<char>) -> Option<nat> {
    if is_blank(query) {
        Some(0)
    } else if has_all_words(candidate, query) {
        Some(longest(encode_utf8(candidate), encode_utf8(query)))
    } else {
        None
    }
}

/// The rank of `candidate` against `query`, whatever their case.
pub open spec fn rank_of(candidate: Seq<char>, query: Seq<char>) -> Option<nat> {
    rank_of_lowercase(lowercase(candidate), lowercase(query))
}

/// The length of the longest common suffix of the first `i` bytes of `a` and the first `j` of `b`.
pub open spec fn suffix(a: Seq<u8>, b: Seq<u8>, i: int, j: int) -> nat
    decreases i,
{
    if i <= 0 || j <= 0 || a[i - 1] != b[j - 1] {
        0
    } else {
        suffix(a, b, i - 1, j - 1) + 1
    }
}

proof fn lemma_suffix(a: Seq<u8>, b: Seq<u8>, i: int, j: int)
    requires
        0 <= i <= a.len(),
        0 <= j <= b.len(),
    ensures
        suffix(a, b, i, j) <= i,
        suffix(a, b, i, j) <= j,
        common_at(a, b, i, j, suffix(a, b, i, j) as int),
    decreases i,
{
    let n = suffix(a, b, i, j) as int;
    if i > 0 && j > 0 && a[i - 1] == b[j - 1] {
        lemma_suffix(a, b, i - 1, j - 1);
        let before = a.subrange(i - n, i - 1);
        assert(a.subrange(i - n, i) =~= before.push(a[i - 1]));
        assert(b.subrange(j - n, j) =~= b.subrange(j - n, j - 1).push(b[j - 1]));
    } else {
        assert(a.subrange(i, i) =~= b.subrange(j, j));
    }
}

proof fn lemma_suffix_is_longest(a: Seq<u8>, b: Seq<u8>, i: int, j: int, n: int)
    requires
        common_at(a, b, i, j, n),
    ensures
        n <= suffix(a, b, i, j),
    decreases n,
{
    if n > 0 {
        assert(a.subrange(i - n, i)[n - 1] == a[i - 1]);
        assert(b.subrange(j - n, j)[n - 1] == b[j - 1]);
        assert(a.subrange(i - n, i - 1) =~= a.subrange(i - n, i).drop_last());
        assert(b.subrange(j - n, j - 1) =~= b.subrange(j - n, j).drop_last());
        assert(a.subrange((i - 1) - (n - 1), i - 1) == b.subrange((j - 1) - (n - 1), j - 1));
        lemma_suffix_is_longest(a, b, i - 1, j - 1, n - 1);
    }
}

/// The length in bytes of the longest common substring of `a` and `b`: the classic quadratic table,
/// one rolling row. Both inputs are short -- titles and queries -- so this is microseconds.
pub fn longest_common_substring(a: &str, b: &str) -> (n: usize)
    ensures
        n == longest(encode_utf8(a@), encode_utf8(b@)),
        is_longest(encode_utf8(a@), encode_utf8(b@), n as nat),
{
    let a: &[u8] = a.as_bytes();
    let b: &[u8] = b.as_bytes();
    longest_in_bytes(a, b)
}

fn longest_in_bytes(a: &[u8], b: &[u8]) -> (n: usize)
    ensures
        n == longest(a@, b@),
        is_longest(a@, b@, n as nat),
{
    let alen: usize = a.len();
    let blen: usize = b.len();
    let mut row: Vec<usize> = Vec::new();
    let mut j: usize = 0;
    row.push(0);
    while j < blen
        invariant
            j <= blen,
            row.len() == j + 1,
            forall|k: int| 0 <= k < row.len() ==> #[trigger] row[k] == suffix(a@, b@, 0, k),
        decreases blen - j,
    {
        row.push(0);
        j = j + 1;
    }
    let mut best: usize = 0;
    let ghost mut best_i: int = 0;
    let ghost mut best_j: int = 0;
    let mut i: usize = 0;
    assert(a@.subrange(0, 0) =~= b@.subrange(0, 0));
    while i < alen
        invariant
            alen == a@.len(),
            blen == b@.len(),
            i <= alen,
            row.len() == blen + 1,
            forall|k: int| 0 <= k <= blen ==> #[trigger] row[k] == suffix(a@, b@, i as int, k),
            common_at(a@, b@, best_i, best_j, best as int),
            forall|p: int, k: int|
                0 <= p <= i && 0 <= k <= blen ==> #[trigger] suffix(a@, b@, p, k) <= best,
        decreases alen - i,
    {
        // Walk right-to-left so `row[j - 1]` still holds the previous row's value.
        let mut j: usize = blen;
        while j > 0
            invariant
                alen == a@.len(),
                blen == b@.len(),
                i < alen,
                j <= blen,
                row.len() == blen + 1,
                forall|k: int| 0 <= k <= j ==> #[trigger] row[k] == suffix(a@, b@, i as int, k),
                forall|k: int| j < k <= blen ==> #[trigger] row[k] == suffix(a@, b@, i + 1, k),
                common_at(a@, b@, best_i, best_j, best as int),
                forall|p: int, k: int|
                    0 <= p <= i && 0 <= k <= blen ==> #[trigger] suffix(a@, b@, p, k) <= best,
                forall|k: int| j < k <= blen ==> #[trigger] suffix(a@, b@, i + 1, k) <= best,
            decreases j,
        {
            proof {
                lemma_suffix(a@, b@, i as int, j - 1);
                lemma_suffix(a@, b@, i + 1, j as int);
            }
            assert(row[j - 1] == suffix(a@, b@, i as int, j - 1));
            let v: usize = if a[i] == b[j - 1] {
                row[j - 1] + 1
            } else {
                0
            };
            assert(v == suffix(a@, b@, i + 1, j as int));
            row.set(j, v);
            if v > best {
                best = v;
                proof {
                    best_i = i + 1;
                    best_j = j as int;
                }
            }
            j = j - 1;
        }
        assert(suffix(a@, b@, i + 1, 0) == 0);
        assert(row[0] == suffix(a@, b@, i as int, 0));
        i = i + 1;
    }
    proof {
        assert(in_common(a@, b@, best as int));
        assert forall|m: int| #[trigger] in_common(a@, b@, m) implies m <= best by {
            let (p, k) = choose|p: int, k: int| #[trigger] common_at(a@, b@, p, k, m);
            lemma_suffix_is_longest(a@, b@, p, k, m);
        }
        assert(is_longest(a@, b@, best as nat));
        let chosen = longest(a@, b@);
        assert(in_common(a@, b@, chosen as int));
    }
    best
}

fn contains(s: &Vec<char>, word: &Vec<char>) -> (r: bool)
    ensures
        r == occurs(s@, word@),
{
    if s.len() < word.len() {
        return false;
    }
    let last: usize = s.len() - word.len();
    let mut k: usize = 0;
    while k <= last
        invariant
            last == s.len() - word.len(),
            k <= last + 1,
            forall|l: int| 0 <= l < k ==> !#[trigger] occurs_at(s@, word@, l),
        decreases last + 1 - k,
    {
        let mut m: usize = 0;
        let mut same: bool = true;
        while m < word.len() && same
            invariant
                last == s.len() - word.len(),
                k <= last,
                m <= word.len(),
                same ==> forall|l: int| 0 <= l < m ==> s@[k + l] == #[trigger] word@[l],
                !same ==> m < word.len() && s@[k + m] != word@[m as int],
            decreases word.len() - m, if same {
                1nat
            } else {
                0nat
            },
        {
            if s[k + m] != word[m] {
                same = false;
            } else {
                m = m + 1;
            }
        }
        if same {
            assert(s@.subrange(k as int, k + word.len()) =~= word@);
            assert(occurs_at(s@, word@, k as int));
            return true;
        }
        assert(!occurs_at(s@, word@, k as int)) by {
            assert(s@.subrange(k as int, k + word.len())[m as int] == s@[k + m]);
        }
        if k == last {
            assert forall|l: int| !#[trigger] occurs_at(s@, word@, l) by {}
            return false;
        }
        k = k + 1;
    }
    false
}

/// Ranks `candidate` against `query`: `None` unless it contains every whitespace-split word of the
/// query (case-insensitively); otherwise the length of the longest common substring with the whole
/// query, so contiguous hits ("dark side" as a phrase) outrank scattered ones. An empty query matches
/// everything, at rank 0.
pub fn rank(candidate: &str, query: &str) -> (r: Option<usize>)
    ensures
        match r {
            Some(n) => rank_of(candidate@, query@) == Some(n as nat),
            None => rank_of(candidate@, query@) is None,
        },
{
    let query_lower: String = lowercased(query);
    let candidate_lower: String = lowercased(candidate);
    rank_lowercase(candidate_lower.as_str(), query_lower.as_str())
}

/// [`rank`] of what is in lower case already.
pub fn rank_lowercase(candidate: &str, query: &str) -> (r: Option<usize>)
    ensures
        match r {
            Some(n) => rank_of_lowercase(candidate@, query@) == Some(n as nat),
            None => rank_of_lowercase(candidate@, query@) is None,
        },
{
    let q: Vec<char> = chars_of(query);
    let c: Vec<char> = chars_of(candidate);
    let mut blank: bool = true;
    let mut start: usize = 0;
    let n: usize = q.len();
    // From one word to the next: `start` is at the front of the query or behind a space.
    while start < n
        invariant
            n == q.len(),
            q@ == query@,
            c@ == candidate@,
            start <= n,
            0 < start < n ==> is_space(q@[start - 1]),
            blank ==> forall|k: int| 0 <= k < start ==> is_space(#[trigger] q@[k]),
            !blank ==> exists|k: int| 0 <= k < start && !is_space(#[trigger] q@[k]),
            forall|i: int, j: int|
                #[trigger] is_word(q@, i, j) && i < start ==> occurs(c@, q@.subrange(i, j)),
        decreases n - start,
    {
        if whitespace(q[start]) {
            assert forall|i: int, j: int| #[trigger]
                is_word(q@, i, j) && i < start + 1 implies occurs(c@, q@.subrange(i, j)) by {
                if i == start {
                    assert(is_space(q@[i]));
                }
            }
            start = start + 1;
        } else {
            blank = false;
            let mut end: usize = start;
            let mut word: Vec<char> = Vec::new();
            while end < n && !whitespace(q[end])
                invariant
                    n == q.len(),
                    start <= end <= n,
                    word@ == q@.subrange(start as int, end as int),
                    forall|k: int| start <= k < end ==> !is_space(#[trigger] q@[k]),
                decreases n - end,
            {
                word.push(q[end]);
                assert(word@ =~= q@.subrange(start as int, end + 1));
                end = end + 1;
            }
            assert(start < end) by {
                assert(!is_space(q@[start as int]));
            }
            assert(is_word(q@, start as int, end as int));
            if !contains(&c, &word) {
                assert(!has_all_words(c@, q@));
                assert(!is_blank(q@));
                return None;
            }
            assert forall|i: int, j: int| #[trigger] is_word(q@, i, j) && i < end implies occurs(
                c@,
                q@.subrange(i, j),
            ) by {
                if i == start {
                    if j < end {
                        assert(is_space(q@[j]));
                    } else if end < j {
                        assert(!is_space(q@[end as int]));
                    }
                    assert(j == end);
                } else if i > start {
                    assert(is_space(q@[i - 1]));
                }
            }
            assert(!is_space(q@[start as int]));
            if end < n {
                assert forall|i: int, j: int| #[trigger]
                    is_word(q@, i, j) && i < end + 1 implies occurs(c@, q@.subrange(i, j)) by {
                    if i == end {
                        assert(is_space(q@[i]));
                    }
                }
                start = end + 1;
            } else {
                start = end;
            }
        }
    }
    if blank {
        return Some(0);
    }
    assert(!is_blank(q@));
    assert(has_all_words(c@, q@)) by {
        assert forall|i: int, j: int| #[trigger] is_word(q@, i, j) implies occurs(
            c@,
            q@.subrange(i, j),
        ) by {
            assert(i < n);
        }
    }
    Some(longest_common_substring(candidate, query))
}

/// `order` names those of some candidates that have a rank, best first; ties stay in the order that
/// they came in.
pub open spec fn best_first(order: Seq<usize>, ranks: Seq<Option<usize>>) -> bool {
    &&& forall|k: int| 0 <= k < order.len() ==> (#[trigger] order[k]) < ranks.len()
    &&& forall|k: int| 0 <= k < order.len() ==> ranks[#[trigger] order[k] as int] is Some
    &&& forall|i: usize| i < ranks.len() && ranks[i as int] is Some ==> #[trigger] order.contains(i)
    &&& forall|k: int, l: int|
        0 <= k < l < order.len() ==> precedes(#[trigger] order[k], #[trigger] order[l], ranks)
}

/// Candidate `i` stands before candidate `j`: it has the higher rank, or the same and came first.
pub open spec fn precedes(i: usize, j: usize, ranks: Seq<Option<usize>>) -> bool {
    let a = ranks[i as int]->0;
    let b = ranks[j as int]->0;
    a > b || (a == b && i < j)
}

/// The candidates with a rank, best first.
pub fn order_by_rank(ranks: &Vec<Option<usize>>) -> (order: Vec<usize>)
    ensures
        best_first(order@, ranks@),
{
    let mut order: Vec<usize> = Vec::new();
    let mut i: usize = 0;
    while i < ranks.len()
        invariant
            i <= ranks.len(),
            best_first(order@, ranks@.take(i as int)),
        decreases ranks.len() - i,
    {
        let ghost before = ranks@.take(i as int);
        let ghost upto = ranks@.take(i + 1);
        let ghost placed = order@;
        assert(forall|k: int| 0 <= k < i ==> before[k] == upto[k]);
        match ranks[i] {
            Some(rank) => {
                // Behind everything that ranks as high: what comes later and ties goes last.
                let mut k: usize = order.len();
                while k > 0 && rank_at(ranks, order[k - 1]) < rank
                    invariant
                        i < ranks.len(),
                        k <= order.len(),
                        order@ == placed,
                        best_first(placed, before),
                        before == ranks@.take(i as int),
                        forall|l: int| 0 <= l < placed.len() ==> (#[trigger] placed[l]) < i,
                        forall|l: int| 0 <= l < placed.len() ==> ranks@[#[trigger] placed[l] as int] is Some,
                        forall|l: int|
                            k <= l < placed.len() ==> ranks@[#[trigger] placed[l] as int]->0 < rank,
                    decreases k,
                {
                    k = k - 1;
                }
                order.insert(k, i);
                proof {
                    lemma_inserted(placed, ranks@, i, k as int, rank);
                }
            },
            None => {
                assert(best_first(order@, upto));
            },
        }
        i = i + 1;
    }
    assert(ranks@.take(i as int) =~= ranks@);
    order
}

fn rank_at(ranks: &Vec<Option<usize>>, i: usize) -> (r: usize)
    requires
        i < ranks.len(),
        ranks[i as int] is Some,
    ensures
        r == ranks[i as int]->0,
{
    match ranks[i] {
        Some(r) => r,
        None => 0,
    }
}

proof fn lemma_inserted(placed: Seq<usize>, ranks: Seq<Option<usize>>, i: usize, k: int, rank: usize)
    requires
        i < ranks.len(),
        ranks[i as int] == Some(rank),
        best_first(placed, ranks.take(i as int)),
        0 <= k <= placed.len(),
        forall|l: int| k <= l < placed.len() ==> ranks[#[trigger] placed[l] as int]->0 < rank,
        k > 0 ==> ranks[placed[k - 1] as int]->0 >= rank,
    ensures
        best_first(placed.insert(k, i), ranks.take(i + 1)),
{
    let before = ranks.take(i as int);
    let upto = ranks.take(i + 1);
    let order = placed.insert(k, i);
    assert forall|l: int| 0 <= l < order.len() implies (#[trigger] order[l]) < upto.len() by {
        if l < k {
            assert(order[l] == placed[l]);
        } else if l > k {
            assert(order[l] == placed[l - 1]);
        }
    }
    assert forall|l: int| 0 <= l < order.len() implies upto[#[trigger] order[l] as int] is Some by {
        if l < k {
            assert(order[l] == placed[l]);
            assert(before[placed[l] as int] is Some);
        } else if l > k {
            assert(order[l] == placed[l - 1]);
            assert(before[placed[l - 1] as int] is Some);
        }
    }
    assert forall|j: usize| j < upto.len() && upto[j as int] is Some implies #[trigger] order.contains(
        j,
    ) by {
        if j == i {
            assert(order[k] == i);
        } else {
            assert(before[j as int] is Some);
            assert(placed.contains(j));
            let l = choose|l: int| 0 <= l < placed.len() && placed[l] == j;
            if l < k {
                assert(order[l] == j);
            } else {
                assert(order[l + 1] == j);
            }
        }
    }
    assert forall|l: int, m: int| 0 <= l < m < order.len() implies precedes(
        #[trigger] order[l],
        #[trigger] order[m],
        upto,
    ) by {
        if l < k {
            assert(order[l] == placed[l]);
            if m < k {
                assert(order[m] == placed[m]);
                assert(precedes(placed[l], placed[m], before));
            } else if m > k {
                assert(order[m] == placed[m - 1]);
                assert(precedes(placed[l], placed[m - 1], before));
            } else {
                if l < k - 1 {
                    assert(precedes(placed[l], placed[k - 1], before));
                }
                assert(before[placed[l] as int] is Some);
                assert(before[placed[k - 1] as int] is Some);
            }
        } else if l == k {
            assert(order[m] == placed[m - 1]);
            assert(before[placed[m - 1] as int] is Some);
        } else {
            assert(order[l] == placed[l - 1]);
            assert(order[m] == placed[m - 1]);
            assert(precedes(placed[l - 1], placed[m - 1], before));
        }
    }
}

/// The ranks of some candidates against `query`.
pub open spec fn are_ranks(ranks: Seq<Option<usize>>, candidates: Seq<String>, query: Seq<char>) -> bool {
    &&& ranks.len() == candidates.len()
    &&& forall|i: int|
        0 <= i < ranks.len() ==> match #[trigger] ranks[i] {
            Some(n) => rank_of(candidates[i]@, query) == Some(n as nat),
            None => rank_of(candidates[i]@, query) is None,
        }
}

/// `found` holds the candidates named by `order`.
pub open spec fn are_picked(found: Seq<String>, candidates: Seq<String>, order: Seq<usize>) -> bool {
    &&& found.len() == order.len()
    &&& forall|k: int|
        0 <= k < found.len() ==> (#[trigger] found[k])@ == candidates[order[k] as int]@
}

/// `found` are the candidates that `query` matches, best first.
pub open spec fn are_matches(found: Seq<String>, candidates: Seq<String>, query: Seq<char>) -> bool {
    exists|ranks: Seq<Option<usize>>, order: Seq<usize>|
        {
            &&& #[trigger] are_ranks(ranks, candidates, query)
            &&& best_first(order, ranks)
            &&& #[trigger] are_picked(found, candidates, order)
        }
}

/// The candidates `query` matches, best first. Ties keep the order they came in, so a caller's own
/// ordering survives where the search has nothing to say.
pub fn matches(candidates: &Vec<String>, query: &str) -> (found: Vec<String>)
    ensures
        are_matches(found@, candidates@, query@),
{
    let mut ranks: Vec<Option<usize>> = Vec::new();
    let mut i: usize = 0;
    while i < candidates.len()
        invariant
            i <= candidates.len(),
            are_ranks(ranks@, candidates@.take(i as int), query@),
        decreases candidates.len() - i,
    {
        let ghost before = ranks@;
        ranks.push(rank(candidates[i].as_str(), query));
        assert forall|k: int| 0 <= k < ranks.len() implies match #[trigger] ranks@[k] {
            Some(n) => rank_of(candidates@.take(i + 1)[k]@, query@) == Some(n as nat),
            None => rank_of(candidates@.take(i + 1)[k]@, query@) is None,
        } by {
            if k < i {
                assert(ranks@[k] == before[k]);
                assert(candidates@.take(i as int)[k] == candidates@.take(i + 1)[k]);
            }
        }
        i = i + 1;
    }
    assert(candidates@.take(i as int) =~= candidates@);
    let order: Vec<usize> = order_by_rank(&ranks);
    let mut found: Vec<String> = Vec::new();
    let mut k: usize = 0;
    while k < order.len()
        invariant
            k <= order.len(),
            ranks.len() == candidates.len(),
            best_first(order@, ranks@),
            are_picked(found@, candidates@, order@.take(k as int)),
        decreases order.len() - k,
    {
        let ghost before = found@;
        assert(order@[k as int] < ranks@.len());
        found.push(candidates[order[k]].clone());
        assert forall|l: int| 0 <= l < found.len() implies (#[trigger] found@[l])@
            == candidates@[order@.take(k + 1)[l] as int]@ by {
            if l < k {
                assert(found@[l] == before[l]);
                assert(order@.take(k as int)[l] == order@.take(k + 1)[l]);
            }
        }
        k = k + 1;
    }
    assert(order@.take(k as int) =~= order@);
    found
}

/// An order that is best first is settled by the ranks: there is only one.
pub proof fn law_best_first_is_unique(a: Seq<usize>, b: Seq<usize>, ranks: Seq<Option<usize>>)
    requires
        ranks.len() <= usize::MAX,
        best_first(a, ranks),
        best_first(b, ranks),
    ensures
        a == b,
    decreases a.len() + b.len(),
{
    lemma_agree(a, b, ranks, 0);
    if a.len() > b.len() {
        let x = a[b.len() as int];
        assert(b.contains(x));
        let l = choose|l: int| 0 <= l < b.len() && b[l] == x;
        assert(a[l] == b[l]);
        assert(precedes(a[l], a[b.len() as int], ranks));
    }
    if b.len() > a.len() {
        let x = b[a.len() as int];
        assert(a.contains(x));
        let l = choose|l: int| 0 <= l < a.len() && a[l] == x;
        assert(a[l] == b[l]);
        assert(precedes(b[l], b[a.len() as int], ranks));
    }
    assert(a =~= b);
}

proof fn lemma_agree(a: Seq<usize>, b: Seq<usize>, ranks: Seq<Option<usize>>, k: int)
    requires
        best_first(a, ranks),
        best_first(b, ranks),
        0 <= k,
        forall|l: int| 0 <= l < k && l < a.len() && l < b.len() ==> #[trigger] a[l] == b[l],
    ensures
        forall|l: int| 0 <= l < a.len() && l < b.len() ==> #[trigger] a[l] == b[l],
    decreases a.len() - k,
{
    if k < a.len() && k < b.len() {
        if a[k] != b[k] {
            assert(b.contains(a[k]) && a.contains(b[k]));
            let p = choose|p: int| 0 <= p < b.len() && b[p] == a[k];
            let q = choose|q: int| 0 <= q < a.len() && a[q] == b[k];
            if p < k {
                assert(a[p] == b[p]);
                assert(precedes(a[p], a[k], ranks));
            }
            if q < k {
                assert(a[q] == b[q]);
                assert(precedes(b[q], b[k], ranks));
            }
            assert(precedes(b[k], b[p], ranks));
            assert(precedes(a[k], a[q], ranks));
        }
        lemma_agree(a, b, ranks, k + 1);
    }
}

/// A blank query keeps everything, in the order it came in.
pub proof fn law_a_blank_query_keeps_the_order(found: Seq<String>, candidates: Seq<String>, query: Seq<char>)
    requires
        candidates.len() <= usize::MAX,
        is_blank(lowercase(query)),
        are_matches(found, candidates, query),
    ensures
        found.len() == candidates.len(),
        forall|k: int| 0 <= k < found.len() ==> (#[trigger] found[k])@ == candidates[k]@,
{
    let (ranks, order) = choose|ranks: Seq<Option<usize>>, order: Seq<usize>|
        {
            &&& #[trigger] are_ranks(ranks, candidates, query)
            &&& best_first(order, ranks)
            &&& #[trigger] are_picked(found, candidates, order)
        };
    let in_order = Seq::new(candidates.len(), |k: int| k as usize);
    assert forall|i: int| 0 <= i < ranks.len() implies #[trigger] ranks[i] == Some(0usize) by {}
    assert(best_first(in_order, ranks)) by {
        assert forall|i: usize| i < ranks.len() && ranks[i as int] is Some implies #[trigger]
            in_order.contains(i) by {
            assert(in_order[i as int] == i);
        }
    }
    law_best_first_is_unique(order, in_order, ranks);
}

/// A longest common run of bytes exists: there is one of none, and none longer than either text.
proof fn lemma_longest(a: Seq<u8>, b: Seq<u8>)
    ensures
        is_longest(a, b, longest(a, b)),
{
    assert(a.subrange(0, 0) =~= b.subrange(0, 0));
    assert(common_at(a, b, 0, 0, 0));
    lemma_longest_from(a, b, a.len());
}

proof fn lemma_longest_from(a: Seq<u8>, b: Seq<u8>, n: nat)
    requires
        in_common(a, b, 0),
        forall|m: int| #[trigger] in_common(a, b, m) ==> m <= n,
    ensures
        exists|k: nat| is_longest(a, b, k),
    decreases n,
{
    if in_common(a, b, n as int) {
        assert(is_longest(a, b, n));
    } else {
        assert forall|m: int| #[trigger] in_common(a, b, m) implies m <= n - 1 by {}
        lemma_longest_from(a, b, (n - 1) as nat);
    }
}

/// What a search finds holds every word of its query somewhere, in upper or lower case.
pub proof fn law_what_is_found_holds_every_word(candidate: Seq<char>, query: Seq<char>, i: int, j: int)
    requires
        rank_of(candidate, query) is Some,
        0 <= i < j <= lowercase(query).len(),
        forall|k: int| i <= k < j ==> !is_space(#[trigger] lowercase(query)[k]),
        i == 0 || is_space(lowercase(query)[i - 1]),
        j == lowercase(query).len() || is_space(lowercase(query)[j]),
    ensures
        exists|k: int|
            0 <= k <= lowercase(candidate).len() - (j - i) && #[trigger] lowercase(candidate).skip(k).take(j - i)
                == lowercase(query).subrange(i, j),
{
    let c = lowercase(candidate);
    let q = lowercase(query);
    assert(!is_space(q[i]));
    assert(is_word(q, i, j));
    assert(occurs(c, q.subrange(i, j)));
    let k = choose|k: int| #[trigger] occurs_at(c, q.subrange(i, j), k);
    assert(c.skip(k).take(j - i) =~= c.subrange(k, k + (j - i)));
}

/// What a search does not find lacks a word of its query. A query of nothing but space finds everything.
pub proof fn law_what_is_not_found_lacks_a_word(candidate: Seq<char>, query: Seq<char>)
    requires
        rank_of(candidate, query) is None,
    ensures
        exists|i: int, j: int|
            #![trigger lowercase(query).subrange(i, j)]
            {
                let q = lowercase(query);
                let word = q.subrange(i, j);
                &&& 0 <= i < j <= q.len()
                &&& forall|k: int| i <= k < j ==> !is_space(#[trigger] q[k])
                &&& i == 0 || is_space(q[i - 1])
                &&& j == q.len() || is_space(q[j])
                &&& forall|k: int|
                    0 <= k <= lowercase(candidate).len() - word.len() ==> #[trigger] lowercase(candidate).skip(k).take(
                        word.len() as int,
                    ) != word
            },
{
    let c = lowercase(candidate);
    let q = lowercase(query);
    let (i, j) = choose|i: int, j: int| #[trigger] is_word(q, i, j) && !occurs(c, q.subrange(i, j));
    let word = q.subrange(i, j);
    assert forall|k: int| 0 <= k <= c.len() - word.len() implies #[trigger] c.skip(k).take(word.len() as int) != word by {
        assert(c.skip(k).take(word.len() as int) =~= c.subrange(k, k + word.len()));
        assert(!occurs_at(c, word, k));
    }
}

/// How well a candidate matches is the longest run of bytes that it has in common with the whole query, in
/// lower case: there is such a run, and no longer one.
pub proof fn law_the_rank_is_the_longest_common_run(candidate: Seq<char>, query: Seq<char>, i: int, j: int, m: int)
    requires
        rank_of(candidate, query) is Some,
        exists|k: int| 0 <= k < lowercase(query).len() && !is_space(#[trigger] lowercase(query)[k]),
    ensures
        ({
            let c = encode_utf8(lowercase(candidate));
            let q = encode_utf8(lowercase(query));
            let n = rank_of(candidate, query)->0 as int;
            &&& exists|x: int, y: int|
                0 <= x <= c.len() - n && 0 <= y <= q.len() - n && #[trigger] c.subrange(x, x + n) == #[trigger] q.subrange(
                    y,
                    y + n,
                )
            &&& 0 <= m && 0 <= i <= c.len() - m && 0 <= j <= q.len() - m && c.subrange(i, i + m) == q.subrange(j, j + m)
                ==> m <= n
        }),
{
    let c = encode_utf8(lowercase(candidate));
    let q = encode_utf8(lowercase(query));
    let n = rank_of(candidate, query)->0 as int;
    assert(!is_blank(lowercase(query)));
    lemma_longest(c, q);
    assert(in_common(c, q, n));
    let (x, y) = choose|x: int, y: int| #[trigger] common_at(c, q, x, y, n);
    assert(c.subrange(x - n, (x - n) + n) == q.subrange(y - n, (y - n) + n));
    if 0 <= m && 0 <= i <= c.len() - m && 0 <= j <= q.len() - m && c.subrange(i, i + m) == q.subrange(j, j + m) {
        assert(common_at(c, q, i + m, j + m, m));
        assert(in_common(c, q, m));
    }
}

/// What is found are the candidates that match, each once, the better match first, and in the order that they
/// came in where two match as well.
pub proof fn law_matches_come_best_first(found: Seq<String>, candidates: Seq<String>, query: Seq<char>)
    requires
        candidates.len() <= usize::MAX,
        are_matches(found, candidates, query),
    ensures
        exists|at: Seq<usize>|
            {
                &&& at.len() == found.len()
                &&& #[trigger] at.no_duplicates()
                &&& forall|k: int|
                    0 <= k < at.len() ==> (#[trigger] at[k]) < candidates.len() && found[k]@
                        == candidates[at[k] as int]@ && rank_of(found[k]@, query) is Some
                &&& forall|i: int|
                    0 <= i < candidates.len() && rank_of((#[trigger] candidates[i])@, query) is Some ==> at.contains(
                        i as usize,
                    )
                &&& forall|k: int, l: int|
                    0 <= k < l < at.len() ==> {
                        let a = rank_of(candidates[#[trigger] at[k] as int]@, query)->0;
                        let b = rank_of(candidates[#[trigger] at[l] as int]@, query)->0;
                        a >= b && (a == b ==> at[k] < at[l])
                    }
            },
{
    let (ranks, order) = choose|ranks: Seq<Option<usize>>, order: Seq<usize>|
        {
            &&& #[trigger] are_ranks(ranks, candidates, query)
            &&& best_first(order, ranks)
            &&& #[trigger] are_picked(found, candidates, order)
        };
    assert forall|k: int, l: int| 0 <= k < l < order.len() implies #[trigger] order[k] != #[trigger] order[l] by {
        assert(precedes(order[k], order[l], ranks));
    }
    assert(order.no_duplicates());
    assert forall|i: int| 0 <= i < candidates.len() && rank_of((#[trigger] candidates[i])@, query) is Some implies order.contains(
        i as usize,
    ) by {
        assert(ranks[i] is Some);
        assert(ranks[(i as usize) as int] is Some);
    }
    assert forall|k: int| 0 <= k < order.len() implies (#[trigger] order[k]) < candidates.len() && found[k]@
        == candidates[order[k] as int]@ && rank_of(found[k]@, query) is Some by {
        assert(ranks[order[k] as int] is Some);
        assert(found[k]@ == candidates[order[k] as int]@);
    }
    assert forall|k: int, l: int| 0 <= k < l < order.len() implies {
        let a = rank_of(candidates[#[trigger] order[k] as int]@, query)->0;
        let b = rank_of(candidates[#[trigger] order[l] as int]@, query)->0;
        a >= b && (a == b ==> order[k] < order[l])
    } by {
        assert(precedes(order[k], order[l], ranks));
        assert(ranks[order[k] as int] is Some);
        assert(ranks[order[l] as int] is Some);
    }
}

} // verus!
