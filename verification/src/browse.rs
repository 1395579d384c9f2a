//! The library as a browser shows it: the filter over its albums, the order they are shown in, and the
//! values that the filter's pickers offer.

use crate::library::Album;
use crate::search::{are_matches, is_blank, rank, rank_of};
use crate::sort::{compare_texts, law_sorting_is_antisymmetric, law_sorting_is_transitive, text_ordering, SortOrder};
use crate::text::{lowercase, opt_text, same};
use std::cmp::Ordering;
use vstd::prelude::*;
use vstd::string::*;

verus! {

/// The library filter's inputs: an exact genre and artist (each picked from a searchable picker)
/// and a fuzzy album-title search, ANDed together.
#[derive(Debug, Clone)]
pub struct Filter {
    pub genre: Option<String>,
    pub artist: Option<String>,
    pub search: String,
}

/// The filter's texts.
pub struct FilterView {
    pub genre: Option<Seq<char>>,
    pub artist: Option<Seq<char>>,
    pub search: Seq<char>,
}

impl View for Filter {
    type V = FilterView;

    open spec fn view(&self) -> FilterView {
        FilterView { genre: opt_text(self.genre), artist: opt_text(self.artist), search: self.search@ }
    }
}

/// The filter that lets everything through.
pub open spec fn no_filter() -> FilterView {
    FilterView { genre: None, artist: None, search: Seq::empty() }
}

impl Default for Filter {
    fn default() -> (f: Self)
        ensures
            f@ == no_filter(),
    {
        let f = Filter { genre: None, artist: None, search: String::new() };
        assert(f.search@ =~= Seq::empty());
        f
    }
}

impl Filter {
    /// Whether the filter lets everything through (nothing to clear).
    pub fn is_empty(&self) -> (r: bool)
        ensures
            r == (self@ == no_filter()),
    {
        let blank: bool = self.search.as_str().unicode_len() == 0;
        assert(blank ==> self.search@ =~= Seq::empty());
        self.genre.is_none() && self.artist.is_none() && blank
    }
}

/// What a filter makes of an album: nothing where it rules the album out, else how well its title matches
/// the search.
pub open spec fn rank_under(filter: FilterView, album: Album) -> Option<nat> {
    if filter.genre is Some && filter.genre != Some(album.genre@) {
        None
    } else if filter.artist is Some && filter.artist != Some(album.artist@) {
        None
    } else {
        rank_of(album.title@, filter.search)
    }
}

/// The `i`-th album of a library.
pub open spec fn nth(albums: Seq<Album>, i: usize) -> Album {
    albums[i as int]
}

/// Of two albums of a library, the `i`-th is shown before the `j`-th: it matches the search better, or as
/// well and the sort puts it first, or the sort too leaves it open and it comes first in the library.
pub open spec fn shown_before(albums: Seq<Album>, filter: FilterView, sort: SortOrder, i: usize, j: usize) -> bool {
    let a = rank_under(filter, nth(albums, i))->0;
    let b = rank_under(filter, nth(albums, j))->0;
    a > b || (a == b && sorts_before(albums, sort, i, j))
}

/// Of two albums of a library, the sort puts the `i`-th before the `j`-th, or leaves it open and it comes
/// first in the library.
pub open spec fn sorts_before(albums: Seq<Album>, sort: SortOrder, i: usize, j: usize) -> bool {
    match sort.album_ordering(nth(albums, i), nth(albums, j)) {
        Ordering::Less => true,
        Ordering::Equal => i < j,
        Ordering::Greater => false,
    }
}

/// `shown` names the albums that the filter lets through, in the order they are shown in.
pub open spec fn is_filtered(shown: Seq<usize>, albums: Seq<Album>, filter: FilterView, sort: SortOrder) -> bool {
    &&& forall|k: int| 0 <= k < shown.len() ==> (#[trigger] shown[k]) < albums.len()
    &&& forall|k: int|
        0 <= k < shown.len() ==> rank_under(filter, albums[#[trigger] shown[k] as int]) is Some
    &&& forall|i: usize|
        i < albums.len() && rank_under(filter, albums[i as int]) is Some ==> #[trigger] shown.contains(i)
    &&& forall|k: int, l: int|
        0 <= k < l < shown.len() ==> shown_before(
            albums,
            filter,
            sort,
            #[trigger] shown[k],
            #[trigger] shown[l],
        )
}

proof fn lemma_sorts_before(albums: Seq<Album>, sort: SortOrder, i: usize, j: usize, k: usize)
    ensures
        i != j ==> sorts_before(albums, sort, i, j) || sorts_before(albums, sort, j, i),
        !(sorts_before(albums, sort, i, j) && sorts_before(albums, sort, j, i)),
        sorts_before(albums, sort, i, j) && sorts_before(albums, sort, j, k) ==> sorts_before(albums, sort, i, k),
{
    law_sorting_is_antisymmetric(sort, nth(albums, i), nth(albums, j));
    if sorts_before(albums, sort, i, j) && sorts_before(albums, sort, j, k) {
        law_sorting_is_transitive(sort, nth(albums, i), nth(albums, j), nth(albums, k));
        if sort.album_ordering(nth(albums, i), nth(albums, j)) is Equal && sort.album_ordering(nth(albums, j), nth(albums, k))
            is Equal {
            law_sorting_is_antisymmetric(sort, nth(albums, j), nth(albums, k));
            law_sorting_is_antisymmetric(sort, nth(albums, i), nth(albums, k));
            law_sorting_is_transitive(sort, nth(albums, k), nth(albums, j), nth(albums, i));
        }
    }
}

/// Whether the sort puts an album before another, or leaves it open and it comes first.
fn sorted_before(albums: &Vec<Album>, sort: SortOrder, i: usize, j: usize) -> (r: bool)
    requires
        i < albums.len(),
        j < albums.len(),
    ensures
        r == sorts_before(albums@, sort, i, j),
{
    match sort.cmp(&albums[i], &albums[j]) {
        Ordering::Less => true,
        Ordering::Equal => i < j,
        Ordering::Greater => false,
    }
}

fn album_rank(filter: &Filter, album: &Album) -> (r: Option<usize>)
    ensures
        match r {
            Some(n) => rank_under(filter@, *album) == Some(n as nat),
            None => rank_under(filter@, *album) is None,
        },
{
    if let Some(genre) = &filter.genre {
        if !same(genre.as_str(), album.genre.as_str()) {
            return None;
        }
    }
    if let Some(artist) = &filter.artist {
        if !same(artist.as_str(), album.artist.as_str()) {
            return None;
        }
    }
    rank(album.title.as_str(), filter.search.as_str())
}

/// The ranks of the first albums of a library under a filter.
spec fn ranked(ranks: Seq<Option<usize>>, albums: Seq<Album>, filter: FilterView) -> bool {
    &&& ranks.len() <= albums.len()
    &&& forall|k: int|
        0 <= k < ranks.len() ==> match #[trigger] ranks[k] {
            Some(n) => rank_under(filter, albums[k]) == Some(n as nat),
            None => rank_under(filter, albums[k]) is None,
        }
}

/// [`is_filtered`], of the first `n` albums alone.
spec fn is_filtered_upto(shown: Seq<usize>, albums: Seq<Album>, filter: FilterView, sort: SortOrder, n: int) -> bool {
    &&& forall|k: int| 0 <= k < shown.len() ==> (#[trigger] shown[k]) < n
    &&& forall|k: int|
        0 <= k < shown.len() ==> rank_under(filter, albums[#[trigger] shown[k] as int]) is Some
    &&& forall|i: usize| i < n && rank_under(filter, albums[i as int]) is Some ==> #[trigger] shown.contains(i)
    &&& forall|k: int, l: int|
        0 <= k < l < shown.len() ==> shown_before(
            albums,
            filter,
            sort,
            #[trigger] shown[k],
            #[trigger] shown[l],
        )
}

proof fn lemma_shown_before(albums: Seq<Album>, filter: FilterView, sort: SortOrder, i: usize, j: usize, k: usize)
    ensures
        i != j ==> shown_before(albums, filter, sort, i, j) || shown_before(albums, filter, sort, j, i),
        !(shown_before(albums, filter, sort, i, j) && shown_before(albums, filter, sort, j, i)),
        shown_before(albums, filter, sort, i, j) && shown_before(albums, filter, sort, j, k) ==> shown_before(
            albums,
            filter,
            sort,
            i,
            k,
        ),
{
    lemma_sorts_before(albums, sort, i, j, k);
}

/// Where the album `i` goes among those already placed.
fn place(
    shown: &Vec<usize>,
    albums: &Vec<Album>,
    ranks: &Vec<Option<usize>>,
    rank: usize,
    Ghost(filter): Ghost<FilterView>,
    sort: SortOrder,
    i: usize,
) -> (at: usize)
    requires
        i < albums.len(),
        ranked(ranks@, albums@, filter),
        ranks.len() == albums.len(),
        ranks[i as int] == Some(rank),
        is_filtered_upto(shown@, albums@, filter, sort, i as int),
    ensures
        at <= shown.len(),
        forall|k: int|
            0 <= k < at ==> shown_before(albums@, filter, sort, #[trigger] shown@[k], i),
        forall|k: int|
            at <= k < shown.len() ==> shown_before(albums@, filter, sort, i, #[trigger] shown@[k]),
{
    let mut lo: usize = 0;
    let mut hi: usize = shown.len();
    while lo < hi
        invariant
            lo <= hi <= shown.len(),
            i < albums.len(),
            ranked(ranks@, albums@, filter),
            ranks.len() == albums.len(),
            ranks[i as int] == Some(rank),
            is_filtered_upto(shown@, albums@, filter, sort, i as int),
            forall|k: int|
                0 <= k < lo ==> shown_before(albums@, filter, sort, #[trigger] shown@[k], i),
            forall|k: int|
                hi <= k < shown.len() ==> shown_before(
                    albums@,
                    filter,
                    sort,
                    i,
                    #[trigger] shown@[k],
                ),
        decreases hi - lo,
    {
        let mid: usize = lo + (hi - lo) / 2;
        let j: usize = shown[mid];
        assert(rank_under(filter, albums@[shown@[mid as int] as int]) is Some);
        let other: usize = match ranks[j] {
            Some(other) => other,
            None => 0,
        };
        let before: bool = other > rank || (other == rank && sorted_before(albums, sort, j, i));
        assert(before == shown_before(albums@, filter, sort, j, i));
        proof {
            lemma_shown_before(albums@, filter, sort, j, i, i);
        }
        if before {
            assert forall|k: int| 0 <= k < mid + 1 implies shown_before(
                albums@,
                filter,
                sort,
                #[trigger] shown@[k],
                i,
            ) by {
                if k < mid {
                    assert(shown_before(albums@, filter, sort, shown@[k], shown@[mid as int]));
                    lemma_shown_before(albums@, filter, sort, shown@[k], j, i);
                }
            }
            lo = mid + 1;
        } else {
            assert forall|k: int| mid <= k < shown.len() implies shown_before(
                albums@,
                filter,
                sort,
                i,
                #[trigger] shown@[k],
            ) by {
                if k > mid {
                    assert(shown_before(albums@, filter, sort, shown@[mid as int], shown@[k]));
                    lemma_shown_before(albums@, filter, sort, i, j, shown@[k]);
                }
            }
            hi = mid;
        }
    }
    lo
}

proof fn lemma_placed(
    shown: Seq<usize>,
    albums: Seq<Album>,
    filter: FilterView,
    sort: SortOrder,
    i: usize,
    at: int,
)
    requires
        i < albums.len(),
        rank_under(filter, albums[i as int]) is Some,
        is_filtered_upto(shown, albums, filter, sort, i as int),
        0 <= at <= shown.len(),
        forall|k: int| 0 <= k < at ==> shown_before(albums, filter, sort, #[trigger] shown[k], i),
        forall|k: int|
            at <= k < shown.len() ==> shown_before(albums, filter, sort, i, #[trigger] shown[k]),
    ensures
        is_filtered_upto(shown.insert(at, i), albums, filter, sort, i + 1),
{
    let after = shown.insert(at, i);
    assert forall|k: int| 0 <= k < after.len() implies (#[trigger] after[k]) < i + 1 && rank_under(
        filter,
        albums[after[k] as int],
    ) is Some by {
        if k < at {
            assert(after[k] == shown[k]);
        } else if k > at {
            assert(after[k] == shown[k - 1]);
        }
    }
    assert forall|j: usize| j < i + 1 && rank_under(filter, albums[j as int]) is Some implies #[trigger] after.contains(
        j,
    ) by {
        if j == i {
            assert(after[at] == i);
        } else {
            assert(shown.contains(j));
            let l = choose|l: int| 0 <= l < shown.len() && shown[l] == j;
            if l < at {
                assert(after[l] == j);
            } else {
                assert(after[l + 1] == j);
            }
        }
    }
    assert forall|k: int, l: int| 0 <= k < l < after.len() implies shown_before(
        albums,
        filter,
        sort,
        #[trigger] after[k],
        #[trigger] after[l],
    ) by {
        let a = if k < at {
            k
        } else {
            k - 1
        };
        let b = if l < at {
            l
        } else {
            l - 1
        };
        if k == at {
            assert(after[l] == shown[b]);
        } else if l == at {
            assert(after[k] == shown[a]);
        } else {
            assert(after[k] == shown[a]);
            assert(after[l] == shown[b]);
        }
    }
}

/// The albums that the filter lets through -- of the picked genre and by the picked artist (if any), whose
/// titles contain every whitespace-split word of the search (case-insensitively) -- as indices into
/// `albums`, in display order: by `sort`, except that a non-empty search ranks by match quality first.
pub fn filtered(albums: &Vec<Album>, filter: &Filter, sort: SortOrder) -> (shown: Vec<usize>)
    ensures
        is_filtered(shown@, albums@, filter@, sort),
{
    let mut ranks: Vec<Option<usize>> = Vec::new();
    while ranks.len() < albums.len()
        invariant
            ranked(ranks@, albums@, filter@),
        decreases albums.len() - ranks.len(),
    {
        let r: Option<usize> = album_rank(filter, &albums[ranks.len()]);
        ranks.push(r);
    }
    let mut shown: Vec<usize> = Vec::new();
    let mut i: usize = 0;
    while i < albums.len()
        invariant
            i <= albums.len(),
            ranks.len() == albums.len(),
            ranked(ranks@, albums@, filter@),
            is_filtered_upto(shown@, albums@, filter@, sort, i as int),
        decreases albums.len() - i,
    {
        if let Some(rank) = ranks[i] {
            let at: usize = place(&shown, albums, &ranks, rank, Ghost(filter@), sort, i);
            proof {
                lemma_placed(shown@, albums@, filter@, sort, i, at as int);
            }
            shown.insert(at, i);
        }
        i = i + 1;
    }
    shown
}

proof fn lemma_no_more(a: Seq<usize>, b: Seq<usize>, albums: Seq<Album>, filter: FilterView, sort: SortOrder, n: int)
    requires
        is_filtered(a, albums, filter, sort),
        is_filtered(b, albums, filter, sort),
        0 <= n <= a.len(),
        n <= b.len(),
        forall|k: int| 0 <= k < n ==> a[k] == b[k],
    ensures
        a == b,
    decreases a.len() - n,
{
    if n < a.len() {
        assert(b.contains(a[n]));
        let l = choose|l: int| 0 <= l < b.len() && b[l] == a[n];
        if l < n {
            assert(a[l] == a[n]);
            lemma_shown_before(albums, filter, sort, a[l], a[n], 0);
        }
        assert(n < b.len());
        assert(a.contains(b[n]));
        let m = choose|m: int| 0 <= m < a.len() && a[m] == b[n];
        if m < n {
            assert(b[m] == b[n]);
            lemma_shown_before(albums, filter, sort, b[m], b[n], 0);
        }
        if l > n && m > n {
            assert(shown_before(albums, filter, sort, b[n], b[l]));
            assert(shown_before(albums, filter, sort, a[n], a[m]));
            lemma_shown_before(albums, filter, sort, a[n], b[n], 0);
        }
        lemma_no_more(a, b, albums, filter, sort, n + 1);
    } else if n < b.len() {
        assert(a.contains(b[n]));
        let m = choose|m: int| 0 <= m < a.len() && a[m] == b[n];
        assert(b[m] == b[n]);
        lemma_shown_before(albums, filter, sort, b[m], b[n], 0);
    } else {
        assert(a =~= b);
    }
}

/// What is shown, and in what order, is settled by the library, the filter and the sort.
pub proof fn law_the_shown_albums_are_settled(
    a: Seq<usize>,
    b: Seq<usize>,
    albums: Seq<Album>,
    filter: FilterView,
    sort: SortOrder,
)
    requires
        is_filtered(a, albums, filter, sort),
        is_filtered(b, albums, filter, sort),
    ensures
        a == b,
{
    lemma_no_more(a, b, albums, filter, sort, 0);
}

/// What is shown rests on the albums' names, genres, years and ids alone.
pub(crate) proof fn lemma_same_albums_show_the_same(
    shown: Seq<usize>,
    a: Seq<Album>,
    b: Seq<Album>,
    filter: FilterView,
    sort: SortOrder,
)
    requires
        a.len() == b.len(),
        forall|k: int|
            0 <= k < a.len() ==> {
                let x = #[trigger] b[k];
                x.id == a[k].id && x.title == a[k].title && x.artist == a[k].artist && x.genre == a[k].genre && x.year
                    == a[k].year
            },
        is_filtered(shown, a, filter, sort),
    ensures
        is_filtered(shown, b, filter, sort),
{
    assert forall|i: usize| i < a.len() implies #[trigger] rank_under(filter, nth(b, i)) == rank_under(
        filter,
        nth(a, i),
    ) by {}
    assert forall|k: int| 0 <= k < shown.len() implies (#[trigger] shown[k]) < b.len() && rank_under(
        filter,
        b[shown[k] as int],
    ) is Some by {
        assert(rank_under(filter, nth(b, shown[k])) == rank_under(filter, nth(a, shown[k])));
    }
    assert forall|i: usize| i < b.len() && rank_under(filter, b[i as int]) is Some implies #[trigger] shown.contains(
        i,
    ) by {
        assert(rank_under(filter, nth(b, i)) == rank_under(filter, nth(a, i)));
    }
    assert forall|k: int, l: int| 0 <= k < l < shown.len() implies shown_before(
        b,
        filter,
        sort,
        #[trigger] shown[k],
        #[trigger] shown[l],
    ) by {
        assert(shown_before(a, filter, sort, shown[k], shown[l]));
        assert(rank_under(filter, nth(b, shown[k])) == rank_under(filter, nth(a, shown[k])));
        assert(rank_under(filter, nth(b, shown[l])) == rank_under(filter, nth(a, shown[l])));
        lemma_sorts_the_same(a, b, sort, shown[k], shown[l]);
    }
}

proof fn lemma_sorts_the_same(a: Seq<Album>, b: Seq<Album>, sort: SortOrder, i: usize, j: usize)
    requires
        nth(b, i).id == nth(a, i).id,
        nth(b, i).title == nth(a, i).title,
        nth(b, i).artist == nth(a, i).artist,
        nth(b, i).year == nth(a, i).year,
        nth(b, j).id == nth(a, j).id,
        nth(b, j).title == nth(a, j).title,
        nth(b, j).artist == nth(a, j).artist,
        nth(b, j).year == nth(a, j).year,
    ensures
        sorts_before(b, sort, i, j) == sorts_before(a, sort, i, j),
{
}

/// Where nothing is picked and the search is blank, every album is shown, in the order of the sort alone.
pub proof fn law_without_a_filter_all_is_shown(
    shown: Seq<usize>,
    albums: Seq<Album>,
    filter: FilterView,
    sort: SortOrder,
)
    requires
        filter.genre is None,
        filter.artist is None,
        is_blank(lowercase(filter.search)),
        is_filtered(shown, albums, filter, sort),
    ensures
        forall|i: usize| i < albums.len() ==> #[trigger] shown.contains(i),
        forall|k: int, l: int|
            0 <= k < l < shown.len() ==> sorts_before(
                albums,
                sort,
                #[trigger] shown[k],
                #[trigger] shown[l],
            ),
{
    assert(forall|i: int| #[trigger] rank_under(filter, albums[i]) == Some(0nat));
    assert forall|k: int, l: int| 0 <= k < l < shown.len() implies sorts_before(
        albums,
        sort,
        #[trigger] shown[k],
        #[trigger] shown[l],
    ) by {
        assert(shown_before(albums, filter, sort, shown[k], shown[l]));
        assert(rank_under(filter, albums[shown[k] as int]) == Some(0nat));
        assert(rank_under(filter, albums[shown[l] as int]) == Some(0nat));
    }
    assert forall|i: usize| i < albums.len() implies #[trigger] shown.contains(i) by {
        assert(rank_under(filter, albums[i as int]) == Some(0nat));
    }
}

/// What a picker picks a filter value for.
#[derive(Debug, Clone, Copy, PartialEq, Eq, Structural)]
pub enum PickerSubject {
    Genre,
    Artist,
}

/// The value of an album that a picker for `subject` offers, if any. Untagged albums contribute no genre.
pub open spec fn value_of(album: Album, subject: PickerSubject) -> Option<Seq<char>> {
    match subject {
        PickerSubject::Genre => if album.genre@.len() == 0 {
            None
        } else {
            Some(album.genre@)
        },
        PickerSubject::Artist => Some(album.artist@),
    }
}

/// Some album of a library has the given value.
pub open spec fn is_value(text: Seq<char>, albums: Seq<Album>, subject: PickerSubject) -> bool {
    exists|k: int| 0 <= k < albums.len() && value_of(#[trigger] albums[k], subject) == Some(text)
}

/// A text comes before another.
pub open spec fn text_before(a: Seq<char>, b: Seq<char>) -> bool {
    text_ordering(a, b, 0) is Less
}

/// Some texts hold the given one.
pub open spec fn holds(options: Seq<String>, text: Seq<char>) -> bool {
    exists|k: int| 0 <= k < options.len() && (#[trigger] options[k])@ == text
}

/// `options` are the distinct values of a library, sorted.
pub open spec fn are_options(options: Seq<String>, albums: Seq<Album>, subject: PickerSubject) -> bool {
    &&& forall|k: int| 0 <= k < options.len() ==> is_value((#[trigger] options[k])@, albums, subject)
    &&& forall|k: int|
        0 <= k < albums.len() ==> match value_of(#[trigger] albums[k], subject) {
            Some(text) => holds(options, text),
            None => true,
        }
    &&& forall|k: int, l: int|
        0 <= k < l < options.len() ==> text_before((#[trigger] options[k])@, (#[trigger] options[l])@)
}

proof fn lemma_text_before(a: Seq<char>, b: Seq<char>, c: Seq<char>)
    ensures
        text_before(a, b) && text_before(b, c) ==> text_before(a, c),
        text_ordering(a, b, 0) is Greater ==> text_before(b, a),
        text_ordering(a, b, 0) is Equal ==> a == b,
{
    crate::sort::lemma_text_order_reversed(a, b, 0);
    if text_before(a, b) && text_before(b, c) {
        crate::sort::lemma_text_order_transitive(a, b, c, 0);
    }
    if text_ordering(a, b, 0) is Equal {
        crate::sort::lemma_equal_texts(a, b, 0);
    }
}

/// The `k`-th of some texts.
spec fn text_at(options: Seq<String>, k: usize) -> Seq<char> {
    options[k as int]@
}

/// Where a text goes among some sorted ones: the slot, and whether it is there already.
fn slot_for(options: &Vec<String>, text: &str) -> (r: (usize, bool))
    requires
        forall|k: int, l: int|
            0 <= k < l < options.len() ==> text_before((#[trigger] options@[k])@, (#[trigger] options@[l])@),
    ensures
        r.0 <= options.len(),
        r.1 ==> r.0 < options.len() && text_at(options@, r.0) == text@,
        !r.1 ==> forall|k: int| 0 <= k < r.0 ==> text_before((#[trigger] options@[k])@, text@),
        !r.1 ==> forall|k: int| r.0 <= k < options.len() ==> text_before(text@, (#[trigger] options@[k])@),
{
    let mut lo: usize = 0;
    let mut hi: usize = options.len();
    while lo < hi
        invariant
            lo <= hi <= options.len(),
            forall|k: int, l: int|
                0 <= k < l < options.len() ==> text_before((#[trigger] options@[k])@, (#[trigger] options@[l])@),
            forall|k: int| 0 <= k < lo ==> text_before((#[trigger] options@[k])@, text@),
            forall|k: int| hi <= k < options.len() ==> text_before(text@, (#[trigger] options@[k])@),
        decreases hi - lo,
    {
        let mid: usize = lo + (hi - lo) / 2;
        match compare_texts(options[mid].as_str(), text) {
            Ordering::Less => {
                assert forall|k: int| 0 <= k < mid + 1 implies text_before((#[trigger] options@[k])@, text@) by {
                    lemma_text_before(options@[k]@, text_at(options@, mid), text@);
                }
                lo = mid + 1;
            },
            Ordering::Greater => {
                proof {
                    lemma_text_before(text_at(options@, mid), text@, text@);
                }
                assert forall|k: int| mid <= k < options.len() implies text_before(
                    text@,
                    (#[trigger] options@[k])@,
                ) by {
                    lemma_text_before(text@, text_at(options@, mid), options@[k]@);
                }
                hi = mid;
            },
            Ordering::Equal => {
                proof {
                    lemma_text_before(text_at(options@, mid), text@, text@);
                }
                return (mid, true);
            },
        }
    }
    (lo, false)
}

/// The values the picker for `subject` searches over: every distinct value in the library,
/// sorted. Untagged albums contribute no genre; they show only under "(all)".
pub fn picker_options(albums: &Vec<Album>, subject: PickerSubject) -> (options: Vec<String>)
    ensures
        are_options(options@, albums@, subject),
{
    let mut options: Vec<String> = Vec::new();
    let mut i: usize = 0;
    while i < albums.len()
        invariant
            i <= albums.len(),
            are_options(options@, albums@.take(i as int), subject),
        decreases albums.len() - i,
    {
        let ghost before = options@;
        let ghost first = albums@.take(i as int);
        let ghost upto = albums@.take(i + 1);
        assert(forall|k: int| 0 <= k < i ==> first[k] == upto[k]);
        let value: Option<&String> = match subject {
            PickerSubject::Genre => if albums[i].genre.as_str().unicode_len() == 0 {
                None
            } else {
                Some(&albums[i].genre)
            },
            PickerSubject::Artist => Some(&albums[i].artist),
        };
        if let Some(value) = value {
            assert(value_of(upto[i as int], subject) == Some(value@));
            let (slot, there) = slot_for(&options, value.as_str());
            if !there {
                options.insert(slot, value.clone());
            }
            proof {
                if !there {
                    assert(options@ == before.insert(slot as int, options@[slot as int]));
                    assert(options@[slot as int]@ == value@);
                }
                lemma_option_in(before, options@, slot as int, there, albums@, subject, i as int, value@);
            }
        } else {
            assert(value_of(upto[i as int], subject) is None);
            assert forall|k: int| 0 <= k < options.len() implies is_value(
                (#[trigger] options@[k])@,
                upto,
                subject,
            ) by {
                lemma_value_stays(options@[k]@, albums@, subject, i as int);
            }
            assert forall|k: int| 0 <= k < upto.len() implies match value_of(#[trigger] upto[k], subject) {
                Some(text) => holds(options@, text),
                None => true,
            } by {
                if k < i {
                    assert(first[k] == upto[k]);
                }
            }
        }
        i = i + 1;
    }
    assert(albums@.take(i as int) =~= albums@);
    options
}

proof fn lemma_value_stays(text: Seq<char>, albums: Seq<Album>, subject: PickerSubject, i: int)
    requires
        0 <= i < albums.len(),
        is_value(text, albums.take(i), subject),
    ensures
        is_value(text, albums.take(i + 1), subject),
{
    let first = albums.take(i);
    let k = choose|k: int| 0 <= k < first.len() && value_of(#[trigger] first[k], subject) == Some(text);
    assert(albums.take(i + 1)[k] == first[k]);
}

proof fn lemma_option_in(
    before: Seq<String>,
    after: Seq<String>,
    slot: int,
    there: bool,
    albums: Seq<Album>,
    subject: PickerSubject,
    i: int,
    value: Seq<char>,
)
    requires
        0 <= i < albums.len(),
        are_options(before, albums.take(i), subject),
        value_of(albums[i], subject) == Some(value),
        0 <= slot <= before.len(),
        there ==> after == before && slot < before.len() && before[slot]@ == value,
        !there ==> after == before.insert(slot, after[slot]) && after[slot]@ == value,
        !there ==> forall|k: int| 0 <= k < slot ==> text_before((#[trigger] before[k])@, value),
        !there ==> forall|k: int| slot <= k < before.len() ==> text_before(value, (#[trigger] before[k])@),
    ensures
        are_options(after, albums.take(i + 1), subject),
{
    let first = albums.take(i);
    let upto = albums.take(i + 1);
    assert(upto[i] == albums[i]);
    assert(is_value(value, upto, subject));
    assert forall|k: int| 0 <= k < after.len() implies is_value((#[trigger] after[k])@, upto, subject) by {
        if there {
            lemma_value_stays(before[k]@, albums, subject, i);
        } else if k < slot {
            assert(after[k] == before[k]);
            lemma_value_stays(before[k]@, albums, subject, i);
        } else if k > slot {
            assert(after[k] == before[k - 1]);
            lemma_value_stays(before[k - 1]@, albums, subject, i);
        }
    }
    assert forall|k: int| 0 <= k < upto.len() implies match value_of(#[trigger] upto[k], subject) {
        Some(text) => holds(after, text),
        None => true,
    } by {
        if k < i {
            assert(first[k] == upto[k]);
            match value_of(first[k], subject) {
                Some(text) => {
                    let l = choose|l: int| 0 <= l < before.len() && (#[trigger] before[l])@ == text;
                    if there {
                        assert(after[l]@ == text);
                    } else if l < slot {
                        assert(after[l]@ == text);
                    } else {
                        assert(after[l + 1]@ == text);
                    }
                },
                None => {},
            }
        } else {
            assert(after[slot]@ == value);
        }
    }
    assert forall|k: int, l: int| 0 <= k < l < after.len() implies text_before(
        (#[trigger] after[k])@,
        (#[trigger] after[l])@,
    ) by {
        if !there {
            let a = if k < slot {
                k
            } else {
                k - 1
            };
            let b = if l < slot {
                l
            } else {
                l - 1
            };
            if k == slot {
                assert(after[l] == before[b]);
            } else if l == slot {
                assert(after[k] == before[a]);
            } else {
                assert(after[k] == before[a]);
                assert(after[l] == before[b]);
            }
        }
    }
}

/// `found` are the values of a library that `query` matches, best first, and sorted where the search
/// leaves it open.
pub open spec fn are_picker_matches(
    found: Seq<String>,
    albums: Seq<Album>,
    subject: PickerSubject,
    query: Seq<char>,
) -> bool {
    exists|options: Seq<String>|
        #[trigger] are_options(options, albums, subject) && are_matches(found, options, query)
}

/// The picker's matches for its current query: the subject's values ranked like the album search
/// (every word contained; longest common substring breaks ties, stably).
pub fn picker_matches(albums: &Vec<Album>, subject: PickerSubject, query: &str) -> (found: Vec<String>)
    ensures
        are_picker_matches(found@, albums@, subject, query@),
{
    let options: Vec<String> = picker_options(albums, subject);
    crate::search::matches(&options, query)
}

/// What is shown is what the filter asks for: of the picked genre and by the picked artist exactly, with a title
/// that the search finds. Each such album is shown, and once; the better match comes first, and of two that
/// match as well the one that the sort puts first.
pub proof fn law_the_filter_is_all_of_its_parts(
    shown: Seq<usize>,
    albums: Seq<Album>,
    filter: FilterView,
    sort: SortOrder,
    i: usize,
    k: int,
    l: int,
)
    requires
        is_filtered(shown, albums, filter, sort),
        i < albums.len(),
    ensures
        ({
            let album = nth(albums, i);
            shown.contains(i) <==> {
                &&& filter.genre is None || filter.genre->0 == album.genre@
                &&& filter.artist is None || filter.artist->0 == album.artist@
                &&& rank_of(album.title@, filter.search) is Some
            }
        }),
        0 <= k < l < shown.len() ==> {
            let a = nth(albums, shown[k]);
            let b = nth(albums, shown[l]);
            let better = rank_of(a.title@, filter.search)->0;
            let worse = rank_of(b.title@, filter.search)->0;
            &&& shown[k] != shown[l]
            &&& better >= worse
            &&& better == worse ==> sort.album_ordering(a, b) !is Greater
            &&& better == worse && sort.album_ordering(a, b) is Equal ==> shown[k] < shown[l]
        },
{
    if shown.contains(i) {
        let m = choose|m: int| 0 <= m < shown.len() && shown[m] == i;
        assert(rank_under(filter, nth(albums, shown[m])) is Some);
    }
    if 0 <= k < l < shown.len() {
        assert(shown_before(albums, filter, sort, shown[k], shown[l]));
        lemma_shown_before(albums, filter, sort, shown[k], shown[l], shown[l]);
        assert(rank_under(filter, nth(albums, shown[k])) is Some);
        assert(rank_under(filter, nth(albums, shown[l])) is Some);
    }
}

/// A picker offers the genres, or the artists, of the library: each of them once, no empty genre, and in
/// alphabetical order.
pub proof fn law_a_picker_offers_what_the_library_has(options: Seq<String>, albums: Seq<Album>, subject: PickerSubject, i: int)
    requires
        are_options(options, albums, subject),
        0 <= i < albums.len(),
    ensures
        subject == PickerSubject::Artist ==> exists|k: int|
            0 <= k < options.len() && (#[trigger] options[k])@ == albums[i].artist@,
        subject == PickerSubject::Genre && albums[i].genre@.len() > 0 ==> exists|k: int|
            0 <= k < options.len() && (#[trigger] options[k])@ == albums[i].genre@,
        forall|k: int|
            0 <= k < options.len() ==> exists|n: int|
                0 <= n < albums.len() && (#[trigger] options[k])@ == match subject {
                    PickerSubject::Genre => (#[trigger] albums[n]).genre@,
                    PickerSubject::Artist => albums[n].artist@,
                },
        subject == PickerSubject::Genre ==> forall|k: int| 0 <= k < options.len() ==> (#[trigger] options[k])@.len() > 0,
        forall|k: int, l: int|
            0 <= k < l < options.len() ==> text_ordering((#[trigger] options[k])@, (#[trigger] options[l])@, 0)
                == Ordering::Less,
{
    match value_of(albums[i], subject) {
        Some(text) => {
            assert(holds(options, text));
        },
        None => {},
    }
    assert forall|k: int| 0 <= k < options.len() implies exists|n: int|
        0 <= n < albums.len() && (#[trigger] options[k])@ == match subject {
            PickerSubject::Genre => (#[trigger] albums[n]).genre@,
            PickerSubject::Artist => albums[n].artist@,
        } by {
        assert(is_value(options[k]@, albums, subject));
        let n = choose|n: int| 0 <= n < albums.len() && value_of(#[trigger] albums[n], subject) == Some(options[k]@);
        assert(albums[n].genre@ == albums[n].genre@);
    }
    assert forall|k: int| 0 <= k < options.len() && subject == PickerSubject::Genre implies (#[trigger] options[k])@.len()
        > 0 by {
        assert(is_value(options[k]@, albums, subject));
    }
}

} // verus!
