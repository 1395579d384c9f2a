//! Album ordering: a small [`SortOrder`] yielding a total [`SortOrder::cmp`] over
//! [`Album`]s, for a browser to arrange them by and to persist as a user's choice.

use crate::library::Album;
use crate::text::{chars_of, lowercase, lowercased};
use std::cmp::Ordering;
use vstd::prelude::*;
use vstd::string::*;

verus! {

/// A sort direction, shown in the UI as ascending ↑ / descending ↓.
#[derive(Debug, Clone, Copy, PartialEq, Eq, Structural)]
pub enum Dir {
    Asc,
    Desc,
}

/// The other way round.
pub open spec fn ordering_reversed(ord: Ordering) -> Ordering {
    match ord {
        Ordering::Less => Ordering::Greater,
        Ordering::Equal => Ordering::Equal,
        Ordering::Greater => Ordering::Less,
    }
}

/// The first of two orders, and the second where that leaves it open.
pub open spec fn ordering_or(first: Ordering, second: Ordering) -> Ordering {
    match first {
        Ordering::Equal => second,
        other => other,
    }
}

/// The order of two texts by their code points, from the `i`-th on.
pub open spec fn text_ordering(a: Seq<char>, b: Seq<char>, i: int) -> Ordering
    decreases a.len() - i,
{
    if i >= a.len() && i >= b.len() {
        Ordering::Equal
    } else if i >= a.len() {
        Ordering::Less
    } else if i >= b.len() {
        Ordering::Greater
    } else if a[i] < b[i] {
        Ordering::Less
    } else if a[i] > b[i] {
        Ordering::Greater
    } else {
        text_ordering(a, b, i + 1)
    }
}

/// The order of two numbers.
pub open spec fn number_ordering(a: u64, b: u64) -> Ordering {
    if a < b {
        Ordering::Less
    } else if a > b {
        Ordering::Greater
    } else {
        Ordering::Equal
    }
}

/// The order of two years; none is the smallest.
pub open spec fn year_ordering(a: Option<u32>, b: Option<u32>) -> Ordering {
    match (a, b) {
        (None, None) => Ordering::Equal,
        (None, Some(_)) => Ordering::Less,
        (Some(_), None) => Ordering::Greater,
        (Some(x), Some(y)) => if x < y {
            Ordering::Less
        } else if x > y {
            Ordering::Greater
        } else {
            Ordering::Equal
        },
    }
}

/// A position, as a number.
spec fn index(i: usize) -> int {
    i as int
}

/// Compares two texts by their code points.
pub fn compare_texts(a: &str, b: &str) -> (ord: Ordering)
    ensures
        ord == text_ordering(a@, b@, 0),
{
    let x: Vec<char> = chars_of(a);
    let y: Vec<char> = chars_of(b);
    let mut i: usize = 0;
    while i < x.len() && i < y.len()
        invariant
            i <= x.len(),
            i <= y.len(),
            x@ == a@,
            y@ == b@,
            text_ordering(a@, b@, 0) == text_ordering(a@, b@, index(i)),
        decreases x.len() - i,
    {
        if x[i] < y[i] {
            return Ordering::Less;
        }
        if x[i] > y[i] {
            return Ordering::Greater;
        }
        i = i + 1;
    }
    if i < y.len() {
        Ordering::Less
    } else if i < x.len() {
        Ordering::Greater
    } else {
        Ordering::Equal
    }
}

fn compare_years(a: Option<u32>, b: Option<u32>) -> (ord: Ordering)
    ensures
        ord == year_ordering(a, b),
{
    match (a, b) {
        (None, None) => Ordering::Equal,
        (None, Some(_)) => Ordering::Less,
        (Some(_), None) => Ordering::Greater,
        (Some(x), Some(y)) => if x < y {
            Ordering::Less
        } else if x > y {
            Ordering::Greater
        } else {
            Ordering::Equal
        },
    }
}

impl Dir {
    pub open spec fn ordering_oriented(self, ord: Ordering) -> Ordering {
        match self {
            Dir::Asc => ord,
            Dir::Desc => ordering_reversed(ord),
        }
    }

    /// Orients an ascending comparison to this direction.
    pub fn apply(self, ord: Ordering) -> (r: Ordering)
        ensures
            r == self.ordering_oriented(ord),
    {
        match self {
            Dir::Asc => ord,
            Dir::Desc => match ord {
                Ordering::Less => Ordering::Greater,
                Ordering::Equal => Ordering::Equal,
                Ordering::Greater => Ordering::Less,
            },
        }
    }

    pub open spec fn arrow_text(self) -> Seq<char> {
        match self {
            Dir::Asc => "↑"@,
            Dir::Desc => "↓"@,
        }
    }

    pub fn arrow(self) -> (s: &'static str)
        ensures
            s@ == self.arrow_text(),
    {
        match self {
            Dir::Asc => "↑",
            Dir::Desc => "↓",
        }
    }
}

/// The album attribute a sort orders by within a group.
#[derive(Debug, Clone, Copy, PartialEq, Eq, Structural)]
pub enum SortField {
    Name,
    Year,
}

/// An optional artist grouping (the groups ordered by artist name in the given direction), then the
/// field within each group. [`SortOrder::all`] is every combination, for a picker to offer.
#[derive(Debug, Clone, Copy, PartialEq, Eq, Structural)]
pub struct SortOrder {
    /// `Some(dir)` groups albums by artist and orders the groups by artist name in `dir`; `None`
    /// sorts the whole library by the field alone.
    pub group_by_artist: Option<Dir>,
    pub field: SortField,
    pub field_dir: Dir,
}

impl Default for SortOrder {
    /// "Name ↑": the whole library by album name, ascending (A–Z).
    fn default() -> (sort: Self)
        ensures
            sort == (SortOrder {
                group_by_artist: None,
                field: SortField::Name,
                field_dir: Dir::Asc,
            }),
    {
        SortOrder { group_by_artist: None, field: SortField::Name, field_dir: Dir::Asc }
    }
}

/// A sort order from its parts.
pub open spec fn sorting(group_by_artist: Option<Dir>, field: SortField, field_dir: Dir) -> SortOrder {
    SortOrder { group_by_artist, field, field_dir }
}

fn sort_by(group_by_artist: Option<Dir>, field: SortField, field_dir: Dir) -> (s: SortOrder)
    ensures
        s == sorting(group_by_artist, field, field_dir),
{
    SortOrder { group_by_artist, field, field_dir }
}

impl SortOrder {
    /// Every order, in a sensible display order: the ungrouped fields first, then the
    /// artist-grouped ones; ascending above descending throughout (the artist grouping's direction
    /// leads, then the field's), so the default "Name ↑" heads the list.
    pub open spec fn every() -> Seq<SortOrder> {
        seq![
            sorting(None, SortField::Name, Dir::Asc),
            sorting(None, SortField::Name, Dir::Desc),
            sorting(None, SortField::Year, Dir::Asc),
            sorting(None, SortField::Year, Dir::Desc),
            sorting(Some(Dir::Asc), SortField::Name, Dir::Asc),
            sorting(Some(Dir::Asc), SortField::Name, Dir::Desc),
            sorting(Some(Dir::Desc), SortField::Name, Dir::Asc),
            sorting(Some(Dir::Desc), SortField::Name, Dir::Desc),
            sorting(Some(Dir::Asc), SortField::Year, Dir::Asc),
            sorting(Some(Dir::Asc), SortField::Year, Dir::Desc),
            sorting(Some(Dir::Desc), SortField::Year, Dir::Asc),
            sorting(Some(Dir::Desc), SortField::Year, Dir::Desc),
        ]
    }

    /// Every order, for a picker to offer.
    pub fn all() -> (all: [SortOrder; 12])
        ensures
            all@ == SortOrder::every(),
    {
        let all: [SortOrder; 12] = [
            sort_by(None, SortField::Name, Dir::Asc),
            sort_by(None, SortField::Name, Dir::Desc),
            sort_by(None, SortField::Year, Dir::Asc),
            sort_by(None, SortField::Year, Dir::Desc),
            sort_by(Some(Dir::Asc), SortField::Name, Dir::Asc),
            sort_by(Some(Dir::Asc), SortField::Name, Dir::Desc),
            sort_by(Some(Dir::Desc), SortField::Name, Dir::Asc),
            sort_by(Some(Dir::Desc), SortField::Name, Dir::Desc),
            sort_by(Some(Dir::Asc), SortField::Year, Dir::Asc),
            sort_by(Some(Dir::Asc), SortField::Year, Dir::Desc),
            sort_by(Some(Dir::Desc), SortField::Year, Dir::Asc),
            sort_by(Some(Dir::Desc), SortField::Year, Dir::Desc),
        ];
        assert(all@ =~= SortOrder::every());
        all
    }

    pub open spec fn field_text(self) -> Seq<char> {
        match self.field {
            SortField::Name => "Name"@,
            SortField::Year => "Year"@,
        }
    }

    pub open spec fn label_text(self) -> Seq<char> {
        let field = self.field_text() + " "@ + self.field_dir.arrow_text();
        match self.group_by_artist {
            Some(dir) => "Artist "@ + dir.arrow_text() + ", "@ + field,
            None => field,
        }
    }

    /// The chip/menu label, e.g. "Name ↓" or "Artist ↓, Year ↑".
    pub fn label(self) -> (label: String)
        ensures
            label@ == self.label_text(),
    {
        let mut label: String = String::new();
        match self.group_by_artist {
            Some(dir) => {
                label.append("Artist ");
                label.append(dir.arrow());
                label.append(", ");
            },
            None => {},
        }
        match self.field {
            SortField::Name => label.append("Name"),
            SortField::Year => label.append("Year"),
        }
        label.append(" ");
        label.append(self.field_dir.arrow());
        assert(label@ =~= self.label_text());
        label
    }

    /// The order of two albums by this sort.
    pub open spec fn album_ordering(self, a: Album, b: Album) -> Ordering {
        let by_name = text_ordering(lowercase(a.title@), lowercase(b.title@), 0);
        let group = match self.group_by_artist {
            Some(dir) => dir.ordering_oriented(text_ordering(lowercase(a.artist@), lowercase(b.artist@), 0)),
            None => Ordering::Equal,
        };
        let field = match self.field {
            SortField::Name => by_name,
            SortField::Year => year_ordering(a.year, b.year),
        };
        ordering_or(
            group,
            ordering_or(self.field_dir.ordering_oriented(field), ordering_or(by_name, number_ordering(a.id, b.id))),
        )
    }

    /// Orders two albums by this sort. Artist grouping (when enabled) is the primary key; then the
    /// field; then a fixed name/id tiebreak, so equal keys keep a stable, repeatable order. A
    /// missing year sorts as the smallest value (last under a descending year sort).
    pub fn cmp(self, a: &Album, b: &Album) -> (ord: Ordering)
        ensures
            ord == self.album_ordering(*a, *b),
    {
        let a_title: String = lowercased(a.title.as_str());
        let b_title: String = lowercased(b.title.as_str());
        let by_name: Ordering = compare_texts(a_title.as_str(), b_title.as_str());
        let group: Ordering = match self.group_by_artist {
            Some(dir) => {
                let a_artist: String = lowercased(a.artist.as_str());
                let b_artist: String = lowercased(b.artist.as_str());
                dir.apply(compare_texts(a_artist.as_str(), b_artist.as_str()))
            },
            None => Ordering::Equal,
        };
        let field: Ordering = match self.field {
            SortField::Name => by_name,
            SortField::Year => compare_years(a.year, b.year),
        };
        match group {
            Ordering::Equal => {},
            other => return other,
        }
        match self.field_dir.apply(field) {
            Ordering::Equal => {},
            other => return other,
        }
        match by_name {
            Ordering::Equal => {},
            other => return other,
        }
        if a.id < b.id {
            Ordering::Less
        } else if a.id > b.id {
            Ordering::Greater
        } else {
            Ordering::Equal
        }
    }
}

pub(crate) proof fn lemma_text_order_reversed(a: Seq<char>, b: Seq<char>, i: int)
    ensures
        text_ordering(b, a, i) == ordering_reversed(text_ordering(a, b, i)),
    decreases a.len() - i,
{
    if i < a.len() && i < b.len() && a[i] == b[i] {
        lemma_text_order_reversed(a, b, i + 1);
    }
}

pub(crate) proof fn lemma_text_order_transitive(a: Seq<char>, b: Seq<char>, c: Seq<char>, i: int)
    requires
        text_ordering(a, b, i) !is Greater,
        text_ordering(b, c, i) !is Greater,
    ensures
        text_ordering(a, c, i) !is Greater,
        text_ordering(a, b, i) is Less || text_ordering(b, c, i) is Less ==> text_ordering(a, c, i) is Less,
    decreases a.len() - i,
{
    if i < a.len() && i < b.len() && i < c.len() && a[i] == b[i] && b[i] == c[i] {
        lemma_text_order_transitive(a, b, c, i + 1);
    }
}

/// Comparing two albums the other way round gives the opposite order.
pub proof fn law_sorting_is_antisymmetric(sort: SortOrder, a: Album, b: Album)
    ensures
        sort.album_ordering(b, a) == ordering_reversed(sort.album_ordering(a, b)),
{
    lemma_text_order_reversed(lowercase(a.title@), lowercase(b.title@), 0);
    lemma_text_order_reversed(lowercase(a.artist@), lowercase(b.artist@), 0);
}

/// An album that is not behind another, which in turn is not behind a third, is not behind the third;
/// and it is before it where it is before the other or the other is before the third.
pub proof fn law_sorting_is_transitive(sort: SortOrder, a: Album, b: Album, c: Album)
    requires
        sort.album_ordering(a, b) !is Greater,
        sort.album_ordering(b, c) !is Greater,
    ensures
        sort.album_ordering(a, c) !is Greater,
        sort.album_ordering(a, b) is Less || sort.album_ordering(b, c) is Less ==> sort.album_ordering(a, c) is Less,
{
    lemma_texts(lowercase(a.title@), lowercase(b.title@), lowercase(c.title@));
    lemma_texts(lowercase(a.artist@), lowercase(b.artist@), lowercase(c.artist@));
}

proof fn lemma_texts(a: Seq<char>, b: Seq<char>, c: Seq<char>)
    ensures
        text_ordering(a, b, 0) !is Greater && text_ordering(b, c, 0) !is Greater ==> text_ordering(a, c, 0)
            !is Greater && (text_ordering(a, b, 0) is Less || text_ordering(b, c, 0) is Less ==> text_ordering(
            a,
            c,
            0,
        ) is Less),
        text_ordering(a, b, 0) !is Less && text_ordering(b, c, 0) !is Less ==> text_ordering(a, c, 0) !is Less && (
        text_ordering(a, b, 0) is Greater || text_ordering(b, c, 0) is Greater ==> text_ordering(a, c, 0)
            is Greater),
{
    if text_ordering(a, b, 0) !is Greater && text_ordering(b, c, 0) !is Greater {
        lemma_text_order_transitive(a, b, c, 0);
    }
    if text_ordering(a, b, 0) !is Less && text_ordering(b, c, 0) !is Less {
        lemma_text_order_reversed(a, b, 0);
        lemma_text_order_reversed(b, c, 0);
        lemma_text_order_reversed(a, c, 0);
        lemma_text_order_transitive(c, b, a, 0);
    }
}

/// Two albums that a sort holds equal have the same id and, up to case, the same title: the order of a
/// library with distinct ids is settled.
pub proof fn law_sorting_tells_albums_apart(sort: SortOrder, a: Album, b: Album)
    requires
        sort.album_ordering(a, b) is Equal,
    ensures
        a.id == b.id,
        lowercase(a.title@) == lowercase(b.title@),
{
    lemma_equal_texts(lowercase(a.title@), lowercase(b.title@), 0);
}

pub(crate) proof fn lemma_equal_texts(a: Seq<char>, b: Seq<char>, i: int)
    requires
        text_ordering(a, b, i) is Equal,
        0 <= i <= a.len(),
        i <= b.len(),
        forall|k: int| 0 <= k < i ==> a[k] == b[k],
    ensures
        a == b,
    decreases a.len() - i,
{
    if i < a.len() && i < b.len() {
        lemma_equal_texts(a, b, i + 1);
    } else {
        assert(a =~= b);
    }
}

/// Two texts compare as their first difference does: where they agree up to the `i`-th character, the one
/// that ends there or has the smaller character there comes first, and they are equal only where both end.
pub proof fn law_texts_compare_at_their_first_difference(a: Seq<char>, b: Seq<char>, i: int)
    requires
        0 <= i <= a.len(),
        i <= b.len(),
        forall|k: int| 0 <= k < i ==> a[k] == b[k],
    ensures
        i < a.len() && i < b.len() && a[i] < b[i] ==> text_ordering(a, b, 0) == Ordering::Less,
        i < a.len() && i < b.len() && a[i] > b[i] ==> text_ordering(a, b, 0) == Ordering::Greater,
        i == a.len() && i < b.len() ==> text_ordering(a, b, 0) == Ordering::Less,
        i < a.len() && i == b.len() ==> text_ordering(a, b, 0) == Ordering::Greater,
        i == a.len() && i == b.len() ==> text_ordering(a, b, 0) == Ordering::Equal,
{
    lemma_past_common(a, b, 0, i);
}

proof fn lemma_past_common(a: Seq<char>, b: Seq<char>, k: int, i: int)
    requires
        0 <= k <= i <= a.len(),
        i <= b.len(),
        forall|l: int| k <= l < i ==> a[l] == b[l],
    ensures
        text_ordering(a, b, k) == text_ordering(a, b, i),
    decreases i - k,
{
    if k < i {
        assert(a[k] == b[k]);
        lemma_past_common(a, b, k + 1, i);
    }
}

/// A text comes before another in the alphabet: it is the beginning of it, or has the smaller character at
/// their first difference.
pub open spec fn is_alphabetically_before(a: Seq<char>, b: Seq<char>) -> bool {
    exists|i: int|
        {
            &&& 0 <= i <= a.len()
            &&& i < b.len()
            &&& #[trigger] a.take(i) == b.take(i)
            &&& i == a.len() || a[i] < b[i]
        }
}

pub(crate) proof fn lemma_alphabetically_before(a: Seq<char>, b: Seq<char>)
    requires
        is_alphabetically_before(a, b),
    ensures
        text_ordering(a, b, 0) == Ordering::Less,
        text_ordering(b, a, 0) == Ordering::Greater,
{
    let i = choose|i: int|
        {
            &&& 0 <= i <= a.len()
            &&& i < b.len()
            &&& #[trigger] a.take(i) == b.take(i)
            &&& i == a.len() || a[i] < b[i]
        };
    assert forall|k: int| 0 <= k < i implies a[k] == b[k] by {
        assert(a.take(i)[k] == b.take(i)[k]);
    }
    law_texts_compare_at_their_first_difference(a, b, i);
    lemma_text_order_reversed(a, b, 0);
}

/// Grouped by artist, the artists' names decide, whatever the titles and the years: an album whose artist
/// comes first in the alphabet comes first where the groups ascend, and last where they descend. So turning
/// the groups around turns around any two albums of different artists.
pub proof fn law_groups_go_by_the_artist(sort: SortOrder, a: Album, b: Album)
    requires
        is_alphabetically_before(lowercase(a.artist@), lowercase(b.artist@)),
    ensures
        sort.group_by_artist == Some(Dir::Asc) ==> {
            &&& sort.album_ordering(a, b) == Ordering::Less
            &&& sort.album_ordering(b, a) == Ordering::Greater
        },
        sort.group_by_artist == Some(Dir::Desc) ==> {
            &&& sort.album_ordering(a, b) == Ordering::Greater
            &&& sort.album_ordering(b, a) == Ordering::Less
        },
{
    lemma_alphabetically_before(lowercase(a.artist@), lowercase(b.artist@));
}

/// Within a group, or without groups, albums go by the field that is sorted by: by title, the one that comes
/// first in the alphabet is first where the field ascends and last where it descends, whatever the years.
pub proof fn law_names_go_by_the_title(sort: SortOrder, a: Album, b: Album)
    requires
        sort.group_by_artist == None::<Dir> || lowercase(a.artist@) == lowercase(b.artist@),
        sort.field == SortField::Name,
        is_alphabetically_before(lowercase(a.title@), lowercase(b.title@)),
    ensures
        sort.field_dir == Dir::Asc ==> {
            &&& sort.album_ordering(a, b) == Ordering::Less
            &&& sort.album_ordering(b, a) == Ordering::Greater
        },
        sort.field_dir == Dir::Desc ==> {
            &&& sort.album_ordering(a, b) == Ordering::Greater
            &&& sort.album_ordering(b, a) == Ordering::Less
        },
{
    lemma_alphabetically_before(lowercase(a.title@), lowercase(b.title@));
    let n = 0int + lowercase(a.artist@).len();
    if sort.group_by_artist is Some {
        law_texts_compare_at_their_first_difference(lowercase(a.artist@), lowercase(b.artist@), n);
    }
}

/// By year, the earlier album is first where the field ascends and last where it descends, whatever the
/// titles; an album without a year counts as earlier than any with one.
pub proof fn law_years_go_by_the_number(sort: SortOrder, a: Album, b: Album)
    requires
        sort.group_by_artist == None::<Dir> || lowercase(a.artist@) == lowercase(b.artist@),
        sort.field == SortField::Year,
        b.year matches Some(later) && (a.year matches Some(earlier) ==> earlier < later),
    ensures
        sort.field_dir == Dir::Asc ==> {
            &&& sort.album_ordering(a, b) == Ordering::Less
            &&& sort.album_ordering(b, a) == Ordering::Greater
        },
        sort.field_dir == Dir::Desc ==> {
            &&& sort.album_ordering(a, b) == Ordering::Greater
            &&& sort.album_ordering(b, a) == Ordering::Less
        },
{
    let n = 0int + lowercase(a.artist@).len();
    if sort.group_by_artist is Some {
        law_texts_compare_at_their_first_difference(lowercase(a.artist@), lowercase(b.artist@), n);
        law_texts_compare_at_their_first_difference(lowercase(b.artist@), lowercase(a.artist@), n);
    }
}

/// Albums that agree in what they are sorted by go by their titles, ascending whatever the direction, and
/// those with the same title by their ids.
pub proof fn law_ties_go_by_the_title_and_the_id(sort: SortOrder, a: Album, b: Album)
    requires
        sort.group_by_artist == None::<Dir> || lowercase(a.artist@) == lowercase(b.artist@),
        sort.field == SortField::Year,
        a.year == b.year,
    ensures
        is_alphabetically_before(lowercase(a.title@), lowercase(b.title@)) ==> sort.album_ordering(a, b)
            == Ordering::Less,
        lowercase(a.title@) == lowercase(b.title@) && a.id < b.id ==> sort.album_ordering(a, b) == Ordering::Less,
        lowercase(a.title@) == lowercase(b.title@) && a.id > b.id ==> sort.album_ordering(a, b)
            == Ordering::Greater,
{
    if sort.group_by_artist is Some {
        let n = 0int + lowercase(a.artist@).len();
        law_texts_compare_at_their_first_difference(lowercase(a.artist@), lowercase(b.artist@), n);
    }
    if is_alphabetically_before(lowercase(a.title@), lowercase(b.title@)) {
        lemma_alphabetically_before(lowercase(a.title@), lowercase(b.title@));
    }
    if lowercase(a.title@) == lowercase(b.title@) {
        let n = 0int + lowercase(a.title@).len();
        law_texts_compare_at_their_first_difference(lowercase(a.title@), lowercase(b.title@), n);
    }
}

/// A picker offers every order, each once.
pub proof fn law_every_order_is_offered(sort: SortOrder)
    ensures
        SortOrder::every().contains(sort),
        SortOrder::every().no_duplicates(),
{
    let every = SortOrder::every();
    let k: int = match (sort.group_by_artist, sort.field, sort.field_dir) {
        (None, SortField::Name, Dir::Asc) => 0,
        (None, SortField::Name, Dir::Desc) => 1,
        (None, SortField::Year, Dir::Asc) => 2,
        (None, SortField::Year, Dir::Desc) => 3,
        (Some(Dir::Asc), SortField::Name, Dir::Asc) => 4,
        (Some(Dir::Asc), SortField::Name, Dir::Desc) => 5,
        (Some(Dir::Desc), SortField::Name, Dir::Asc) => 6,
        (Some(Dir::Desc), SortField::Name, Dir::Desc) => 7,
        (Some(Dir::Asc), SortField::Year, Dir::Asc) => 8,
        (Some(Dir::Asc), SortField::Year, Dir::Desc) => 9,
        (Some(Dir::Desc), SortField::Year, Dir::Asc) => 10,
        (Some(Dir::Desc), SortField::Year, Dir::Desc) => 11,
    };
    assert(every[k] == sort);
}

/// The label of an order says what it is by: the field and its direction, and where artists are grouped these and
/// theirs in front.
pub proof fn law_labels_say_what_an_order_is(sort: SortOrder)
    ensures
        ({
            let arrow = |dir: Dir| if dir == Dir::Asc {
                "\u{2191}"@
            } else {
                "\u{2193}"@
            };
            let field = (if sort.field == SortField::Name {
                "Name"@
            } else {
                "Year"@
            }) + " "@ + arrow(sort.field_dir);
            sort.label_text() == match sort.group_by_artist {
                Some(dir) => "Artist "@ + arrow(dir) + ", "@ + field,
                None => field,
            }
        }),
{
}

} // verus!
