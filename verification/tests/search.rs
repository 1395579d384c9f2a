use phonoscule::search::{longest_common_substring, rank, rank_lowercase};

fn strings(s: &[&str]) -> Vec<String> {
    s.iter().map(|s| s.to_string()).collect()
}

#[test]
fn ranks_contiguous_matches_higher() {
    assert_eq!(rank("The Dark Side of the Moon", ""), Some(0), "an empty query matches everything");
    assert_eq!(rank("The Dark Side of the Moon", "dark side"), Some(9), "a phrase hit scores its full length");
    assert_eq!(rank("Darkness on the Far Side", "dark side"), Some(5), "scattered words score the longest run");
    assert_eq!(rank("The Wall", "dark side"), None, "every word must be contained");
    assert_eq!(rank("MONO no aware", "mono"), Some(4), "matching is case-insensitive");
}

/// Best first, and candidates the query rules out are gone rather than ranked last.
#[test]
fn matches_are_ordered_best_first() {
    let candidates = strings(&["The Wall", "Darkness on the Far Side", "The Dark Side of the Moon"]);
    assert_eq!(phonoscule::search::matches(&candidates, "dark side"), ["The Dark Side of the Moon", "Darkness on the Far Side"]);
}

/// An empty query keeps everything, in the order it arrived: the caller's sort is not disturbed
/// by a search that says nothing.
#[test]
fn an_empty_query_keeps_the_given_order() {
    let candidates = strings(&["Zoo", "Apple", "Mango"]);
    assert_eq!(phonoscule::search::matches(&candidates, ""), candidates);
}

/// Ties keep the given order, and white space alone says nothing.
#[test]
fn ties_keep_the_given_order() {
    let candidates = strings(&["B one", "A one", "C two"]);
    assert_eq!(phonoscule::search::matches(&candidates, "one"), ["B one", "A one"]);
    assert_eq!(phonoscule::search::matches(&candidates, " \t"), candidates);
}

/// The rank counts bytes, and folds what it is given but not what it is told is folded.
#[test]
fn ranks_count_bytes() {
    assert_eq!(longest_common_substring("caf\u{e9}", "\u{e9}"), 2);
    assert_eq!(longest_common_substring("abc", "xyz"), 0);
    assert_eq!(rank("CAF\u{c9}", "caf\u{e9}"), Some(5));
    assert_eq!(rank_lowercase("CAF\u{c9}", "caf\u{e9}"), None);
}
