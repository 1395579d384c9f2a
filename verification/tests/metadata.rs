use phonoscule::io::{Cursor, Skippable};
use phonoscule::metadata::read_text;

fn read(capacity: usize, input: &[u8]) -> (String, usize) {
    let mut inp = Skippable(Cursor::new(input.to_vec()));
    read_text(capacity, input.len(), &mut inp).unwrap()
}

#[test]
fn decodes_and_stops_at_nul() {
    let (s, n) = read(64, "Caf\u{e9} au lait\0padding".as_bytes());
    assert_eq!(s, "Caf\u{e9} au lait");
    assert!(n <= "Caf\u{e9} au lait\0padding".len());
}

#[test]
fn replaces_invalid_utf8() {
    let (s, _) = read(64, b"a\xFFb");
    assert_eq!(s, "a\u{FFFD}b");
}

#[test]
fn truncates_at_scratch_capacity_on_a_char_boundary() {
    let (s, _) = read(4, "abcツ".as_bytes()); // the 3-byte char doesn't fit after "abc"
    assert_eq!(s, "abc");
}

/// Valid UTF-8 is kept unchanged, wherever in the field its characters lie.
#[test]
fn characters_are_kept_wherever_they_lie() {
    for n in 70..90 {
        let text = "a".repeat(n) + "\u{e9}";
        assert_eq!(read(512, text.as_bytes()), (text.clone(), n + 2));
        let text = "a".repeat(n) + "\u{1f600}b";
        assert_eq!(read(512, text.as_bytes()), (text.clone(), n + 5));
    }
    let text = "\u{30c4}".repeat(170);
    assert_eq!(read(512, text.as_bytes()), (text.clone(), 510), "all that fits");
    assert_eq!(read(509, text.as_bytes()).0, "\u{30c4}".repeat(169), "less one");
}

/// A field far longer than what is kept of it is not read to its end.
#[test]
fn a_long_field_is_cut() {
    let (s, n) = read(10, "x".repeat(1000).as_bytes());
    assert_eq!(s, "x".repeat(10));
    assert_eq!(n, 48);
    let (s, n) = read(10, "\u{1f600}".repeat(1000).as_bytes());
    assert_eq!(s, "\u{1f600}".repeat(2));
    assert_eq!(n, 48);
}

#[test]
fn a_character_cut_short_is_replaced() {
    assert_eq!(read(64, b"ab\xe3\x83").0.chars().take(3).collect::<String>(), "ab\u{fffd}");
}
