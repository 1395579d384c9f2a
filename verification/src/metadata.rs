//! Metadata tags.
//!
//! Parsers hand over each recognized tag as they encounter it. Storage is the consumer's business:
//! there is no policy here about truncation or which of a repeated tag wins.

use crate::io::{back, front, reaches, Read};
use crate::text::{utf8_len, utf8_width};
use vstd::prelude::*;
use vstd::utf8::*;

verus! {

/// One metadata tag. Deliberately exhaustive -- a new variant should break consumers into deciding
/// how to store it.
#[derive(Debug, Clone, PartialEq, Eq)]
pub enum Tag {
    Title(String),
    Artist(String),
    Album(String),
    AlbumArtist(String),
    Genre(String),
    /// The track's position within its album, as the raw tag text: usually plain digits, but "3/12"
    /// (position of total) style values occur in the wild, so consumers should parse leniently.
    TrackNumber(String),
    /// The disc the track belongs to on a multi-disc album, as the raw tag text (see
    /// [`TrackNumber`](Tag::TrackNumber) about lenient parsing).
    DiscNumber(String),
    /// The recording/release date, as the raw tag text: often a bare year, but ISO dates like
    /// "2019-05-03" are common, so consumers wanting a year should parse leniently.
    Date(String),
}

/// What a tag is about.
#[derive(Debug, Clone, Copy, PartialEq, Eq, Structural)]
pub enum TagKind {
    Title,
    Artist,
    Album,
    AlbumArtist,
    Genre,
    TrackNumber,
    DiscNumber,
    Date,
}

impl View for Tag {
    type V = (TagKind, Seq<char>);

    open spec fn view(&self) -> (TagKind, Seq<char>) {
        match self {
            Tag::Title(s) => (TagKind::Title, s@),
            Tag::Artist(s) => (TagKind::Artist, s@),
            Tag::Album(s) => (TagKind::Album, s@),
            Tag::AlbumArtist(s) => (TagKind::AlbumArtist, s@),
            Tag::Genre(s) => (TagKind::Genre, s@),
            Tag::TrackNumber(s) => (TagKind::TrackNumber, s@),
            Tag::DiscNumber(s) => (TagKind::DiscNumber, s@),
            Tag::Date(s) => (TagKind::Date, s@),
        }
    }
}

impl Tag {
    pub fn new(kind: TagKind, text: String) -> (tag: Tag)
        ensures
            tag@ == (kind, text@),
    {
        match kind {
            TagKind::Title => Tag::Title(text),
            TagKind::Artist => Tag::Artist(text),
            TagKind::Album => Tag::Album(text),
            TagKind::AlbumArtist => Tag::AlbumArtist(text),
            TagKind::Genre => Tag::Genre(text),
            TagKind::TrackNumber => Tag::TrackNumber(text),
            TagKind::DiscNumber => Tag::DiscNumber(text),
            TagKind::Date => Tag::Date(text),
        }
    }
}

/// The views of some tags.
pub open spec fn tag_views(tags: Seq<Tag>) -> Seq<(TagKind, Seq<char>)> {
    tags.map_values(|tag: Tag| tag@)
}

/// The characters that `utf8_decode::Decoder` finds in some bytes, with `None` for each invalid
/// sequence.
pub uninterp spec fn decoded(bytes: Seq<u8>) -> Seq<Option<char>>;

/// Characters with no invalid sequence among them.
pub open spec fn all_valid(text: Seq<char>) -> Seq<Option<char>> {
    text.map_values(|c: char| Some(c))
}

/// Runs a `utf8_decode::Decoder` over the bytes. The claim names what it yields, in order, and does
/// not spell out how it resumes after an invalid sequence. It says that valid UTF-8 comes out as the
/// characters that it encodes, that nothing takes more than four bytes, and that whatever bytes follow
/// change no more than what comes out last.
#[verifier::external_body]
fn decode(bytes: &[u8]) -> (chars: Vec<Option<char>>)
    ensures
        chars@ == decoded(bytes@),
        valid_utf8(bytes@) ==> chars@ == all_valid(decode_utf8(bytes@)),
        bytes@.len() <= 4 * chars@.len(),
        forall|more: Seq<u8>|
            chars@.len() > 0 ==> chars@.drop_last().is_prefix_of(#[trigger] decoded(bytes@ + more)),
        forall|more: Seq<u8>|
            chars@.len() > 0 && #[trigger] valid_utf8(bytes@ + more) ==> chars@.drop_last().is_prefix_of(
                all_valid(decode_utf8(bytes@ + more)),
            ),
{
    utf8_decode::Decoder::new(bytes.iter().cloned()).map(|c| c.ok()).collect()
}

/// What stands for an invalid sequence.
pub const REPLACEMENT: char = '\u{FFFD}';

/// A text that is being read: its characters, the bytes that they take, and whether it is complete.
pub struct Filled {
    pub text: Seq<char>,
    pub used: int,
    pub done: bool,
}

/// `text` and then the characters of `chars`, up to a NUL or to the first that no longer fits into
/// `capacity` bytes.
pub open spec fn filled(text: Seq<char>, used: int, capacity: int, chars: Seq<Option<char>>) -> Filled
    decreases chars.len(),
{
    if chars.len() == 0 {
        Filled { text, used, done: false }
    } else {
        let c = match chars[0] {
            Some(c) => c,
            None => REPLACEMENT,
        };
        if c == '\0' || utf8_width(c) > capacity - used {
            Filled { text, used, done: true }
        } else {
            filled(text.push(c), used + utf8_width(c), capacity, chars.drop_first())
        }
    }
}

/// The text of a field: its characters, with replacements for invalid sequences, up to a NUL or to the first
/// that no longer fits into `capacity` bytes.
pub open spec fn text_of(field: Seq<u8>, capacity: int) -> Seq<char> {
    filled(Seq::empty(), 0, capacity, decoded(field)).text
}

/// How many bytes of a field are looked at: more cannot matter to a text of no more than `capacity` bytes.
pub open spec fn looked_at(size: int, capacity: int) -> int {
    if size - 8 > 4 * capacity {
        4 * capacity + 8
    } else {
        size
    }
}

/// A text field of a stream that fails within it, before the text is complete.
pub open spec fn is_cut_off<R: Read>(inp: R, size: int, capacity: int) -> bool {
    &&& !reaches(&inp, looked_at(size, capacity))
    &&& inp.rest().len() == 0 || !filled(Seq::empty(), 0, capacity, decoded(inp.rest())).done
}

/// What fills a text is all that counts: of more characters than it has room for, the rest do not matter.
proof fn lemma_filled_alike(
    text: Seq<char>,
    used: int,
    capacity: int,
    common: Seq<Option<char>>,
    a: Seq<Option<char>>,
    b: Seq<Option<char>>,
)
    requires
        common.is_prefix_of(a),
        common.is_prefix_of(b),
        common.len() > capacity - used >= 0,
    ensures
        filled(text, used, capacity, a) == filled(text, used, capacity, b),
    decreases common.len(),
{
    assert(a[0] == common[0] && b[0] == common[0]);
    let c = match common[0] {
        Some(c) => c,
        None => REPLACEMENT,
    };
    if c != '\0' && utf8_width(c) <= capacity - used {
        assert(common.drop_first().is_prefix_of(a.drop_first())) by {
            assert(a.drop_first().take(common.len() - 1) =~= common.drop_first());
        }
        assert(common.drop_first().is_prefix_of(b.drop_first())) by {
            assert(b.drop_first().take(common.len() - 1) =~= common.drop_first());
        }
        lemma_filled_alike(
            text.push(c),
            used + utf8_width(c),
            capacity,
            common.drop_first(),
            a.drop_first(),
            b.drop_first(),
        );
    }
}

/// Reads a `size`-byte text field from `inp`, decoding UTF-8 (invalid sequences become replacement
/// characters) and stopping at a NUL terminator or when `capacity` bytes are filled.
/// Returns the text and how many input bytes were consumed -- at most `size`, possibly fewer;
/// skipping the remainder is the caller's job (it owns the enclosing chunk structure).
/// `None` where the stream fails before the text is complete.
pub fn read_text<R: Read>(capacity: usize, size: usize, inp: &mut R) -> (r: Option<(String, usize)>)
    ensures
        ({
            let field = front(old(inp).rest(), size as int);
            let looked = looked_at(size as int, capacity as int);
            match r {
                Some((text, consumed)) => {
                    &&& !is_cut_off(*old(inp), size as int, capacity as int)
                    &&& text@ == text_of(field, capacity as int)
                    &&& valid_utf8(field) ==> text@ == filled(
                        Seq::empty(),
                        0,
                        capacity as int,
                        all_valid(decode_utf8(field)),
                    ).text
                    &&& consumed == front(old(inp).rest(), looked).len()
                    &&& consumed <= size
                },
                None => is_cut_off(*old(inp), size as int, capacity as int),
            }
        }),
        final(inp).rest() == back(old(inp).rest(), looked_at(size as int, capacity as int)),
        final(inp).beyond() == old(inp).beyond(),
        final(inp).broken() == old(inp).broken(),
        final(inp).faults() == old(inp).faults(),
{
    let want: usize = if size > 8 && capacity <= (size - 9) / 4 {
        4 * capacity + 8
    } else {
        size
    };
    let piece: Vec<u8> = match inp.read(want) {
        Some(piece) => piece,
        None => return None,
    };
    let chars: Vec<Option<char>> = decode(piece.as_slice());
    let ghost result = filled(Seq::empty(), 0, capacity as int, chars@);
    proof {
        let field = front(old(inp).rest(), size as int);
        let more = field.skip(piece.len() as int);
        assert(field =~= piece@ + more);
        if more.len() == 0 {
            assert(field =~= piece@);
        } else {
            let common = chars@.drop_last();
            assert(common.is_prefix_of(chars@));
            lemma_filled_alike(Seq::empty(), 0, capacity as int, common, chars@, decoded(field));
            if valid_utf8(field) {
                lemma_filled_alike(
                    Seq::empty(),
                    0,
                    capacity as int,
                    common,
                    chars@,
                    all_valid(decode_utf8(field)),
                );
            }
        }
        assert(inp.rest() =~= back(old(inp).rest(), piece.len() as int));
    }
    let mut text: String = String::new();
    let mut written: usize = 0;
    let mut i: usize = 0;
    let mut done: bool = false;
    assert(chars@.skip(0) =~= chars@);
    while i < chars.len()
        invariant_except_break
            !done,
            result == filled(text@, written as int, capacity as int, chars@.skip(i as int)),
        invariant
            i <= chars.len(),
            written <= capacity,
        ensures
            text@ == result.text,
            done == result.done,
        decreases chars.len() - i,
    {
        let c: char = match chars[i] {
            Some(c) => c,
            None => REPLACEMENT,
        };
        if c == '\0' || utf8_len(c) > capacity - written {
            done = true;
            break;
        }
        text.push(c);
        written = written + utf8_len(c);
        assert(chars@.skip(i as int).drop_first() =~= chars@.skip(i + 1));
        i = i + 1;
    }
    assert(want == looked_at(size as int, capacity as int));
    assert(piece.len() < want ==> piece@ =~= old(inp).rest());
    if !done && piece.len() < want {
        let ghost left = inp.rest();
        let more: Option<Vec<u8>> = inp.read(1);
        assert(inp.rest() =~= left);
        if more.is_none() {
            return None;
        }
    }
    Some((text, piece.len()))
}

/// The bytes that a text takes in UTF-8.
pub open spec fn width(text: Seq<char>) -> int
    decreases text.len(),
{
    if text.len() == 0 {
        0
    } else {
        width(text.drop_last()) + utf8_width(text.last())
    }
}

proof fn lemma_filled(text: Seq<char>, used: int, capacity: int, chars: Seq<Option<char>>)
    requires
        width(text) == used <= capacity,
        !text.contains('\0'),
    ensures
        ({
            let f = filled(text, used, capacity, chars);
            &&& width(f.text) == f.used <= capacity
            &&& !f.text.contains('\0')
        }),
    decreases chars.len(),
{
    if chars.len() > 0 {
        let c = match chars[0] {
            Some(c) => c,
            None => REPLACEMENT,
        };
        if c != '\0' && utf8_width(c) <= capacity - used {
            assert(text.push(c).drop_last() =~= text);
            lemma_filled(text.push(c), used + utf8_width(c), capacity, chars.drop_first());
        }
    }
}

/// The text of a field holds no NUL and fits its capacity on a character boundary.
pub proof fn law_field_text_fits(field: Seq<u8>, capacity: nat)
    ensures
        width(text_of(field, capacity as int)) <= capacity,
        !text_of(field, capacity as int).contains('\0'),
{
    lemma_filled(Seq::empty(), 0, capacity as int, decoded(field));
}

proof fn lemma_kept(text: Seq<char>, used: int, capacity: int, more: Seq<char>)
    requires
        used + width(more) <= capacity,
        !more.contains('\0'),
    ensures
        filled(text, used, capacity, all_valid(more)).text == text + more,
    decreases more.len(),
{
    if more.len() == 0 {
        assert(text + more =~= text);
    } else {
        lemma_width_first(more);
        lemma_width(more.drop_first());
        assert(more[0] != '\0');
        assert(all_valid(more).drop_first() =~= all_valid(more.drop_first()));
        assert forall|c: char| !more.drop_first().contains(c) || more.contains(c) by {
            if more.drop_first().contains(c) {
                let k = choose|k: int| 0 <= k < more.drop_first().len() && more.drop_first()[k] == c;
                assert(more[k + 1] == c);
            }
        }
        lemma_kept(text.push(more[0]), used + utf8_width(more[0]), capacity, more.drop_first());
        assert(text.push(more[0]) + more.drop_first() =~= text + more);
    }
}

proof fn lemma_width(text: Seq<char>)
    ensures
        width(text) >= 0,
    decreases text.len(),
{
    if text.len() > 0 {
        lemma_width(text.drop_last());
    }
}

proof fn lemma_width_first(text: Seq<char>)
    requires
        text.len() > 0,
    ensures
        width(text) == utf8_width(text[0]) + width(text.drop_first()),
    decreases text.len(),
{
    if text.len() > 1 {
        lemma_width_first(text.drop_last());
        assert(text.drop_last().drop_first() =~= text.drop_first().drop_last());
    } else {
        assert(text.drop_first() =~= Seq::empty());
        assert(text.drop_last() =~= Seq::empty());
    }
}

/// A text without a NUL that fits is kept as it is, character by character.
pub proof fn law_a_text_that_fits_is_kept(text: Seq<char>, capacity: nat)
    requires
        width(text) <= capacity,
        !text.contains('\0'),
    ensures
        filled(Seq::empty(), 0, capacity as int, all_valid(text)).text == text,
{
    lemma_kept(Seq::empty(), 0, capacity as int, text);
    assert(Seq::<char>::empty() + text =~= text);
}

proof fn lemma_cut(text: Seq<char>, used: int, capacity: int, kept: Seq<char>, c: char, rest: Seq<char>)
    requires
        used + width(kept) <= capacity,
        !kept.contains('\0'),
        c == '\0' || used + width(kept) + utf8_width(c) > capacity,
    ensures
        filled(text, used, capacity, all_valid(kept + seq![c] + rest)).text == text + kept,
    decreases kept.len(),
{
    let all = kept + seq![c] + rest;
    let chars = all_valid(all);
    assert(chars[0] == Some(all[0]));
    if kept.len() == 0 {
        assert(all[0] == c);
        assert(text + kept =~= text);
    } else {
        assert(all[0] == kept[0]);
        lemma_width_first(kept);
        lemma_width(kept.drop_first());
        assert(kept[0] != '\0');
        assert(chars.drop_first() =~= all_valid(kept.drop_first() + seq![c] + rest));
        assert(!kept.drop_first().contains('\0')) by {
            if kept.drop_first().contains('\0') {
                let k = choose|k: int| 0 <= k < kept.drop_first().len() && kept.drop_first()[k] == '\0';
                assert(kept[k + 1] == '\0');
            }
        }
        lemma_cut(text.push(kept[0]), used + utf8_width(kept[0]), capacity, kept.drop_first(), c, rest);
        assert(text.push(kept[0]) + kept.drop_first() =~= text + kept);
    }
}

/// A text ends before the first NUL, or before the first character that no longer fits; all before that is kept.
pub proof fn law_a_text_is_cut_where_it_ends(kept: Seq<char>, c: char, rest: Seq<char>, capacity: nat)
    requires
        width(kept) <= capacity,
        !kept.contains('\0'),
        c == '\0' || width(kept) + utf8_width(c) > capacity,
    ensures
        filled(Seq::empty(), 0, capacity as int, all_valid(kept + seq![c] + rest)).text == kept,
{
    lemma_cut(Seq::empty(), 0, capacity as int, kept, c, rest);
    assert(Seq::<char>::empty() + kept =~= kept);
}

proof fn lemma_replaced(text: Seq<char>, used: int, capacity: int, more: Seq<char>)
    requires
        used + width(more) + 3 <= capacity,
        !more.contains('\0'),
    ensures
        filled(text, used, capacity, all_valid(more).push(None)).text == text + more.push('\u{FFFD}'),
    decreases more.len(),
{
    let chars = all_valid(more).push(None);
    if more.len() == 0 {
        reveal_with_fuel(filled, 2);
        assert(chars[0] is None);
        assert(utf8_width('\u{FFFD}') == 3);
        assert(chars.drop_first() =~= Seq::empty());
        assert(text.push('\u{FFFD}') =~= text + more.push('\u{FFFD}'));
    } else {
        lemma_width_first(more);
        lemma_width(more.drop_first());
        assert(more[0] != '\0');
        assert(chars[0] == Some(more[0]));
        assert(chars.drop_first() =~= all_valid(more.drop_first()).push(None));
        assert(!more.drop_first().contains('\0')) by {
            if more.drop_first().contains('\0') {
                let k = choose|k: int| 0 <= k < more.drop_first().len() && more.drop_first()[k] == '\0';
                assert(more[k + 1] == '\0');
            }
        }
        lemma_replaced(text.push(more[0]), used + utf8_width(more[0]), capacity, more.drop_first());
        assert(text.push(more[0]) + more.drop_first().push('\u{FFFD}') =~= text + more.push('\u{FFFD}'));
    }
}

/// What is no character is replaced, and does not end the text.
pub proof fn law_invalid_sequences_are_replaced(text: Seq<char>, capacity: nat)
    requires
        width(text) + 3 <= capacity,
        !text.contains('\0'),
    ensures
        filled(Seq::empty(), 0, capacity as int, all_valid(text).push(None)).text == text.push('\u{FFFD}'),
{
    lemma_replaced(Seq::empty(), 0, capacity as int, text);
    assert(Seq::<char>::empty() + text.push('\u{FFFD}') =~= text.push('\u{FFFD}'));
}

} // verus!
