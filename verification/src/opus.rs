//! OGG Opus reader
//!
//! Demuxes the Ogg container with the `ogg` crate's push-based page parser and decodes the Opus
//! stream with the pure-Rust `opuscule` decoder.
//!
//! Assumptions / limitations:
//! - Channel mapping family 0 only, i.e. mono or stereo. Surround would need `opuscule`'s
//!   multistream decoder.
//! - A single logical bitstream; chained or multiplexed Ogg streams are not supported.
//! - With [`OggOpus::parse`] the total stream length is not known up front ([`Format::len_samples`]
//!   is `None`): the length lives in the granule position of the *last* Ogg page. Use
//!   [`OggOpus::parse_seekable`] to get it via a scan of the stream's tail.
//! - Opus frames depend on decoder history, so [`FastForward`] decodes and discards rather than
//!   skips.

use crate::demux::{
    checksum_holds, demux_of, holds_page, lemma_packet_uses_up, next_packet, packet_of, packet_reader,
    page_len, Demux, Packet, PacketRead,
};
use crate::io::{at_most, back, front, le16, le32, Read, ReadExt, Seek};
use crate::metadata::{tag_views, Tag, TagKind};
use crate::plumbing::{FastForward, Source};
use crate::sample::{PcmS16Le, Stereo};
use crate::text::{chars_of, from_utf8, string_of};
use ogg::reading::BasePacketReader;
use opuscule::Decoder;
use vstd::prelude::*;
use vstd::utf8::{decode_utf8, valid_utf8};

verus! {

/// Opus always decodes at 48 kHz, regardless of the input's original sample rate.
pub const SAMPLE_RATE: u32 = 48_000;

/// Largest decodable frame: 120 ms at 48 kHz, per channel.
pub const MAX_FRAME: usize = 5760;

/// An Ogg page is at most this many bytes (header + segment table + maximal body).
pub const MAX_PAGE_SIZE: u64 = 65_307;

/// The audio that is decoded before a seek's target: 80 ms at 48 kHz.
pub const PREROLL: u64 = 3840;

/// The granule position of a page on which no packet ends.
pub const NO_GRANULE: u64 = u64::MAX;

#[derive(Clone, Copy, Debug, PartialEq, Eq, Structural)]
pub enum Channels {
    Mono,
    Stereo,
}

impl Channels {
    pub open spec fn number(self) -> nat {
        match self {
            Channels::Mono => 1,
            Channels::Stereo => 2,
        }
    }

    pub fn count(self) -> (n: usize)
        ensures
            n == self.number(),
    {
        match self {
            Channels::Mono => 1,
            Channels::Stereo => 2,
        }
    }
}

#[derive(Clone, Copy, Debug)]
pub struct Format {
    pub n_channels: u16,
    /// Encoder delay dropped from the front of the stream, in 48 kHz samples.
    pub pre_skip: u16,
    /// Total number of samples in the stream, when known (see [`OggOpus::parse_seekable`]).
    pub len_samples: Option<u64>,
}

impl Format {
    pub fn sample_rate(&self) -> (rate: u32)
        ensures
            rate == SAMPLE_RATE,
    {
        SAMPLE_RATE
    }
}

/// The little-endian number in the first eight bytes of `s`.
pub open spec fn le64(s: Seq<u8>) -> int {
    le32(s) + 0x1_0000_0000 * le32(s.skip(4))
}

fn read_le32(b: &[u8], at: usize) -> (v: u32)
    requires
        at + 4 <= b@.len(),
    ensures
        v == le32(b@.skip(at as int)),
{
    b[at] as u32 + 0x100 * b[at + 1] as u32 + 0x1_0000 * b[at + 2] as u32 + 0x100_0000 * b[at + 3] as u32
}

/// Whether `s` starts with the characters of an ASCII string.
pub open spec fn starts_with(s: Seq<u8>, text: Seq<char>) -> bool {
    &&& s.len() >= text.len()
    &&& forall|i: int| 0 <= i < text.len() ==> s[i] == (#[trigger] text[i]) as u32
}

fn has_prefix(b: &[u8], at: usize, text: &str) -> (r: bool)
    requires
        at <= b@.len(),
    ensures
        r == starts_with(b@.skip(at as int), text@),
{
    let chars: Vec<char> = chars_of(text);
    let len: usize = b.len();
    if len - at < chars.len() {
        return false;
    }
    let mut i: usize = 0;
    while i < chars.len()
        invariant
            i <= chars.len(),
            at + chars.len() <= len == b@.len(),
            chars@ == text@,
            forall|k: int| 0 <= k < i ==> b@.skip(at as int)[k] == (#[trigger] text@[k]) as u32,
        decreases chars.len() - i,
    {
        assert(b@.skip(at as int)[i as int] == b@[at + i]);
        if b[at + i] as u32 != chars[i] as u32 {
            assert(b@.skip(at as int)[i as int] != text@[i as int] as u32);
            return false;
        }
        i = i + 1;
    }
    true
}

/// The granule position of the Ogg page at the front of `s`; `None` where it isn't a complete,
/// checksum-valid page belonging to stream `serial`.
pub open spec fn granule_of(s: Seq<u8>, serial: u32) -> Option<u64> {
    match page_len(s) {
        Some(len) => if le32(s.skip(14)) == serial && checksum_holds(s.take(len)) {
            Some(le64(s.skip(6)) as u64)
        } else {
            None
        },
        None => None,
    }
}

/// Returns the granule position of the Ogg page at the start of `page`, or `None` if it isn't a
/// complete, checksum-valid page belonging to stream `serial`. The `OggS` capture pattern can
/// appear in packet payloads, so candidates must be validated this strictly.
fn page_granule(page: &[u8], serial: u32) -> (granule: Option<u64>)
    ensures
        granule == granule_of(page@, serial),
{
    if page.len() < 27 {
        return None;
    }
    if read_le32(page, 14) != serial {
        return None;
    }
    let low: u64 = read_le32(page, 6) as u64;
    let high: u64 = read_le32(page, 10) as u64;
    assert(page@.skip(6).skip(4) =~= page@.skip(10));
    if holds_page(page) {
        Some(low + 0x1_0000_0000 * high)
    } else {
        None
    }
}

/// Whether a page with the capture pattern and a granule position starts at `i` in `s`.
pub open spec fn granule_at(s: Seq<u8>, i: int, serial: u32) -> Option<u64> {
    if starts_with(s.skip(i), "OggS"@) {
        granule_of(s.skip(i), serial)
    } else {
        None
    }
}

fn granule_here(b: &[u8], i: usize, serial: u32) -> (granule: Option<u64>)
    requires
        i <= b@.len(),
    ensures
        granule == granule_at(b@, i as int, serial),
{
    if has_prefix(b, i, "OggS") {
        assert(b@.subrange(i as int, b@.len() as int) =~= b@.skip(i as int));
        page_granule(&b[i..b.len()], serial)
    } else {
        None
    }
}

/// The granule position of the last page before the `n`-th byte of `tail` on which a packet ends.
pub open spec fn last_granule_before(tail: Seq<u8>, n: int, serial: u32) -> Option<u64>
    decreases n,
{
    if n <= 0 {
        None
    } else {
        match granule_at(tail, n - 1, serial) {
            Some(granule) => if granule != NO_GRANULE {
                Some(granule)
            } else {
                last_granule_before(tail, n - 1, serial)
            },
            None => last_granule_before(tail, n - 1, serial),
        }
    }
}

/// Finds the last valid Ogg page of stream `serial` in `tail` and returns its granule position. A page has at
/// least the 27 bytes of its header.
pub fn last_granule(tail: &[u8], serial: u32) -> (granule: Option<u64>)
    ensures
        granule == last_granule_before(tail@, tail@.len() - 26, serial),
{
    let mut i: usize = if tail.len() < 27 {
        0
    } else {
        tail.len() - 26
    };
    while i > 0
        invariant
            i <= tail@.len(),
            last_granule_before(tail@, tail@.len() - 26, serial) == last_granule_before(
                tail@,
                i as int,
                serial,
            ),
        decreases i,
    {
        match granule_here(tail, i - 1, serial) {
            Some(granule) => {
                // No packet ends on a page without a granule; keep looking at earlier pages.
                if granule != NO_GRANULE {
                    return Some(granule);
                }
            },
            None => {},
        }
        i = i - 1;
    }
    None
}

/// The total number of samples of a stream, off the last page in its tail. `None` where that cannot be read
/// up to the length that the stream states.
pub open spec fn len_of(whole: Seq<u8>, extent: nat, serial: u32, pre_skip: u16) -> Option<u64> {
    let start = if whole.len() < MAX_PAGE_SIZE {
        0
    } else {
        whole.len() - MAX_PAGE_SIZE
    };
    let tail = whole.skip(start);
    let granule = if whole.len() < extent {
        None
    } else {
        last_granule_before(tail, tail.len() - 26, serial)
    };
    match granule {
        Some(granule) => Some(
            if granule < pre_skip {
                0
            } else {
                (granule - pre_skip) as u64
            },
        ),
        None => None,
    }
}

/// Scans the tail of the stream for its last valid Ogg page and derives the total sample count
/// from its granule position (RFC 7845 §4). Restores the stream position afterwards.
fn scan_len_samples<R: Seek>(inp: &mut R, serial: u32, pre_skip: u16) -> (len: Option<u64>)
    ensures
        len == len_of(old(inp).whole(), old(inp).extent(), serial, pre_skip),
        final(inp).rest() == old(inp).rest(),
        final(inp).whole() == old(inp).whole(),
        final(inp).beyond() == old(inp).beyond(),
        final(inp).broken() == old(inp).broken(),
        final(inp).extent() == old(inp).extent(),
{
    let pos: u64 = inp.stream_position();
    let end: u64 = inp.stream_len();
    // The file's last page ends at the end of the stream, so it starts within this window.
    let tail_start: u64 = if end < MAX_PAGE_SIZE {
        0
    } else {
        end - MAX_PAGE_SIZE
    };
    let ghost whole = inp.whole();
    inp.seek(tail_start);
    let tail: Option<Vec<u8>> = inp.read_exact((end - tail_start) as usize);
    inp.seek(pos);
    let tail: Vec<u8> = match tail {
        Some(tail) => tail,
        None => return None,
    };
    assert(tail@ =~= whole.skip(tail_start as int));
    match last_granule(tail.as_slice(), serial) {
        Some(granule) => Some(granule.saturating_sub(pre_skip as u64)),
        None => None,
    }
}

/// The channel layout and the pre-skip sample count in an `OpusHead` packet; `None` where it is none
/// that can be decoded.
pub open spec fn head_of(data: Seq<u8>) -> Option<(Channels, u16)> {
    if data.len() < 19 || !starts_with(data, "OpusHead"@) || data[8] >= 16 || data[18] != 0 {
        None
    } else if data[9] == 1 {
        Some((Channels::Mono, le16(data.skip(10)) as u16))
    } else if data[9] == 2 {
        Some((Channels::Stereo, le16(data.skip(10)) as u16))
    } else {
        None
    }
}

/// Parses an `OpusHead` identification header (RFC 7845 §5.1) into the channel layout and the
/// pre-skip sample count. The major version has to be zero, and so has the channel mapping family.
pub fn parse_opus_head(data: &[u8]) -> (head: Option<(Channels, u16)>)
    ensures
        head == head_of(data@),
{
    assert(data@.skip(0) =~= data@);
    if data.len() < 19 || !has_prefix(data, 0, "OpusHead") {
        return None;
    }
    let version: u8 = data[8];
    if version / 16 != 0 {
        return None;
    }
    let mapping_family: u8 = data[18];
    if mapping_family != 0 {
        return None;
    }
    let channels: Channels = if data[9] == 1 {
        Channels::Mono
    } else if data[9] == 2 {
        Channels::Stereo
    } else {
        return None;
    };
    let pre_skip: u16 = data[10] as u16 + 0x100 * data[11] as u16;
    Some((channels, pre_skip))
}

/// An ASCII letter in lower case; any other character as it is.
pub open spec fn lower(c: char) -> char {
    if 'A' <= c <= 'Z' {
        ((c as u32) + 32) as char
    } else {
        c
    }
}

/// Equality up to the case of ASCII letters.
pub open spec fn same_ignoring_case(a: Seq<char>, b: Seq<char>) -> bool {
    a.len() == b.len() && forall|i: int| 0 <= i < a.len() ==> lower(#[trigger] a[i]) == lower(b[i])
}

fn to_lower(c: char) -> (l: char)
    ensures
        l == lower(c),
{
    match c {
        'A' => 'a',
        'B' => 'b',
        'C' => 'c',
        'D' => 'd',
        'E' => 'e',
        'F' => 'f',
        'G' => 'g',
        'H' => 'h',
        'I' => 'i',
        'J' => 'j',
        'K' => 'k',
        'L' => 'l',
        'M' => 'm',
        'N' => 'n',
        'O' => 'o',
        'P' => 'p',
        'Q' => 'q',
        'R' => 'r',
        'S' => 's',
        'T' => 't',
        'U' => 'u',
        'V' => 'v',
        'W' => 'w',
        'X' => 'x',
        'Y' => 'y',
        'Z' => 'z',
        other => other,
    }
}

fn is_key(key: &Vec<char>, name: &str) -> (r: bool)
    ensures
        r == same_ignoring_case(key@, name@),
{
    let letters: Vec<char> = chars_of(name);
    if key.len() != letters.len() {
        return false;
    }
    let mut i: usize = 0;
    while i < key.len()
        invariant
            i <= key.len() == letters.len(),
            letters@ == name@,
            forall|k: int| 0 <= k < i ==> lower(#[trigger] key@[k]) == lower(name@[k]),
        decreases key.len() - i,
    {
        if to_lower(key[i]) != to_lower(letters[i]) {
            assert(lower(key@[i as int]) != lower(name@[i as int]));
            return false;
        }
        i = i + 1;
    }
    true
}

/// What a comment with the given key is about.
pub open spec fn key_kind(key: Seq<char>) -> Option<TagKind> {
    if same_ignoring_case(key, "TITLE"@) {
        Some(TagKind::Title)
    } else if same_ignoring_case(key, "ARTIST"@) {
        Some(TagKind::Artist)
    } else if same_ignoring_case(key, "ALBUM"@) {
        Some(TagKind::Album)
    } else if same_ignoring_case(key, "ALBUMARTIST"@) {
        Some(TagKind::AlbumArtist)
    } else if same_ignoring_case(key, "GENRE"@) {
        Some(TagKind::Genre)
    } else if same_ignoring_case(key, "TRACKNUMBER"@) {
        Some(TagKind::TrackNumber)
    } else if same_ignoring_case(key, "DISCNUMBER"@) {
        Some(TagKind::DiscNumber)
    } else if same_ignoring_case(key, "DATE"@) {
        Some(TagKind::Date)
    } else {
        None
    }
}

fn kind_of_key(key: &Vec<char>) -> (kind: Option<TagKind>)
    ensures
        kind == key_kind(key@),
{
    if is_key(key, "TITLE") {
        Some(TagKind::Title)
    } else if is_key(key, "ARTIST") {
        Some(TagKind::Artist)
    } else if is_key(key, "ALBUM") {
        Some(TagKind::Album)
    } else if is_key(key, "ALBUMARTIST") {
        Some(TagKind::AlbumArtist)
    } else if is_key(key, "GENRE") {
        Some(TagKind::Genre)
    } else if is_key(key, "TRACKNUMBER") {
        Some(TagKind::TrackNumber)
    } else if is_key(key, "DISCNUMBER") {
        Some(TagKind::DiscNumber)
    } else if is_key(key, "DATE") {
        Some(TagKind::Date)
    } else {
        None
    }
}

/// Where the first equals sign stands in `s`, from `i` on; behind its end where there is none.
pub open spec fn equals_from(s: Seq<char>, i: int) -> int
    decreases s.len() - i,
{
    if i >= s.len() {
        s.len() as int
    } else if s[i] == '=' {
        i
    } else {
        equals_from(s, i + 1)
    }
}

/// The tag in a comment, which is `key=value` in UTF-8. `None` for any other comment, and for a key
/// that is not known.
pub open spec fn comment_tag(comment: Seq<u8>) -> Option<(TagKind, Seq<char>)> {
    if valid_utf8(comment) {
        let text = decode_utf8(comment);
        let at = equals_from(text, 0);
        if at < text.len() {
            match key_kind(text.take(at)) {
                Some(kind) => Some((kind, text.skip(at + 1))),
                None => None,
            }
        } else {
            None
        }
    } else {
        None
    }
}

fn parse_comment(comment: &[u8]) -> (tag: Option<Tag>)
    ensures
        match tag {
            Some(tag) => comment_tag(comment@) == Some(tag@),
            None => comment_tag(comment@) is None,
        },
{
    let text: Vec<char> = match from_utf8(comment) {
        Some(text) => chars_of(text),
        None => return None,
    };
    let mut at: usize = 0;
    let mut key: Vec<char> = Vec::new();
    while at < text.len() && text[at] != '='
        invariant
            at <= text.len(),
            key@ == text@.take(at as int),
            equals_from(text@, 0) == equals_from(text@, at as int),
        decreases text.len() - at,
    {
        key.push(text[at]);
        assert(key@ =~= text@.take(at + 1));
        at = at + 1;
    }
    if at == text.len() {
        return None;
    }
    let kind: TagKind = match kind_of_key(&key) {
        Some(kind) => kind,
        None => return None,
    };
    let mut value: Vec<char> = Vec::new();
    let mut i: usize = at + 1;
    while i < text.len()
        invariant
            at + 1 <= i <= text.len(),
            value@ == text@.subrange(at + 1, i as int),
        decreases text.len() - i,
    {
        value.push(text[i]);
        assert(value@ =~= text@.subrange(at + 1, i + 1));
        i = i + 1;
    }
    assert(value@ =~= text@.skip(at + 1));
    Some(Tag::new(kind, string_of(&value)))
}

/// The tags of `n` comments, which follow each other in `s`, each behind its length. A comment that is
/// cut off ends the list.
pub open spec fn comment_tags(s: Seq<u8>, n: int) -> Seq<(TagKind, Seq<char>)>
    decreases n,
{
    if n <= 0 || s.len() < 4 || s.len() < 4 + le32(s) {
        Seq::empty()
    } else {
        let len = le32(s);
        let rest = comment_tags(s.skip(4 + len), n - 1);
        match comment_tag(s.subrange(4, 4 + len)) {
            Some(tag) => seq![tag] + rest,
            None => rest,
        }
    }
}

/// The tags in an `OpusTags` packet.
pub open spec fn opus_tags(data: Seq<u8>) -> Seq<(TagKind, Seq<char>)> {
    if !starts_with(data, "OpusTags"@) || data.len() < 12 || data.len() < 16 + le32(data.skip(8)) {
        Seq::empty()
    } else {
        let list = data.skip(12 + le32(data.skip(8)));
        comment_tags(list.skip(4), le32(list))
    }
}

/// Parses an `OpusTags` packet (RFC 7845 §5.2, Vorbis comments), adding its tags to `tags`. Unknown or
/// malformed comments are skipped; of a malformed packet there is just what comes before the damage.
pub fn parse_opus_tags(tags: &mut Vec<Tag>, data: &[u8])
    ensures
        tag_views(final(tags)@) == tag_views(old(tags)@) + opus_tags(data@),
{
    let ghost before = tag_views(tags@);
    assert(before + Seq::<(TagKind, Seq<char>)>::empty() =~= before);
    assert(data@.skip(0) =~= data@);
    proof {
        reveal_strlit("OpusTags");
    }
    if !has_prefix(data, 0, "OpusTags") {
        return ;
    }
    let total: usize = data.len();
    if total < 12 {
        return ;
    }
    // The vendor, which nobody asks for.
    let vendor_len: usize = read_le32(data, 8) as usize;
    if total - 12 < vendor_len {
        return ;
    }
    let mut pos: usize = 12 + vendor_len;
    if total - pos < 4 {
        return ;
    }
    let n_comments: u32 = read_le32(data, pos);
    pos = pos + 4;
    let ghost all = opus_tags(data@);
    let ghost mut emitted: Seq<(TagKind, Seq<char>)> = Seq::empty();
    let mut i: u32 = 0;
    assert(data@.skip(12 + vendor_len).skip(4) =~= data@.skip(pos as int));
    assert(all =~= emitted + comment_tags(data@.skip(pos as int), n_comments as int));
    while i < n_comments
        invariant
            i <= n_comments,
            total == data@.len(),
            pos <= total,
            before == tag_views(old(tags)@),
            all == opus_tags(data@),
            all == emitted + comment_tags(data@.skip(pos as int), n_comments - i),
            tag_views(tags@) == before + emitted,
        decreases n_comments - i,
    {
        let ghost s = data@.skip(pos as int);
        if total - pos < 4 {
            assert(all =~= emitted);
            return ;
        }
        let len: usize = read_le32(data, pos) as usize;
        if total - pos - 4 < len {
            assert(all =~= emitted);
            return ;
        }
        let ghost previous = tags@;
        assert(data@.subrange(pos + 4, pos + 4 + len) =~= s.subrange(4, 4 + len));
        assert(s.skip(4 + len) =~= data@.skip(pos + 4 + len));
        match parse_comment(&data[pos + 4..pos + 4 + len]) {
            Some(tag) => {
                let ghost view = tag@;
                tags.push(tag);
                proof {
                    assert(tag_views(tags@) =~= tag_views(previous).push(view));
                    emitted = emitted.push(view);
                    assert(tag_views(tags@) =~= before + emitted);
                }
            },
            None => {},
        }
        pos = pos + 4 + len;
        i = i + 1;
        assert(all =~= emitted + comment_tags(data@.skip(pos as int), n_comments - i));
    }
    assert(all =~= emitted);
}

/// `opuscule::Decoder`: an Opus decoder, with what it remembers of the packets so far.
#[verifier::external_type_specification]
#[verifier::external_body]
pub struct ExDecoder(opuscule::Decoder);

/// The number of channels that a decoder was made for.
pub uninterp spec fn decoder_channels(decoder: Decoder) -> nat;

/// The packets that a decoder was given so far.
pub uninterp spec fn decoder_history(decoder: Decoder) -> Seq<Seq<u8>>;

/// The frames that a packet may decode to, by a decoder for `channels` channels that was given `history`
/// before: values of 16 bits, interleaved by channel. The decoder computes in floating point, with a cosine
/// and an exponential that the machine provides, so that a value may differ from one machine to another:
/// hence a set. It is empty where the packet cannot be decoded.
pub uninterp spec fn decodings(channels: nat, history: Seq<Seq<u8>>, packet: Seq<u8>) -> Set<Seq<i16>>;

/// How many samples per channel a packet decodes to; `None` where it cannot be decoded.
#[verifier::opaque]
pub open spec fn samples_in(channels: nat, history: Seq<Seq<u8>>, packet: Seq<u8>) -> Option<nat> {
    let frames = decodings(channels, history, packet);
    if exists|f: Seq<i16>| frames.contains(f) {
        let frame = choose|f: Seq<i16>| frames.contains(f);
        Some((frame.len() as int / channels as int) as nat)
    } else {
        None
    }
}

/// The values are a frame that the last packet of a history may decode to, with as many samples as it has.
pub open spec fn is_last_frame(channels: nat, history: Seq<Seq<u8>>, values: Seq<i16>) -> bool {
    &&& history.len() > 0
    &&& decodings(channels, history.drop_last(), history.last()).contains(values)
    &&& samples_in(channels, history.drop_last(), history.last()) matches Some(len) && values.len() == len * channels
}

/// `opuscule::Decoder::new`: a decoder to 48 kHz that was given nothing.
#[verifier::external_body]
fn new_decoder(channels: Channels) -> (decoder: Decoder)
    ensures
        decoder_channels(decoder) == channels.number(),
        decoder_history(decoder) == Seq::<Seq<u8>>::empty(),
{
    let channels = match channels {
        Channels::Mono => opuscule::Channels::Mono,
        Channels::Stereo => opuscule::Channels::Stereo,
    };
    Decoder::new(opuscule::SampleRate::Hz48000, channels)
}

/// `opuscule::Decoder::decode`, with the number of samples for each channel that it reports and its output
/// buffer as 16-bit samples, interleaved by channel. The claim is that the frame at the front of the buffer is
/// one that the packet may decode to, by the channels of the decoder and the packets that it was given, that
/// whatever the machine it has as many values and fits the buffer, and that there is none where the packet
/// cannot be decoded. The crate's notes tell of hardening against packets made to harm; nothing in it promises
/// that none makes it panic.
#[verifier::external_body]
fn decode(decoder: &mut Decoder, packet: &[u8]) -> (frame: Option<(usize, Vec<i16>)>)
    ensures
        match frame {
            Some((n, values)) => {
                let channels = decoder_channels(*old(decoder));
                let frames = decodings(channels, decoder_history(*old(decoder)), packet@);
                &&& frames.contains(values@.take(n * channels))
                &&& forall|g: Seq<i16>| #[trigger] frames.contains(g) ==> g.len() == n * channels
                &&& n * channels <= values@.len() == 2 * MAX_FRAME
            },
            None => forall|g: Seq<i16>| !decodings(
                decoder_channels(*old(decoder)),
                decoder_history(*old(decoder)),
                packet@,
            ).contains(g),
        },
        decoder_channels(*final(decoder)) == decoder_channels(*old(decoder)),
        decoder_history(*final(decoder)) == decoder_history(*old(decoder)).push(packet@),
{
    let mut frame = vec![0 as opuscule::Val; MAX_FRAME * 2];
    let n = decoder.decode(Some(packet), &mut frame, false).ok()?;
    Some((n, frame.into_iter().map(opuscule::sample_to_i16).collect()))
}

/// Decodes a packet, where it can be decoded.
fn decode_packet(decoder: &mut Decoder, channels: usize, packet: &[u8]) -> (frame: Option<Vec<i16>>)
    requires
        channels == decoder_channels(*old(decoder)),
        1 <= channels <= 2,
    ensures
        ({
            let len = samples_in(decoder_channels(*old(decoder)), decoder_history(*old(decoder)), packet@);
            match frame {
                Some(f) => {
                    &&& len is Some
                    &&& f@.len() == channels * len->0 <= 2 * MAX_FRAME
                    &&& is_last_frame(
                        decoder_channels(*final(decoder)),
                        decoder_history(*final(decoder)),
                        f@,
                    )
                },
                None => len is None,
            }
        }),
        decoder_channels(*final(decoder)) == decoder_channels(*old(decoder)),
        decoder_history(*final(decoder)) == decoder_history(*old(decoder)).push(packet@),
{
    let ghost history = decoder_history(*decoder);
    let ghost frames = decodings(channels as nat, history, packet@);
    proof {
        reveal(samples_in);
        assert(history.push(packet@).drop_last() =~= history);
    }
    match decode(decoder, packet) {
        Some((n, values)) => {
            let mut frame: Vec<i16> = values;
            frame.truncate(n * channels);
            proof {
                let f = frame@;
                assert(frames.contains(f));
                let g = choose|g: Seq<i16>| frames.contains(g);
                assert(g.len() == n * channels);
                lemma_whole_frames(n as int, channels as int);
                lemma_divides_back(f.len() as int, channels as int);
            }
            Some(frame)
        },
        None => None,
    }
}

/// Where a reader of an Opus stream stands: the packets and the bytes that are still to come, whether the
/// stream fails behind those, what the decoder was given, the encoder delay that is still to be dropped, whether the stream was found to be
/// at its end, and how many samples of the current frame are left.
pub struct Playhead {
    pub demux: Demux,
    pub rest: Seq<u8>,
    pub broken: bool,
    pub history: Seq<Seq<u8>>,
    pub pre_skip: int,
    pub ended: bool,
    pub avail: int,
}

/// What decoding a frame comes to.
pub enum FrameRead {
    /// The end of the stream.
    End(Playhead),
    Failed,
    /// A frame of `len` samples, of which `skipped` are encoder delay.
    Frame { len: int, skipped: int, then: Playhead },
}

/// The next frame that is not all encoder delay.
pub open spec fn frame_of(
    channels: nat,
    demux: Demux,
    rest: Seq<u8>,
    broken: bool,
    history: Seq<Seq<u8>>,
    pre_skip: int,
) -> FrameRead
    decreases demux.left(rest),
{
    proof {
        lemma_packet_uses_up(demux, rest);
    }
    match packet_of(demux, rest) {
        PacketRead::End(demux2, rest2) => if broken {
            FrameRead::Failed
        } else {
            FrameRead::End(
                Playhead { demux: demux2, rest: rest2, broken, history, pre_skip, ended: true, avail: 0 },
            )
        },
        PacketRead::Bad => FrameRead::Failed,
        PacketRead::Packet(packet, demux2, rest2) => match samples_in(channels, history, packet.data) {
            None => FrameRead::Failed,
            Some(len) => {
                let skipped = if pre_skip < len {
                    pre_skip
                } else {
                    len as int
                };
                let history2 = history.push(packet.data);
                if skipped < len {
                    FrameRead::Frame {
                        len: len as int,
                        skipped,
                        then: Playhead {
                            demux: demux2,
                            rest: rest2,
                            broken,
                            history: history2,
                            pre_skip: pre_skip - skipped,
                            ended: false,
                            avail: len - skipped,
                        },
                    }
                } else {
                    frame_of(channels, demux2, rest2, broken, history2, pre_skip - skipped)
                }
            },
        },
    }
}

impl Playhead {
    /// How much there is still to come.
    pub open spec fn left(self) -> int {
        self.demux.left(self.rest)
    }

    /// With a sample to give, where the stream has one. `None` where it cannot be decoded.
    pub open spec fn ready(self, channels: nat) -> Option<Playhead> {
        if self.avail > 0 || self.ended {
            Some(self)
        } else {
            match frame_of(channels, self.demux, self.rest, self.broken, self.history, self.pre_skip) {
                FrameRead::End(then) => Some(then),
                FrameRead::Failed => None,
                FrameRead::Frame { len, skipped, then } => Some(then),
            }
        }
    }

    /// After `n` samples of the current frame.
    pub open spec fn advanced(self, n: int) -> Playhead {
        Playhead { avail: self.avail - n, ..self }
    }

    /// After `n` samples, or at the end of the stream where it has fewer; and how many are missing.
    pub open spec fn forward(self, channels: nat, n: int) -> Option<(Playhead, int)>
        decreases self.left(), n,
    {
        if n <= 0 {
            Some((self, 0))
        } else {
            proof {
                lemma_frame_uses_up(channels, self.demux, self.rest, self.broken, self.history, self.pre_skip);
            }
            match self.ready(channels) {
                None => None,
                Some(next) => if next.avail <= 0 {
                    Some((next, n))
                } else {
                    let taken = if next.avail < n {
                        next.avail
                    } else {
                        n
                    };
                    next.advanced(taken).forward(channels, n - taken)
                },
            }
        }
    }
}

/// Behind a frame there is less left than before it.
pub proof fn lemma_frame_uses_up(
    channels: nat,
    demux: Demux,
    rest: Seq<u8>,
    broken: bool,
    history: Seq<Seq<u8>>,
    pre_skip: int,
)
    ensures
        frame_of(channels, demux, rest, broken, history, pre_skip) matches FrameRead::Frame {
            len,
            skipped,
            then,
        } ==> {
            &&& 0 <= then.left() < demux.left(rest)
            &&& then.avail == len - skipped > 0
            &&& !then.ended
            &&& pre_skip >= 0 ==> skipped >= 0 && then.pre_skip >= 0
        },
        frame_of(channels, demux, rest, broken, history, pre_skip) matches FrameRead::End(then) ==> then.avail == 0
            && then.ended,
    decreases demux.left(rest),
{
    lemma_packet_uses_up(demux, rest);
    match packet_of(demux, rest) {
        PacketRead::Packet(packet, demux2, rest2) => match samples_in(channels, history, packet.data) {
            Some(len) => {
                let skipped = if pre_skip < len {
                    pre_skip
                } else {
                    len as int
                };
                if skipped >= len {
                    lemma_frame_uses_up(
                        channels,
                        demux2,
                        rest2,
                        broken,
                        history.push(packet.data),
                        pre_skip - skipped,
                    );
                }
            },
            None => {},
        },
        _ => {},
    }
}

/// Reads the samples of an Ogg Opus stream.
pub struct OpusReader<R> {
    packets: BasePacketReader,
    inp: R,
    /// Serial number of the logical bitstream we are decoding.
    serial: u32,
    decoder: Box<Decoder>,
    channels: Channels,
    /// The current decoded frame, interleaved.
    frame: Vec<i16>,
    /// Read cursor into `frame`, in values.
    frame_pos: usize,
    /// Remaining encoder delay to drop from the front of the stream, in samples.
    pre_skip: usize,
    /// The stream's full encoder delay (granule positions include it).
    total_pre_skip: u64,
    ended: bool,
}

impl<R: Read> OpusReader<R> {
    /// The reader holds whole frames, and a decoder for its channels.
    pub closed spec fn wf(&self) -> bool {
        &&& self.frame_pos <= self.frame.len() <= 2 * MAX_FRAME
        &&& self.frame.len() as int % self.channels.number() as int == 0
        &&& self.frame_pos as int % self.channels.number() as int == 0
        &&& decoder_channels(*self.decoder) == self.channels.number()
        &&& self.total_pre_skip <= u16::MAX
        &&& self.pre_skip <= u16::MAX
        &&& self.frame_pos < self.frame.len() ==> is_last_frame(
            self.channels.number(),
            decoder_history(*self.decoder),
            self.frame@,
        )
    }

    pub closed spec fn layout(&self) -> Channels {
        self.channels
    }

    /// The number of the logical bitstream.
    pub closed spec fn stream(&self) -> u32 {
        self.serial
    }

    /// The encoder delay of the stream.
    pub closed spec fn delay(&self) -> int {
        self.total_pre_skip as int
    }

    /// All bytes of the stream.
    pub closed spec fn whole(&self) -> Seq<u8> {
        self.inp.whole()
    }

    /// The length that the stream states.
    pub closed spec fn extent(&self) -> nat {
        self.inp.extent()
    }

    /// The current frame's values.
    pub closed spec fn values(&self) -> Seq<i16> {
        self.frame@
    }

    pub closed spec fn playhead(&self) -> Playhead {
        Playhead {
            demux: demux_of(self.packets),
            rest: self.inp.rest(),
            broken: self.inp.broken(),
            history: decoder_history(*self.decoder),
            pre_skip: self.pre_skip as int,
            ended: self.ended,
            avail: (self.frame.len() - self.frame_pos) / self.channels.number() as int,
        }
    }

    /// What does not change while reading.
    pub open spec fn same_stream(&self, other: &Self) -> bool {
        &&& self.layout() == other.layout()
        &&& self.stream() == other.stream()
        &&& self.delay() == other.delay()
        &&& self.whole() == other.whole()
        &&& self.extent() == other.extent()
        &&& self.playhead().broken == other.playhead().broken
    }

    /// Decodes the next packet into `frame`. Returns `Some(false)` at the end of the stream.
    fn next_frame(&mut self) -> (r: Option<bool>)
        requires
            old(self).wf(),
            old(self).playhead().avail == 0,
        ensures
            final(self).wf(),
            final(self).same_stream(old(self)),
            match old(self).playhead().ready(old(self).layout().number()) {
                None => r is None,
                Some(next) => {
                    &&& final(self).playhead() == next
                    &&& r == Some(next.avail > 0)
                },
            },
    {
        let ch: usize = self.channels.count();
        let ghost n = self.channels.number();
        let ghost start = self.playhead();
        let ghost result = frame_of(n, start.demux, start.rest, start.broken, start.history, start.pre_skip);
        if self.ended {
            return Some(false);
        }
        loop
            invariant
                ch == n == self.channels.number(),
                1 <= ch <= 2,
                self.same_stream(old(self)),
                start == old(self).playhead(),
                result == frame_of(n, start.demux, start.rest, start.broken, start.history, start.pre_skip),
                result == frame_of(
                    n,
                    demux_of(self.packets),
                    self.inp.rest(),
                    self.inp.broken(),
                    decoder_history(*self.decoder),
                    self.pre_skip as int,
                ),
                n == old(self).layout().number(),
                self.wf(),
                !self.ended,
                start.avail == 0,
                !start.ended,
                self.frame_pos == self.frame.len(),
            decreases demux_of(self.packets).left(self.inp.rest()),
        {
            proof {
                lemma_packet_uses_up(demux_of(self.packets), self.inp.rest());
            }
            let ghost before = *self;
            let packet: Packet = match next_packet(&mut self.packets, &mut self.inp) {
                None => return None,
                Some(None) => {
                    self.ended = true;
                    return Some(false);
                },
                Some(Some(packet)) => packet,
            };
            let frame: Vec<i16> = match decode_packet(&mut self.decoder, ch, packet.data.as_slice()) {
                Some(frame) => frame,
                None => return None,
            };
            let ghost len = samples_in(n, decoder_history(*before.decoder), packet@.data)->0;
            let nsamples: usize = frame.len() / ch;
            proof {
                lemma_whole_frames(len as int, n as int);
            }
            assert(nsamples == len);
            self.frame = frame;
            let nskip: usize = if self.pre_skip < nsamples {
                self.pre_skip
            } else {
                nsamples
            };
            proof {
                lemma_whole_frames(nskip as int, n as int);
                lemma_whole_frames(len - nskip, n as int);
                lemma_frames_apart(len as int, nskip as int, n as int);
            }
            self.frame_pos = nskip * ch;
            self.pre_skip = self.pre_skip - nskip;
            if self.frame_pos < self.frame.len() {
                return Some(true);
            }
        }
    }
}

proof fn lemma_divides_back(len: int, n: int)
    requires
        0 <= len,
        1 <= n <= 2,
        len % n == 0,
    ensures
        n * (len / n) == len,
{
    assert(n * (len / n) == len) by (nonlinear_arith)
        requires
            len % n == 0,
            n > 0,
    ;
}

/// A number of whole frames is one, and divides back to it.
proof fn lemma_whole_frames(k: int, n: int)
    requires
        0 <= k,
        1 <= n <= 2,
    ensures
        k * n / n == k,
        n * k == k * n,
        (k * n) % n == 0,
        0 <= k * n,
{
    assert(n == 1 || n == 2);
    if n == 1 {
        assert(k * n == k) by (nonlinear_arith)
            requires
                n == 1,
        ;
    } else {
        assert(k * n == 2 * k) by (nonlinear_arith)
            requires
                n == 2,
        ;
    }
    assert(n * k == k * n) by (nonlinear_arith);
}

proof fn lemma_frames_apart(len: int, skipped: int, n: int)
    requires
        0 <= skipped <= len,
        1 <= n <= 2,
    ensures
        len * n - skipped * n == (len - skipped) * n,
        skipped * n <= len * n,
        skipped < len ==> skipped * n < len * n,
{
    assert(len * n - skipped * n == (len - skipped) * n) by (nonlinear_arith);
    assert(skipped * n <= len * n) by (nonlinear_arith)
        requires
            skipped <= len,
            n >= 1,
    ;
    if skipped < len {
        assert(skipped * n < len * n) by (nonlinear_arith)
            requires
                skipped < len,
                n >= 1,
        ;
    }
}

/// The value that a channel's `k`-th sample from value `start` on has in an interleaved frame; a mono
/// frame has the one channel on both sides.
pub open spec fn value_at(frame: Seq<i16>, start: int, k: int, channels: nat, right: bool) -> i16 {
    if channels == 2 {
        frame[start + 2 * k + if right {
            1int
        } else {
            0int
        }]
    } else {
        frame[start + k]
    }
}

impl<R: Read> OpusReader<R> {
    /// Fills the front of `buf` from the current frame, decoding one where there is none left. Returns
    /// zero at the end of the stream, and `None` where it cannot be decoded.
    fn read_frame(&mut self, buf: &mut [Stereo<PcmS16Le>]) -> (r: Option<usize>)
        requires
            old(self).wf(),
        ensures
            opus_read(*old(self), *final(self), old(buf)@, final(buf)@, r),
            final(self).wf(),
            r matches Some(k) ==> k <= old(buf)@.len(),
    {
        let ch: usize = self.channels.count();
        proof {
            lemma_avail(self.frame.len() as int, self.frame_pos as int, ch as int);
        }
        if self.frame_pos >= self.frame.len() {
            match self.next_frame() {
                Some(true) => {},
                Some(false) => {
                    return Some(0);
                },
                None => {
                    return None;
                },
            }
        }
        let ghost next = self.playhead();
        proof {
            lemma_avail(self.frame.len() as int, self.frame_pos as int, ch as int);
        }
        let avail: usize = (self.frame.len() - self.frame_pos) / ch;
        let len: usize = buf.len();
        let n: usize = if avail < len {
            avail
        } else {
            len
        };
        let start: usize = self.frame_pos;
        let ghost wf_start = *self;
        assert(n * ch <= self.frame.len() - start) by (nonlinear_arith)
            requires
                n <= avail,
                avail * ch == self.frame.len() - start,
                ch >= 1,
        ;
        let mut k: usize = 0;
        while k < n
            invariant
                k <= n <= len == buf@.len() == old(buf)@.len(),
                1 <= ch <= 2,
                start + n * ch <= self.frame.len() <= 2 * MAX_FRAME,
                self.frame_pos == start + k * ch,
                self.frame == wf_start.frame,
                self.packets == wf_start.packets,
                self.inp == wf_start.inp,
                self.serial == wf_start.serial,
                self.decoder == wf_start.decoder,
                self.channels == wf_start.channels,
                self.pre_skip == wf_start.pre_skip,
                self.total_pre_skip == wf_start.total_pre_skip,
                self.ended == wf_start.ended,
                forall|j: int|
                    0 <= j < k ==> {
                        &&& (#[trigger] buf@[j]).left.value() == value_at(
                            self.frame@,
                            start as int,
                            j,
                            ch as nat,
                            false,
                        )
                        &&& buf@[j].right.value() == value_at(
                            self.frame@,
                            start as int,
                            j,
                            ch as nat,
                            true,
                        )
                    },
                forall|j: int| k <= j < len ==> #[trigger] buf@[j] == old(buf)@[j],
            decreases n - k,
        {
            proof {
                lemma_frames_apart(n as int, k + 1, ch as int);
                assert((k + 1) * ch == k * ch + ch) by (nonlinear_arith);
                assert(ch == 2 ==> k * ch == 2 * k) by (nonlinear_arith);
                assert(ch == 1 ==> k * ch == k) by (nonlinear_arith);
            }
            let left: i16 = self.frame[self.frame_pos];
            let right: i16 = if ch == 2 {
                self.frame[self.frame_pos + 1]
            } else {
                left
            };
            let ghost previous = buf@;
            buf[k] = Stereo::new(PcmS16Le::new(left), PcmS16Le::new(right));
            assert(buf@ =~= previous.update(k as int, buf@[k as int]));
            self.frame_pos = self.frame_pos + ch;
            k = k + 1;
        }
        proof {
            lemma_whole_frames(avail as int, ch as int);
            lemma_whole_frames(n as int, ch as int);
            lemma_frames_apart(avail as int, n as int, ch as int);
            lemma_whole_frames(avail - n, ch as int);
            lemma_mod_add(start as int, n as int, ch as int);
        }
        Some(n)
    }
}

/// What is left of a frame is a number of whole samples.
proof fn lemma_avail(len: int, pos: int, ch: int)
    requires
        0 <= pos <= len,
        1 <= ch <= 2,
        len % ch == 0,
        pos % ch == 0,
    ensures
        ((len - pos) / ch) * ch == len - pos,
        pos < len <==> (len - pos) / ch > 0,
{
    assert(ch == 1 || ch == 2);
    if ch == 1 {
        assert(((len - pos) / ch) * ch == len - pos) by (nonlinear_arith)
            requires
                ch == 1,
        ;
    } else {
        assert(((len - pos) / ch) * ch == len - pos) by (nonlinear_arith)
            requires
                ch == 2,
                len % ch == 0,
                pos % ch == 0,
        ;
    }
}

proof fn lemma_mod_add(start: int, n: int, ch: int)
    requires
        start % ch == 0,
        0 <= n,
        0 <= start,
        1 <= ch <= 2,
    ensures
        (start + n * ch) % ch == 0,
{
    if ch == 1 {
    } else {
        assert(n * ch == 2 * n) by (nonlinear_arith)
            requires
                ch == 2,
        ;
    }
}

/// What a read of an Opus stream does: it fills the front of the buffer with the next samples of the
/// current frame, after decoding one where none are left, and leaves the rest of it.
pub open spec fn opus_read<R: Read>(
    before: OpusReader<R>,
    after: OpusReader<R>,
    old_buf: Seq<Stereo<PcmS16Le>>,
    new_buf: Seq<Stereo<PcmS16Le>>,
    r: Option<usize>,
) -> bool {
    &&& after.same_stream(&before)
    &&& new_buf.len() == old_buf.len()
    &&& match before.playhead().ready(before.layout().number()) {
        None => r is None && new_buf == old_buf,
        Some(next) => {
            let ch = before.layout().number();
            let n = at_most(next.avail, old_buf.len());
            let start = after.values().len() - next.avail * ch;
            &&& r == Some(n as usize)
            &&& after.playhead() == next.advanced(n)
            &&& before.playhead().avail > 0 ==> after.values() == before.values()
            &&& n > 0 ==> is_last_frame(ch, next.history, after.values())
            &&& forall|k: int|
                0 <= k < n ==> {
                    &&& (#[trigger] new_buf[k]).left.value() == value_at(
                        after.values(),
                        start,
                        k,
                        ch,
                        false,
                    )
                    &&& new_buf[k].right.value() == value_at(after.values(), start, k, ch, true)
                }
            &&& forall|k: int| n <= k < old_buf.len() ==> #[trigger] new_buf[k] == old_buf[k]
        },
    }
}

/// What moving forward in an Opus stream does: it decodes and discards.
pub open spec fn opus_forwarded<R: Read>(
    before: OpusReader<R>,
    after: OpusReader<R>,
    nsamples: u64,
    r: Option<u64>,
) -> bool {
    &&& after.same_stream(&before)
    &&& match before.playhead().forward(before.layout().number(), nsamples as int) {
        None => r is None,
        Some((then, missing)) => {
            &&& r == Some((nsamples - missing) as u64)
            &&& 0 <= missing <= nsamples
            &&& after.playhead() == then
        },
    }
}

/// What a seek in an Opus stream does.
pub open spec fn opus_sought<R: Read>(
    before: OpusReader<R>,
    after: OpusReader<R>,
    target: u64,
    pos: Option<u64>,
) -> bool {
    &&& after.same_stream(&before)
    &&& match sought(
        before.layout().number(),
        before.whole(),
        before.extent(),
        before.stream(),
        before.delay(),
        target as int,
    ) {
        None => pos is None,
        Some((at, head)) => {
            &&& pos == Some(at as u64)
            &&& 0 <= at <= u64::MAX
            &&& after.wf()
            &&& after.playhead() == head
        },
    }
}

impl<R: Read> Source<Stereo<PcmS16Le>> for OpusReader<R> {
    open spec fn readable(&self) -> bool {
        self.wf()
    }

    fn read_samples(&mut self, buf: &mut [Stereo<PcmS16Le>]) -> (r: Option<usize>)
        ensures
            opus_read(*old(self), *final(self), old(buf)@, final(buf)@, r),
    {
        self.read_frame(buf)
    }
}

impl<R: Read> FastForward for OpusReader<R> {
    open spec fn movable(&self) -> bool {
        self.wf()
    }

    fn fast_forward(&mut self, nsamples: u64) -> (r: Option<u64>)
        ensures
            opus_forwarded(*old(self), *final(self), nsamples, r),
    {
        let ch: usize = self.channels.count();
        let ghost n = self.channels.number();
        let ghost result = self.playhead().forward(n, nsamples as int);
        let mut remaining: u64 = nsamples;
        while remaining > 0
            invariant
                ch == n == self.channels.number(),
                1 <= ch <= 2,
                n == old(self).layout().number(),
                self.same_stream(old(self)),
                self.wf(),
                remaining <= nsamples,
                result == old(self).playhead().forward(n, nsamples as int),
                result == self.playhead().forward(n, remaining as int),
            decreases self.playhead().left(), remaining,
        {
            let ghost head = self.playhead();
            proof {
                lemma_avail(self.frame.len() as int, self.frame_pos as int, ch as int);
                lemma_frame_uses_up(n, head.demux, head.rest, head.broken, head.history, head.pre_skip);
            }
            if self.frame_pos >= self.frame.len() {
                match self.next_frame() {
                    None => return None,
                    Some(false) => {
                        assert(self.playhead().avail == 0) by {
                            lemma_avail(self.frame.len() as int, self.frame_pos as int, ch as int);
                        }
                        return Some(nsamples - remaining);
                    },
                    Some(true) => {},
                }
            }
            proof {
                lemma_avail(self.frame.len() as int, self.frame_pos as int, ch as int);
            }
            let avail: usize = (self.frame.len() - self.frame_pos) / ch;
            let ntake: u64 = if (avail as u64) < remaining {
                avail as u64
            } else {
                remaining
            };
            let ghost next = self.playhead();
            let ghost pos = self.frame_pos;
            proof {
                lemma_frames_apart(avail as int, ntake as int, ch as int);
                lemma_whole_frames(avail - ntake, ch as int);
                lemma_whole_frames(ntake as int, ch as int);
                lemma_mod_add(pos as int, ntake as int, ch as int);
            }
            self.frame_pos = self.frame_pos + ntake as usize * ch;
            remaining = remaining - ntake;
            assert(self.playhead() == next.advanced(ntake as int));
        }
        Some(nsamples - remaining)
    }
}

/// The first page from the `i`-th byte of `window` on whose granule position says where it ends: pages
/// of headers have none, nor have pages on which no packet ends.
pub open spec fn first_granule_from(window: Seq<u8>, i: int, serial: u32) -> Option<(int, u64)>
    decreases window.len() - i,
{
    if i > window.len() - 27 {
        None
    } else {
        match granule_at(window, i, serial) {
            Some(granule) => if granule != 0 && granule != NO_GRANULE {
                Some((i, granule))
            } else {
                first_granule_from(window, i + 1, serial)
            },
            None => first_granule_from(window, i + 1, serial),
        }
    }
}

/// The first audio page at or after `offset`, as its byte offset and its granule position.
/// `None` where the stream fails within the window that is looked at.
pub open spec fn probe(whole: Seq<u8>, extent: nat, offset: int, serial: u32) -> Option<(int, u64)> {
    if whole.len() < extent && whole.len() < offset + 3 * MAX_PAGE_SIZE {
        None
    } else {
        match first_granule_from(front(back(whole, offset), 3 * MAX_PAGE_SIZE as int), 0, serial) {
            Some((i, granule)) => Some((offset + i, granule)),
            None => None,
        }
    }
}

/// Finds the first complete, checksum-valid audio page of stream `serial` at or after `offset`:
/// returns its byte offset and granule position. Header pages (granule 0) and pages on which no
/// packet ends (granule -1) are skipped. Scans a window big enough for several maximum-size
/// pages; a stream position past the last page yields `None`.
fn probe_page<R: Seek>(inp: &mut R, offset: u64, serial: u32) -> (found: Option<(u64, u64)>)
    ensures
        match probe(old(inp).whole(), old(inp).extent(), offset as int, serial) {
            Some((at, granule)) => found == Some((at as u64, granule)) && 0 <= at <= u64::MAX,
            None => found is None,
        },
        final(inp).whole() == old(inp).whole(),
        final(inp).beyond() == old(inp).beyond(),
        final(inp).broken() == old(inp).broken(),
        final(inp).extent() == old(inp).extent(),
{
    let len: u64 = inp.stream_len();
    inp.seek(offset);
    let window: Vec<u8> = match inp.read_up_to(3 * MAX_PAGE_SIZE as usize) {
        Some(window) => window,
        None => return None,
    };
    let n: usize = window.len();
    let mut i: usize = 0;
    while n >= 27 && i <= n - 27
        invariant
            n == window.len(),
            i <= n,
            n > 0 ==> offset + n <= len,
            window@ == front(back(old(inp).whole(), offset as int), 3 * MAX_PAGE_SIZE as int),
            first_granule_from(window@, 0, serial) == first_granule_from(window@, i as int, serial),
            inp.whole() == old(inp).whole(),
            inp.beyond() == old(inp).beyond(),
            inp.broken() == old(inp).broken(),
            inp.extent() == old(inp).extent(),
            !(old(inp).whole().len() < old(inp).extent() && old(inp).whole().len() < offset + 3 * MAX_PAGE_SIZE),
        decreases n - i,
    {
        match granule_here(window.as_slice(), i, serial) {
            Some(granule) => {
                if granule != 0 && granule != NO_GRANULE {
                    return Some((offset + i as u64, granule));
                }
            },
            None => {},
        }
        i = i + 1;
    }
    None
}

/// Bisects the bytes from `lo` to `hi` for the latest page that ends at or before `granule`: an offset
/// from which on that page is not far.
pub open spec fn bisected(whole: Seq<u8>, extent: nat, serial: u32, granule: int, lo: int, hi: int) -> int
    decreases hi - lo,
{
    if hi - lo > 2 * MAX_PAGE_SIZE {
        let mid = lo + (hi - lo) / 2;
        match probe(whole, extent, mid, serial) {
            Some((at, found)) => if found <= granule {
                bisected(whole, extent, serial, granule, mid, hi)
            } else {
                bisected(whole, extent, serial, granule, lo, mid)
            },
            None => bisected(whole, extent, serial, granule, lo, mid),
        }
    } else {
        lo
    }
}

/// The page at which decoding starts in order to hear what follows `granule`: one that ends at or before
/// it. `None` where the stream is best decoded from its start.
pub open spec fn landing(whole: Seq<u8>, extent: nat, serial: u32, granule: int) -> Option<(int, u64)> {
    match probe(whole, extent, bisected(whole, extent, serial, granule, 0, extent as int), serial) {
        Some((at, found)) => if found <= granule {
            Some((at, found))
        } else {
            None
        },
        None => None,
    }
}

/// `a - b`, and zero where that is less.
pub open spec fn less(a: int, b: int) -> int {
    if a < b {
        0
    } else {
        a - b
    }
}

/// Decodes up to granule position `target` and no further than needed. `pos` is the granule position
/// behind the last packet, where it is known: where a page ends, and from there on by the samples that
/// are decoded. `delay` is what granule positions are ahead of samples. Gives the position landed on and
/// the reader's state there.
pub open spec fn preroll(
    channels: nat,
    demux: Demux,
    rest: Seq<u8>,
    broken: bool,
    history: Seq<Seq<u8>>,
    pos: Option<int>,
    landed: int,
    target: int,
    delay: int,
) -> Option<(int, Playhead)>
    decreases demux.left(rest),
{
    proof {
        lemma_packet_uses_up(demux, rest);
    }
    match packet_of(demux, rest) {
        PacketRead::Bad => None,
        PacketRead::End(demux2, rest2) => if broken {
            None
        } else {
            let at = match pos {
                Some(p) => p,
                None => landed,
            };
            Some(
                (
                    less(at, delay),
                    Playhead { demux: demux2, rest: rest2, broken, history, pre_skip: 0, ended: true, avail: 0 },
                ),
            )
        },
        PacketRead::Packet(packet, demux2, rest2) => match samples_in(channels, history, packet.data) {
            None => None,
            Some(len) => {
                let history2 = history.push(packet.data);
                let known = if packet.last_in_page && packet.granule != NO_GRANULE {
                    Some(packet.granule as int)
                } else {
                    match pos {
                        Some(p) => Some(p + len),
                        None => None,
                    }
                };
                match known {
                    Some(p) => if p > u64::MAX {
                        None
                    } else if p > target {
                        // The target is inside this frame: its tail is kept.
                        let start = p - len;
                        let actual = if start < target {
                            target
                        } else {
                            start
                        };
                        if start < 0 {
                            None
                        } else {
                            Some(
                                (
                                    less(actual, delay),
                                    Playhead {
                                        demux: demux2,
                                        rest: rest2,
                                        broken,
                                        history: history2,
                                        pre_skip: 0,
                                        ended: false,
                                        avail: p - actual,
                                    },
                                ),
                            )
                        }
                    } else {
                        preroll(channels, demux2, rest2, broken, history2, known, landed, target, delay)
                    },
                    None => preroll(channels, demux2, rest2, broken, history2, known, landed, target, delay),
                }
            },
        },
    }
}

/// At the start of the audio: behind the two header packets.
pub open spec fn restarted(whole: Seq<u8>, broken: bool, delay: int) -> Option<Playhead> {
    match packet_of(Demux::start(false), whole) {
        PacketRead::Packet(head, demux, rest) => match packet_of(demux, rest) {
            PacketRead::Packet(tags, demux2, rest2) => Some(
                Playhead {
                    demux: demux2,
                    rest: rest2,
                    broken,
                    history: Seq::empty(),
                    pre_skip: delay,
                    ended: false,
                    avail: 0,
                },
            ),
            _ => None,
        },
        _ => None,
    }
}

/// Where a seek to sample `target` lands, and the reader's state there.
pub open spec fn sought(
    channels: nat,
    whole: Seq<u8>,
    extent: nat,
    serial: u32,
    delay: int,
    target: int,
) -> Option<(int, Playhead)> {
    let granule = target + delay;
    match landing(whole, extent, serial, less(granule, PREROLL as int)) {
        Some((at, landed)) => preroll(
            channels,
            Demux::start(true),
            back(whole, at),
            whole.len() < extent,
            Seq::empty(),
            None,
            landed as int,
            granule,
            delay,
        ),
        None => match restarted(whole, whole.len() < extent, delay) {
            Some(head) => match head.forward(channels, target) {
                Some((then, missing)) => Some((target - missing, then)),
                None => None,
            },
            None => None,
        },
    }
}

impl<R: Seek> OpusReader<R> {
    /// Seeks to an absolute sample position (the unit of [`Format::len_samples`] and of the
    /// sample counts this reader outputs), by bisecting over the granule positions of the Ogg
    /// pages and then decoding at least 80 ms of pre-roll before the target so the (predictive)
    /// decoder converges, as RFC 7845 §4.4 recommends.
    ///
    /// Returns the position actually landed on: `target`, unless the stream ends earlier or the
    /// container has a gap right at the target. On `None`, the reader may be left mid-stream and
    /// should be discarded.
    pub fn seek_samples(&mut self, target: u64) -> (pos: Option<u64>)
        requires
            old(self).wf(),
            target + old(self).delay() <= u64::MAX,
        ensures
            opus_sought(*old(self), *final(self), target, pos),
    {
        let ch: usize = self.channels.count();
        let ghost n = self.channels.number();
        let ghost whole = self.inp.whole();
        let delay: u64 = self.total_pre_skip;
        let target_granule: u64 = target + delay;
        let search_granule: u64 = target_granule.saturating_sub(PREROLL);
        let end: u64 = self.inp.stream_len();
        let ghost found_at = bisected(whole, self.inp.extent(), self.serial, search_granule as int, 0, end as int);
        let mut lo: u64 = 0;
        let mut hi: u64 = end;
        while hi.saturating_sub(lo) > 2 * MAX_PAGE_SIZE
            invariant
                lo <= hi <= end,
                self.inp.whole() == whole,
                self.inp.extent() == end,
                self.inp.broken() == (whole.len() < end),
                self.same_stream(old(self)),
                self.wf(),
                found_at == bisected(whole, self.inp.extent(), self.serial, search_granule as int, lo as int, hi as int),
                self.total_pre_skip == delay,
                self.channels == old(self).channels,
                self.serial == old(self).serial,
            decreases hi - lo,
        {
            let mid: u64 = lo + (hi - lo) / 2;
            match probe_page(&mut self.inp, mid, self.serial) {
                Some((at, granule)) => {
                    if granule <= search_granule {
                        lo = mid;
                    } else {
                        hi = mid;
                    }
                },
                None => {
                    hi = mid;
                },
            }
        }
        let (page_offset, landing_granule) = match probe_page(&mut self.inp, lo, self.serial) {
            Some((at, granule)) => {
                if granule <= search_granule {
                    (at, granule)
                } else {
                    return self.seek_from_start(target);
                }
            },
            None => {
                return self.seek_from_start(target);
            },
        };
        // Start over demuxing & decoding from the landing page.
        self.inp.seek(page_offset);
        self.packets = packet_reader(true);
        self.decoder = Box::new(new_decoder(self.channels));
        self.frame = Vec::new();
        self.frame_pos = 0;
        self.pre_skip = 0;
        self.ended = false;
        let ghost result = preroll(
            n,
            demux_of(self.packets),
            self.inp.rest(),
            self.inp.broken(),
            decoder_history(*self.decoder),
            None,
            landing_granule as int,
            target_granule as int,
            delay as int,
        );
        assert(search_granule == less(target_granule as int, PREROLL as int));
        assert(found_at == lo);
        assert(landing(whole, self.inp.extent(), self.serial, search_granule as int) == Some(
            (page_offset as int, landing_granule),
        ));
        // Decode up to the target, discarding output: this is the pre-roll. The position is only
        // known exactly where a page ends (its granule); in between, decoded samples are counted.
        // Packets of the landing page itself have no known position yet (`None`), but they all
        // end at or before its granule <= search_granule, so discarding them entirely is right.
        let mut pos: Option<u64> = None;
        let ghost mut known: Option<int> = None;
        loop
            invariant
                ch == n == self.channels.number(),
                1 <= ch <= 2,
                self.same_stream(old(self)),
                self.wf(),
                self.frame.len() == 0,
                self.pre_skip == 0,
                !self.ended,
                self.total_pre_skip == delay,
                target_granule == target + delay,
                match pos {
                    Some(p) => known == Some(p as int),
                    None => known is None,
                },
                result == sought(
                    old(self).layout().number(),
                    old(self).whole(),
                    old(self).extent(),
                    old(self).stream(),
                    old(self).delay(),
                    target as int,
                ),
                result == preroll(
                    n,
                    demux_of(self.packets),
                    self.inp.rest(),
                    self.inp.broken(),
                    decoder_history(*self.decoder),
                    known,
                    landing_granule as int,
                    target_granule as int,
                    delay as int,
                ),
            decreases demux_of(self.packets).left(self.inp.rest()),
        {
            proof {
                lemma_packet_uses_up(demux_of(self.packets), self.inp.rest());
            }
            let ghost before = *self;
            let packet: Packet = match next_packet(&mut self.packets, &mut self.inp) {
                None => return None,
                Some(None) => {
                    // The target is at or past the end of the stream.
                    self.ended = true;
                    let at: u64 = match pos {
                        Some(p) => p,
                        None => landing_granule,
                    };
                    return Some(at.saturating_sub(delay));
                },
                Some(Some(packet)) => packet,
            };
            let frame: Vec<i16> = match decode_packet(&mut self.decoder, ch, packet.data.as_slice()) {
                Some(frame) => frame,
                None => return None,
            };
            let ghost len = samples_in(n, decoder_history(*before.decoder), packet@.data)->0;
            let nsamples: u64 = (frame.len() / ch) as u64;
            proof {
                lemma_whole_frames(len as int, n as int);
            }
            assert(nsamples == len);
            if packet.last_in_page && packet.granule != NO_GRANULE {
                pos = Some(packet.granule);
            } else {
                match pos {
                    Some(p) => {
                        match p.checked_add(nsamples) {
                            Some(q) => {
                                pos = Some(q);
                            },
                            None => return None,
                        }
                    },
                    None => {},
                }
            }
            proof {
                known = match pos {
                    Some(p) => Some(p as int),
                    None => None,
                };
            }
            match pos {
                Some(p) => {
                    if p > target_granule {
                        // The target is inside this frame: keep its tail.
                        if p < nsamples {
                            return None;
                        }
                        let frame_start: u64 = p - nsamples;
                        let actual: u64 = if frame_start < target_granule {
                            target_granule
                        } else {
                            frame_start
                        };
                        let skipped: u64 = actual - frame_start;
                        proof {
                            lemma_frames_apart(len as int, skipped as int, n as int);
                            lemma_whole_frames(skipped as int, n as int);
                            lemma_whole_frames(len - skipped, n as int);
                        }
                        self.frame = frame;
                        self.frame_pos = skipped as usize * ch;
                        return Some(actual.saturating_sub(delay));
                    }
                },
                None => {},
            }
        }
    }

    /// Decodes from the very start to the target: within the first pages of the stream (or where probing
    /// failed entirely) that is just as cheap.
    fn seek_from_start(&mut self, target: u64) -> (pos: Option<u64>)
        requires
            old(self).wf(),
        ensures
            final(self).same_stream(old(self)),
            match restarted(old(self).whole(), old(self).playhead().broken, old(self).delay()) {
                None => pos is None,
                Some(head) => match head.forward(old(self).layout().number(), target as int) {
                    None => pos is None,
                    Some((then, missing)) => {
                        &&& 0 <= missing <= target
                        &&& pos == Some((target - missing) as u64)
                        &&& final(self).wf()
                        &&& final(self).playhead() == then
                    },
                },
            },
    {
        match self.restart() {
            Some(_) => self.fast_forward(target),
            None => None,
        }
    }

    /// Rewinds to the start of the audio, resetting all decoding state.
    fn restart(&mut self) -> (ok: Option<()>)
        requires
            old(self).wf(),
        ensures
            final(self).same_stream(old(self)),
            match restarted(old(self).whole(), old(self).playhead().broken, old(self).delay()) {
                None => ok is None,
                Some(head) => {
                    &&& ok is Some
                    &&& final(self).wf()
                    &&& final(self).playhead() == head
                },
            },
    {
        self.inp.seek(0);
        assert(back(self.inp.whole(), 0) =~= self.inp.whole());
        self.packets = packet_reader(false);
        self.decoder = Box::new(new_decoder(self.channels));
        self.frame = Vec::new();
        self.frame_pos = 0;
        self.pre_skip = self.total_pre_skip as usize;
        self.ended = false;
        // Skip the two header packets (OpusHead, OpusTags).
        match next_packet(&mut self.packets, &mut self.inp) {
            Some(Some(_)) => {},
            _ => return None,
        }
        match next_packet(&mut self.packets, &mut self.inp) {
            Some(Some(_)) => {},
            _ => return None,
        }
        Some(())
    }
}

/// The headers of an Ogg Opus stream: what its first two packets say, and where the audio begins.
pub struct Opening {
    pub channels: Channels,
    pub pre_skip: u16,
    pub serial: u32,
    pub tags: Seq<(TagKind, Seq<char>)>,
    pub demux: Demux,
    pub rest: Seq<u8>,
}

/// The headers at the front of `s`: OpusHead, then OpusTags. `None` where there are none that can be
/// decoded.
pub open spec fn opening_of(s: Seq<u8>) -> Option<Opening> {
    match packet_of(Demux::start(false), s) {
        PacketRead::Packet(head, demux, rest) => match head_of(head.data) {
            Some((channels, pre_skip)) => match packet_of(demux, rest) {
                PacketRead::Packet(tags, demux2, rest2) => Some(
                    Opening {
                        channels,
                        pre_skip,
                        serial: head.serial,
                        tags: opus_tags(tags.data),
                        demux: demux2,
                        rest: rest2,
                    },
                ),
                _ => None,
            },
            None => None,
        },
        _ => None,
    }
}

/// The tags at the front of `s`.
pub open spec fn opening_tags(s: Seq<u8>) -> Seq<(TagKind, Seq<char>)> {
    match opening_of(s) {
        Some(opening) => opening.tags,
        None => Seq::empty(),
    }
}

/// The parsed Ogg Opus headers: the format, plus what's needed to continue into
/// decoding. Parsing only this is much cheaper than a full [`OggOpus::parse`] (no decoder state,
/// no frame buffer), which matters when scanning a library for tags.
pub struct Headers {
    pub format: Format,
    pub channels: Channels,
    pub serial: u32,
    pub packets: BasePacketReader,
}

impl Headers {
    /// The format that the headers give; the length of the stream is not in them.
    pub open spec fn describe(&self, opening: Opening) -> bool {
        &&& self.format.n_channels == opening.channels.number()
        &&& self.format.pre_skip == opening.pre_skip
        &&& self.format.len_samples is None
        &&& self.channels == opening.channels
        &&& self.serial == opening.serial
        &&& demux_of(self.packets) == opening.demux
    }

    /// Reads the headers, adding the metadata tags to `tags`.
    pub fn parse<R: Read>(inp: &mut R, tags: &mut Vec<Tag>) -> (headers: Option<Headers>)
        ensures
            tag_views(final(tags)@) == tag_views(old(tags)@) + opening_tags(old(inp).rest()),
            headers is Some <==> opening_of(old(inp).rest()) is Some,
            headers matches Some(h) ==> {
                let opening = opening_of(old(inp).rest())->0;
                &&& h.describe(opening)
                &&& final(inp).rest() == opening.rest
            },
            final(inp).beyond() == old(inp).beyond(),
            final(inp).whole() == old(inp).whole(),
            final(inp).broken() == old(inp).broken(),
            final(inp).extent() == old(inp).extent(),
    {
        assert(tag_views(tags@) + Seq::<(TagKind, Seq<char>)>::empty() =~= tag_views(tags@));
        let mut packets: BasePacketReader = packet_reader(false);
        // The first two packets of an Ogg Opus stream are the headers: OpusHead, then OpusTags.
        let head: Packet = match next_packet(&mut packets, inp) {
            Some(Some(head)) => head,
            _ => return None,
        };
        let (channels, pre_skip) = match parse_opus_head(head.data.as_slice()) {
            Some(parsed) => parsed,
            None => return None,
        };
        let comments: Packet = match next_packet(&mut packets, inp) {
            Some(Some(comments)) => comments,
            _ => return None,
        };
        parse_opus_tags(tags, comments.data.as_slice());
        let format: Format = Format { n_channels: channels.count() as u16, pre_skip, len_samples: None };
        Some(Headers { format, channels, serial: head.serial, packets })
    }
}

/// An opened Ogg Opus stream.
pub struct OggOpus<R> {
    pub format: Format,
    pub samples: OpusReader<R>,
}

impl<R: Read> OggOpus<R> {
    /// The format and the reader are those of a stream that opens so, with nothing decoded yet, and that fails
    /// behind its bytes or not.
    pub open spec fn opens(&self, opening: Opening, broken: bool) -> bool {
        &&& self.format.n_channels == opening.channels.number()
        &&& self.format.pre_skip == opening.pre_skip
        &&& self.samples.wf()
        &&& self.samples.layout() == opening.channels
        &&& self.samples.stream() == opening.serial
        &&& self.samples.delay() == opening.pre_skip
        &&& self.samples.playhead() == (Playhead {
            demux: opening.demux,
            rest: opening.rest,
            broken,
            history: Seq::empty(),
            pre_skip: opening.pre_skip as int,
            ended: false,
            avail: 0,
        })
    }

    /// Parses the headers, adding the metadata tags to `tags`, and returns the stream positioned at the
    /// audio.
    pub fn parse(inp: R, tags: &mut Vec<Tag>) -> (opus: Option<Self>)
        ensures
            tag_views(final(tags)@) == tag_views(old(tags)@) + opening_tags(inp.rest()),
            opus is Some <==> opening_of(inp.rest()) is Some,
            opus matches Some(o) ==> {
                &&& o.opens(opening_of(inp.rest())->0, inp.broken())
                &&& o.format.len_samples is None
                &&& o.samples.whole() == inp.whole()
                &&& o.samples.extent() == inp.extent()
            },
    {
        let mut inp = inp;
        let headers: Headers = match Headers::parse(&mut inp, tags) {
            Some(headers) => headers,
            None => return None,
        };
        let samples: OpusReader<R> = OpusReader {
            packets: headers.packets,
            inp,
            serial: headers.serial,
            decoder: Box::new(new_decoder(headers.channels)),
            channels: headers.channels,
            frame: Vec::new(),
            frame_pos: 0,
            pre_skip: headers.format.pre_skip as usize,
            total_pre_skip: headers.format.pre_skip as u64,
            ended: false,
        };
        Some(OggOpus { format: headers.format, samples })
    }
}

impl<R: Seek> OggOpus<R> {
    /// Like [`OggOpus::parse`], but additionally determines [`Format::len_samples`] by scanning
    /// the tail of the stream for the last Ogg page and reading its granule position. Costs one
    /// extra read of up to ~64 KiB plus three seeks. If the scan fails the stream still plays,
    /// just with an unknown length.
    pub fn parse_seekable(inp: R, tags: &mut Vec<Tag>) -> (opus: Option<Self>)
        ensures
            tag_views(final(tags)@) == tag_views(old(tags)@) + opening_tags(inp.rest()),
            opus is Some <==> opening_of(inp.rest()) is Some,
            opus matches Some(o) ==> {
                let opening = opening_of(inp.rest())->0;
                &&& o.opens(opening, inp.broken())
                &&& o.format.len_samples == len_of(inp.whole(), inp.extent(), opening.serial, opening.pre_skip)
                &&& o.samples.whole() == inp.whole()
                &&& o.samples.extent() == inp.extent()
            },
    {
        let mut this: OggOpus<R> = match OggOpus::parse(inp, tags) {
            Some(this) => this,
            None => return None,
        };
        let serial: u32 = this.samples.serial;
        let pre_skip: u16 = this.format.pre_skip;
        this.format.len_samples = scan_len_samples(&mut this.samples.inp, serial, pre_skip);
        Some(this)
    }
}

proof fn lemma_forward(head: Playhead, channels: nat, n: int)
    requires
        n >= 0,
        !head.ended,
    ensures
        head.forward(channels, n) matches Some((then, missing)) ==> {
            &&& 0 <= missing <= n
            &&& missing > 0 <==> then.ended
            &&& then.ended ==> then.avail <= 0
        },
    decreases head.left(), n,
{
    if n > 0 {
        lemma_frame_uses_up(channels, head.demux, head.rest, head.broken, head.history, head.pre_skip);
        match head.ready(channels) {
            Some(next) => if next.avail > 0 {
                let taken = if next.avail < n {
                    next.avail
                } else {
                    n
                };
                lemma_forward(next.advanced(taken), channels, n - taken);
            },
            None => {},
        }
    }
}

/// Nothing of the current frame has been given yet: all samples of the packet that was decoded last are left.
pub open spec fn is_at_frame_start(channels: nat, head: Playhead) -> bool {
    &&& head.history.len() > 0
    &&& samples_in(channels, head.history.drop_last(), head.history.last()) == Some(head.avail as nat)
}

proof fn lemma_preroll(
    channels: nat,
    demux: Demux,
    rest: Seq<u8>,
    broken: bool,
    history: Seq<Seq<u8>>,
    pos: Option<int>,
    landed: int,
    target: int,
    delay: int,
)
    requires
        pos matches Some(p) ==> p <= target,
        landed <= target,
        0 <= delay <= target,
    ensures
        preroll(channels, demux, rest, broken, history, pos, landed, target, delay) matches Some((at, head)) ==> {
            &&& head.ended ==> at <= target - delay
            &&& !head.ended ==> at >= target - delay
            &&& !head.ended ==> at == target - delay || is_at_frame_start(channels, head)
        },
    decreases demux.left(rest),
{
    lemma_packet_uses_up(demux, rest);
    match packet_of(demux, rest) {
        PacketRead::Packet(packet, demux2, rest2) => match samples_in(channels, history, packet.data) {
            Some(len) => {
                let history2 = history.push(packet.data);
                assert(history2.drop_last() =~= history);
                let known = if packet.last_in_page && packet.granule != NO_GRANULE {
                    Some(packet.granule as int)
                } else {
                    match pos {
                        Some(p) => Some(p + len),
                        None => None,
                    }
                };
                if known is None || known->0 <= target {
                    lemma_preroll(channels, demux2, rest2, broken, history2, known, landed, target, delay);
                }
            },
            None => {},
        },
        _ => {},
    }
}

/// A seek that succeeds lands on its target, unless the stream ends before or has a gap there. Where it ends
/// before, the seek lands on its end, no later than the target. Where it has a gap, the seek lands behind the
/// target, at the start of the frame that follows the gap. Decoding from the start of the stream, it lands
/// exactly on the target.
pub proof fn law_seek_lands_on_the_target(
    channels: nat,
    whole: Seq<u8>,
    extent: nat,
    serial: u32,
    delay: nat,
    target: nat,
)
    ensures
        sought(channels, whole, extent, serial, delay as int, target as int) matches Some((at, head)) ==> {
            &&& head.ended ==> at <= target
            &&& !head.ended ==> at >= target
            &&& !head.ended ==> at == target || is_at_frame_start(channels, head)
            &&& landing(whole, extent, serial, less((target + delay) as int, PREROLL as int)) is None && !head.ended
                ==> at == target
        },
{
    let granule = target + delay;
    match landing(whole, extent, serial, less(granule as int, PREROLL as int)) {
        Some((at, landed)) => {
            lemma_preroll(
                channels,
                Demux::start(true),
                back(whole, at),
                whole.len() < extent,
                Seq::empty(),
                None,
                landed as int,
                granule as int,
                delay as int,
            );
        },
        None => match restarted(whole, whole.len() < extent, delay as int) {
            Some(head) => {
                lemma_forward(head, channels, target as int);
            },
            None => {},
        },
    }
}

/// Whether a page that ends at or before `granule` is found from `offset` on.
pub open spec fn finds_by(whole: Seq<u8>, extent: nat, serial: u32, granule: int, offset: int) -> bool {
    probe(whole, extent, offset, serial) matches Some((at, found)) && found <= granule
}

proof fn lemma_bisected(whole: Seq<u8>, extent: nat, serial: u32, granule: int, lo: int, hi: int)
    requires
        0 <= lo <= hi <= extent,
        hi == extent || !finds_by(whole, extent, serial, granule, hi),
        lo == 0 || finds_by(whole, extent, serial, granule, lo),
        forall|a: int, b: int|
            0 <= a <= b <= extent && #[trigger] finds_by(whole, extent, serial, granule, b)
                ==> #[trigger] finds_by(whole, extent, serial, granule, a),
    ensures
        ({
            let r = bisected(whole, extent, serial, granule, lo, hi);
            &&& lo <= r <= hi
            &&& r == 0 || finds_by(whole, extent, serial, granule, r)
            &&& forall|o: int|
                r + 2 * MAX_PAGE_SIZE < o < extent ==> !#[trigger] finds_by(
                    whole,
                    extent,
                    serial,
                    granule,
                    o,
                )
        }),
    decreases hi - lo,
{
    if hi - lo > 2 * MAX_PAGE_SIZE {
        let mid = lo + (hi - lo) / 2;
        if finds_by(whole, extent, serial, granule, mid) {
            lemma_bisected(whole, extent, serial, granule, mid, hi);
        } else {
            lemma_bisected(whole, extent, serial, granule, lo, mid);
        }
    }
}

/// Where granule positions do not decrease along the stream, bisecting ends close before the latest page
/// that ends at or before the granule position sought: from an offset two page sizes further on, no such
/// page is found any more.
pub proof fn law_bisection_finds_the_latest_page(whole: Seq<u8>, extent: nat, serial: u32, granule: int)
    requires
        forall|a: int, b: int|
            0 <= a <= b <= extent && #[trigger] finds_by(whole, extent, serial, granule, b)
                ==> #[trigger] finds_by(whole, extent, serial, granule, a),
    ensures
        ({
            let r = bisected(whole, extent, serial, granule, 0, extent as int);
            &&& 0 <= r <= extent
            &&& r == 0 || finds_by(whole, extent, serial, granule, r)
            &&& forall|o: int|
                r + 2 * MAX_PAGE_SIZE < o < extent ==> !#[trigger] finds_by(
                    whole,
                    extent,
                    serial,
                    granule,
                    o,
                )
        }),
{
    lemma_bisected(whole, extent, serial, granule, 0, extent as int);
}

proof fn lemma_frame_samples(
    channels: nat,
    demux: Demux,
    rest: Seq<u8>,
    broken: bool,
    history: Seq<Seq<u8>>,
    pre_skip: int,
)
    requires
        pre_skip >= 0,
    ensures
        frame_of(channels, demux, rest, broken, history, pre_skip) matches FrameRead::Frame {
            len,
            skipped,
            then,
        } ==> {
            &&& then.history.len() > 0
            &&& samples_in(channels, then.history.drop_last(), then.history.last()) == Some(len as nat)
            &&& len > 0
            &&& 0 <= skipped <= pre_skip
        },
    decreases demux.left(rest),
{
    lemma_packet_uses_up(demux, rest);
    match packet_of(demux, rest) {
        PacketRead::Packet(packet, demux2, rest2) => match samples_in(channels, history, packet.data) {
            Some(len) => {
                let skipped = if pre_skip < len {
                    pre_skip
                } else {
                    len as int
                };
                let history2 = history.push(packet.data);
                assert(history2.drop_last() =~= history);
                if skipped >= len {
                    lemma_frame_samples(channels, demux2, rest2, broken, history2, pre_skip - skipped);
                }
            },
            None => {},
        },
        _ => {},
    }
}

proof fn lemma_read_values<R: Read>(
    before: OpusReader<R>,
    after: OpusReader<R>,
    old_buf: Seq<Stereo<PcmS16Le>>,
    new_buf: Seq<Stereo<PcmS16Le>>,
    n: usize,
)
    requires
        before.wf(),
        after.wf(),
        opus_read(before, after, old_buf, new_buf, Some(n)),
        n > 0,
    ensures
        ({
            let ch = before.layout().number() as int;
            let head = before.playhead();
            let values = after.values();
            &&& after.playhead().avail >= 0
            &&& 0 <= values.len() - ch * (after.playhead().avail + n)
            &&& head.avail >= 0
            &&& head.avail > 0 ==> head.avail == after.playhead().avail + n
            &&& head.avail == 0 && head.pre_skip == 0 ==> values.len() == ch * (after.playhead().avail + n)
            &&& head.ready(before.layout().number()) matches Some(next) && after.playhead().avail + n == next.avail
        }),
{
    let ch = before.layout().number() as int;
    let head = before.playhead();
    lemma_avail(before.frame.len() as int, before.frame_pos as int, ch);
    lemma_avail(after.frame.len() as int, after.frame_pos as int, ch);
    lemma_frame_samples(ch as nat, head.demux, head.rest, head.broken, head.history, head.pre_skip);
    lemma_frame_uses_up(ch as nat, head.demux, head.rest, head.broken, head.history, head.pre_skip);
    let next = head.ready(ch as nat)->0;
    assert(after.playhead().avail + n == next.avail);
    if head.avail == 0 {
        let len = samples_in(ch as nat, next.history.drop_last(), next.history.last())->0;
        assert(after.values().len() == len * ch);
        assert(ch * next.avail <= len * ch) by (nonlinear_arith)
            requires
                next.avail <= len,
                ch >= 1,
        ;
        if head.pre_skip == 0 {
            assert(next.avail == len);
            assert(ch * next.avail == len * ch) by (nonlinear_arith)
                requires
                    next.avail == len,
            ;
        }
    } else {
        assert(ch * head.avail == head.avail * ch) by (nonlinear_arith);
    }
}

/// What a read of a stereo stream gives is what was decoded, value by value: written out, the left and then the
/// right channel of each sample are consecutive values of the decoded packet. The last of them is the last
/// before what is left of it, so that no value is lost and none is given twice.
pub proof fn law_stereo_samples_are_what_was_decoded<R: Read>(
    before: OpusReader<R>,
    after: OpusReader<R>,
    old_buf: Seq<Stereo<PcmS16Le>>,
    new_buf: Seq<Stereo<PcmS16Le>>,
    n: usize,
)
    requires
        before.layout() == Channels::Stereo,
        before.wf(),
        after.wf(),
        opus_read(before, after, old_buf, new_buf, Some(n)),
        n > 0,
    ensures
        ({
            let values = after.values();
            let end = values.len() - 2 * after.playhead().avail;
            let start = end - 2 * n;
            &&& 0 <= start
            &&& n <= new_buf.len() == old_buf.len()
            &&& after.playhead().avail >= 0
            &&& forall|k: int|
                0 <= k < n ==> {
                    &&& (#[trigger] new_buf[k]).left.value() == values[start + 2 * k]
                    &&& new_buf[k].right.value() == values[start + 2 * k + 1]
                }
            &&& forall|k: int| n <= k < old_buf.len() ==> #[trigger] new_buf[k] == old_buf[k]
            &&& before.playhead().avail > 0 ==> {
                &&& values == before.values()
                &&& start == values.len() - 2 * before.playhead().avail
            }
            &&& before.playhead().avail == 0 && before.playhead().pre_skip == 0 ==> start == 0
            &&& decodings(2, after.playhead().history.drop_last(), after.playhead().history.last()).contains(values)
        }),
{
    lemma_read_values(before, after, old_buf, new_buf, n);
}

/// Of a mono stream the one channel is heard on both sides: each sample is the next value of the decoded
/// packet, left and right.
pub proof fn law_mono_samples_are_on_both_sides<R: Read>(
    before: OpusReader<R>,
    after: OpusReader<R>,
    old_buf: Seq<Stereo<PcmS16Le>>,
    new_buf: Seq<Stereo<PcmS16Le>>,
    n: usize,
)
    requires
        before.layout() == Channels::Mono,
        before.wf(),
        after.wf(),
        opus_read(before, after, old_buf, new_buf, Some(n)),
        n > 0,
    ensures
        ({
            let values = after.values();
            let end = values.len() - after.playhead().avail;
            let start = end - n;
            &&& 0 <= start
            &&& n <= new_buf.len() == old_buf.len()
            &&& after.playhead().avail >= 0
            &&& forall|k: int|
                0 <= k < n ==> {
                    &&& (#[trigger] new_buf[k]).left.value() == values[start + k]
                    &&& new_buf[k].right.value() == values[start + k]
                }
            &&& forall|k: int| n <= k < old_buf.len() ==> #[trigger] new_buf[k] == old_buf[k]
            &&& before.playhead().avail > 0 ==> {
                &&& values == before.values()
                &&& start == values.len() - before.playhead().avail
            }
            &&& before.playhead().avail == 0 && before.playhead().pre_skip == 0 ==> start == 0
            &&& decodings(1, after.playhead().history.drop_last(), after.playhead().history.last()).contains(values)
        }),
{
    lemma_read_values(before, after, old_buf, new_buf, n);
}

} // verus!
