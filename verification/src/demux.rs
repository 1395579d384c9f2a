//! Ogg pages and the packets in them, by way of the `ogg` crate.
//!
//! The crate parses pages and glues packets together; what is claimed of it here is what its callers
//! build on: which bytes a page consists of, whether its checksum holds, and that the packets are a
//! function of the pages that were pushed.

use crate::io::{Read, ReadExt};
use ogg::reading::{BasePacketReader, OggPage, PageParser};
use vstd::prelude::*;

verus! {

/// `ogg::reading::PageParser`: a page that is being put together.
#[verifier::external_type_specification]
#[verifier::external_body]
pub struct ExPageParser(ogg::reading::PageParser);

/// `ogg::reading::OggPage`: a page whose checksum holds.
#[verifier::external_type_specification]
#[verifier::external_body]
pub struct ExOggPage(ogg::reading::OggPage);

/// `ogg::reading::BasePacketReader`: what takes pages and hands out their packets.
#[verifier::external_type_specification]
#[verifier::external_body]
pub struct ExBasePacketReader(ogg::reading::BasePacketReader);

/// The length of a page's header, before its segment table.
pub const HEADER: usize = 27;

/// The bytes that a parser was given so far.
pub uninterp spec fn parser_bytes(parser: PageParser) -> Seq<u8>;

/// The bytes that a page was made of.
pub uninterp spec fn page_bytes(page: OggPage) -> Seq<u8>;

/// Whether the checksum in the header of a page is that of its bytes.
pub uninterp spec fn checksum_holds(page: Seq<u8>) -> bool;

/// The sum of some bytes.
pub open spec fn sum(s: Seq<u8>) -> nat
    decreases s.len(),
{
    if s.len() == 0 {
        0
    } else {
        sum(s.drop_last()) + s.last() as nat
    }
}

/// `ogg::reading::PageParser::new`: starts on the page with the given header, and says how many
/// segments it has, which is the header's last byte. Only a stream structure version of zero is
/// accepted.
#[verifier::external_body]
fn page_parser(header: [u8; 27]) -> (r: Option<(PageParser, usize)>)
    ensures
        r is Some <==> header@[4] == 0,
        r matches Some(p) ==> parser_bytes(p.0) == header@ && p.1 == header@[26],
{
    PageParser::new(header).ok()
}

/// `ogg::reading::PageParser::parse_segments`: takes the segment table, of the length that the header
/// tells, and says how many bytes of packet data the page has, which is the sum of the table.
#[verifier::external_body]
fn parse_segments(parser: &mut PageParser, segments: Vec<u8>) -> (n: usize)
    requires
        parser_bytes(*old(parser)).len() == HEADER,
        segments@.len() == parser_bytes(*old(parser))[26],
    ensures
        n == sum(segments@),
        parser_bytes(*final(parser)) == parser_bytes(*old(parser)) + segments@,
{
    parser.parse_segments(segments)
}

/// `ogg::reading::PageParser::parse_packet_data`: takes the packet data, of the length that the segment
/// table tells, and gives the page where its checksum holds.
#[verifier::external_body]
fn parse_packet_data(parser: PageParser, data: Vec<u8>) -> (page: Option<OggPage>)
    requires
        page_len(parser_bytes(parser) + data@) == Some((parser_bytes(parser).len() + data@.len()) as int),
    ensures
        page is Some <==> checksum_holds(parser_bytes(parser) + data@),
        page matches Some(p) ==> page_bytes(p) == parser_bytes(parser) + data@,
{
    parser.parse_packet_data(data).ok()
}

/// A packet, and what is known of the page that it ends in.
pub struct Packet {
    pub data: Vec<u8>,
    /// The number of the logical bitstream that it belongs to.
    pub serial: u32,
    /// Whether it is the last packet that ends in its page.
    pub last_in_page: bool,
    /// The granule position of the page.
    pub granule: u64,
}

/// A packet's view.
pub struct PacketView {
    pub data: Seq<u8>,
    pub serial: u32,
    pub last_in_page: bool,
    pub granule: u64,
}

impl View for Packet {
    type V = PacketView;

    open spec fn view(&self) -> PacketView {
        PacketView {
            data: self.data@,
            serial: self.serial,
            last_in_page: self.last_in_page,
            granule: self.granule,
        }
    }
}

/// The state of a packet reader: the pages that it was given, whether it was told that the stream has
/// been repositioned, and how many packets it has handed out. That is all there is to it, as a page is given
/// only when all packets of those before it have been handed out.
pub struct Demux {
    pub pages: Seq<Seq<u8>>,
    pub seeked: bool,
    pub taken: nat,
}

/// The packet that follows the first `taken` ones of some pages.
pub uninterp spec fn packet_in(pages: Seq<Seq<u8>>, seeked: bool, taken: nat) -> Option<PacketView>;

/// Whether a page can follow others.
pub uninterp spec fn page_follows(
    pages: Seq<Seq<u8>>,
    seeked: bool,
    taken: nat,
    page: Seq<u8>,
) -> bool;

/// The state that a packet reader is in.
pub uninterp spec fn demux_of(reader: BasePacketReader) -> Demux;

impl Demux {
    /// A reader that has been given nothing.
    pub open spec fn start(seeked: bool) -> Demux {
        Demux { pages: Seq::empty(), seeked, taken: 0 }
    }

    /// The packet that the reader hands out next. A page holds at most 255 packets.
    pub open spec fn packet(self) -> Option<PacketView> {
        if self.taken < 255 * self.pages.len() {
            packet_in(self.pages, self.seeked, self.taken)
        } else {
            None
        }
    }

    pub open spec fn took(self) -> Demux {
        Demux { taken: self.taken + 1, ..self }
    }

    pub open spec fn accepts(self, page: Seq<u8>) -> bool {
        page_follows(self.pages, self.seeked, self.taken, page)
    }

    pub open spec fn pushed(self, page: Seq<u8>) -> Demux {
        Demux { pages: self.pages.push(page), ..self }
    }

    /// How much there is still to come, of packets in this reader and of bytes in the stream.
    pub open spec fn left(self, s: Seq<u8>) -> int {
        10 * s.len() + 255 * self.pages.len() - self.taken
    }
}

/// `ogg::reading::BasePacketReader::new`: a reader that has been given nothing.
#[verifier::external_body]
fn base_packet_reader() -> (r: BasePacketReader)
    ensures
        demux_of(r) == Demux::start(false),
{
    BasePacketReader::new()
}

/// `ogg::reading::BasePacketReader::read_packet`: the next packet of the pages given so far. The claim
/// names it as a function of those pages, and says that a page holds no more than 255 packets.
#[verifier::external_body]
fn take_packet(reader: &mut BasePacketReader) -> (packet: Option<Packet>)
    ensures
        packet matches Some(p) ==> Some(p@) == packet_in(
            demux_of(*old(reader)).pages,
            demux_of(*old(reader)).seeked,
            demux_of(*old(reader)).taken,
        ),
        packet is Some <==> demux_of(*old(reader)).packet() is Some,
        demux_of(*final(reader)) == (if packet is Some {
            demux_of(*old(reader)).took()
        } else {
            demux_of(*old(reader))
        }),
{
    reader.read_packet().map(|p| Packet {
        serial: p.stream_serial(),
        last_in_page: p.last_in_page(),
        granule: p.absgp_page(),
        data: p.data,
    })
}

/// `ogg::reading::BasePacketReader::push_page`: gives the reader a page, which it may refuse. The claim
/// names when, as a function of the pages before it. The reader has to have handed out all packets that it
/// can; it would forget the others.
#[verifier::external_body]
fn push_page(reader: &mut BasePacketReader, page: OggPage) -> (accepted: bool)
    requires
        demux_of(*old(reader)).packet() is None,
    ensures
        accepted == page_follows(
            demux_of(*old(reader)).pages,
            demux_of(*old(reader)).seeked,
            demux_of(*old(reader)).taken,
            page_bytes(page),
        ),
        demux_of(*final(reader)) == (if accepted {
            demux_of(*old(reader)).pushed(page_bytes(page))
        } else {
            demux_of(*old(reader))
        }),
{
    reader.push_page(page).is_ok()
}

/// `ogg::reading::BasePacketReader::update_after_seek`: forgets all pages, and tolerates from then on
/// that a stream is entered midway.
#[verifier::external_body]
fn update_after_seek(reader: &mut BasePacketReader)
    ensures
        demux_of(*final(reader)) == Demux::start(true),
{
    reader.update_after_seek()
}

/// A packet reader, fresh or repositioned.
pub(crate) fn packet_reader(seeked: bool) -> (r: BasePacketReader)
    ensures
        demux_of(r) == Demux::start(seeked),
{
    let mut r: BasePacketReader = base_packet_reader();
    if seeked {
        update_after_seek(&mut r);
    }
    r
}

/// The length of the page that starts at the front of `s`; `None` where no complete page does. It is
/// not looked at whether the page's checksum holds.
pub open spec fn page_len(s: Seq<u8>) -> Option<int> {
    if s.len() < HEADER || s[4] != 0 || s.len() < HEADER + s[26] {
        None
    } else {
        let len = HEADER + s[26] + sum(s.subrange(HEADER as int, HEADER + s[26]));
        if s.len() < len {
            None
        } else {
            Some(len)
        }
    }
}

/// A page is as long by itself.
proof fn lemma_page_alone(s: Seq<u8>)
    requires
        page_len(s) is Some,
    ensures
        page_len(s.take(page_len(s)->0)) == page_len(s),
{
    let page = s.take(page_len(s)->0);
    assert(page.subrange(HEADER as int, HEADER + page[26]) =~= s.subrange(HEADER as int, HEADER + s[26]));
}

/// What reading a page comes to.
pub enum PageRead {
    /// The stream is at its end, or fails, between two pages.
    End,
    /// There is no complete page with a valid checksum.
    Bad,
    /// A page of the given bytes.
    Page(Seq<u8>),
}

/// The page at the front of `s`.
pub open spec fn page_of(s: Seq<u8>) -> PageRead {
    if s.len() == 0 {
        PageRead::End
    } else {
        match page_len(s) {
            Some(len) => if checksum_holds(s.take(len)) {
                PageRead::Page(s.take(len))
            } else {
                PageRead::Bad
            },
            None => PageRead::Bad,
        }
    }
}

/// The header at the front of at least 27 bytes.
pub(crate) fn header_of(bytes: &[u8]) -> (header: [u8; 27])
    requires
        bytes@.len() >= 27,
    ensures
        header@ == bytes@.take(27),
{
    let b = bytes;
    let header: [u8; 27] = [
        b[0], b[1], b[2], b[3], b[4], b[5], b[6], b[7], b[8], b[9], b[10], b[11], b[12], b[13], b[14],
        b[15], b[16], b[17], b[18], b[19], b[20], b[21], b[22], b[23], b[24], b[25], b[26],
    ];
    assert(header@ =~= bytes@.take(27));
    header
}

/// Whether the bytes start with a complete page whose checksum holds.
pub(crate) fn holds_page(bytes: &[u8]) -> (r: bool)
    ensures
        r <==> page_len(bytes@) is Some && checksum_holds(bytes@.take(page_len(bytes@)->0)),
{
    if bytes.len() < HEADER {
        return false;
    }
    let header: [u8; 27] = header_of(bytes);
    let (mut parser, n_segments) = match page_parser(header) {
        Some(p) => p,
        None => return false,
    };
    if bytes.len() - HEADER < n_segments {
        return false;
    }
    let mut segments: Vec<u8> = Vec::new();
    segments.extend_from_slice(&bytes[HEADER..HEADER + n_segments]);
    assert(segments@ =~= bytes@.subrange(27, 27 + n_segments));
    let n_data: usize = parse_segments(&mut parser, segments);
    if bytes.len() - HEADER - n_segments < n_data {
        return false;
    }
    let mut data: Vec<u8> = Vec::new();
    let start: usize = HEADER + n_segments;
    data.extend_from_slice(&bytes[start..start + n_data]);
    proof {
        let len = page_len(bytes@)->0;
        assert(len == start + n_data);
        assert(parser_bytes(parser) + data@ =~= bytes@.take(len));
        lemma_page_alone(bytes@);
    }
    parse_packet_data(parser, data).is_some()
}

/// Reads one Ogg page. Returns `None` on error, `Some(None)` at a clean end of stream.
fn read_page<R: Read>(inp: &mut R) -> (page: Option<Option<OggPage>>)
    ensures
        match page_of(old(inp).rest()) {
            PageRead::End => if old(inp).broken() {
                page is None
            } else {
                page == Some(None::<OggPage>)
            },
            PageRead::Bad => page is None,
            PageRead::Page(bytes) => {
                &&& page matches Some(Some(p)) && page_bytes(p) == bytes
                &&& final(inp).rest() == old(inp).rest().skip(bytes.len() as int)
                &&& bytes.len() >= HEADER
            },
        },
        final(inp).beyond() == old(inp).beyond(),
        final(inp).whole() == old(inp).whole(),
        final(inp).broken() == old(inp).broken(),
        final(inp).extent() == old(inp).extent(),
        page_of(old(inp).rest()) is End ==> final(inp).rest() == old(inp).rest(),
{
    let ghost s = inp.rest();
    let header: Vec<u8> = match inp.read(HEADER) {
        Some(header) => header,
        None => {
            assert(inp.rest() =~= s);
            return None;
        },
    };
    if header.len() == 0 {
        assert(inp.rest() =~= s);
        return Some(None);
    }
    if header.len() < HEADER {
        return None;
    }
    let (mut parser, n_segments) = match page_parser(header_of(header.as_slice())) {
        Some(p) => p,
        None => return None,
    };
    assert(header@.take(27) =~= s.take(27));
    let segments: Vec<u8> = match inp.read_exact(n_segments) {
        Some(segments) => segments,
        None => return None,
    };
    assert(segments@ =~= s.subrange(27, 27 + n_segments));
    let n_data: usize = parse_segments(&mut parser, segments);
    let data: Vec<u8> = match inp.read_exact(n_data) {
        Some(data) => data,
        None => return None,
    };
    proof {
        let len = page_len(s)->0;
        assert(len == 27 + n_segments + n_data);
        assert(parser_bytes(parser) + data@ =~= s.take(len));
        assert(inp.rest() =~= s.skip(len));
        lemma_page_alone(s);
    }
    match parse_packet_data(parser, data) {
        Some(page) => Some(Some(page)),
        None => None,
    }
}

/// What reading a packet comes to.
pub enum PacketRead {
    /// The stream is at its end, or fails between two pages; with the state of the reader and the rest of the
    /// stream.
    End(Demux, Seq<u8>),
    /// The stream is not one of Ogg pages that follow each other.
    Bad,
    /// A packet, the state of the reader behind it and the rest of the stream.
    Packet(PacketView, Demux, Seq<u8>),
}

/// The next packet of a reader in state `d` whose further pages come from `s`.
pub open spec fn packet_of(d: Demux, s: Seq<u8>) -> PacketRead
    decreases s.len(),
{
    match d.packet() {
        Some(packet) => PacketRead::Packet(packet, d.took(), s),
        None => match page_of(s) {
            PageRead::End => PacketRead::End(d, s),
            PageRead::Bad => PacketRead::Bad,
            PageRead::Page(bytes) => if d.accepts(bytes) && bytes.len() >= HEADER {
                packet_of(d.pushed(bytes), s.skip(bytes.len() as int))
            } else {
                PacketRead::Bad
            },
        },
    }
}

/// Behind a packet there is less left than before it.
pub proof fn lemma_packet_uses_up(d: Demux, s: Seq<u8>)
    ensures
        packet_of(d, s) matches PacketRead::Packet(p, d2, s2) ==> {
            &&& d2.left(s2) < d.left(s)
            &&& d2.taken <= 255 * d2.pages.len()
        },
    decreases s.len(),
{
    if d.packet() is None {
        match page_of(s) {
            PageRead::Page(bytes) => {
                if d.accepts(bytes) && bytes.len() >= HEADER {
                    lemma_packet_uses_up(d.pushed(bytes), s.skip(bytes.len() as int));
                }
            },
            _ => {},
        }
    }
}

/// Reads the next packet, pulling Ogg pages from `inp` as needed.
///
/// Returns `None` on error, `Some(None)` at a clean end of stream.
pub(crate) fn next_packet<R: Read>(packets: &mut BasePacketReader, inp: &mut R) -> (packet: Option<
    Option<Packet>,
>)
    ensures
        match packet_of(demux_of(*old(packets)), old(inp).rest()) {
            PacketRead::End(d, s) => if old(inp).broken() {
                packet is None
            } else {
                &&& packet == Some(None::<Packet>)
                &&& demux_of(*final(packets)) == d
                &&& final(inp).rest() == s
            },
            PacketRead::Bad => packet is None,
            PacketRead::Packet(view, d, s) => {
                &&& packet matches Some(Some(p)) && p@ == view
                &&& demux_of(*final(packets)) == d
                &&& final(inp).rest() == s
            },
        },
        final(inp).beyond() == old(inp).beyond(),
        final(inp).whole() == old(inp).whole(),
        final(inp).broken() == old(inp).broken(),
        final(inp).extent() == old(inp).extent(),
{
    let ghost result = packet_of(demux_of(*packets), inp.rest());
    loop
        invariant
            result == packet_of(demux_of(*old(packets)), old(inp).rest()),
            result == packet_of(demux_of(*packets), inp.rest()),
            inp.beyond() == old(inp).beyond(),
            inp.whole() == old(inp).whole(),
            inp.broken() == old(inp).broken(),
            inp.extent() == old(inp).extent(),
        decreases inp.rest().len(),
    {
        match take_packet(packets) {
            Some(packet) => {
                return Some(Some(packet));
            },
            None => {},
        }
        match read_page(inp) {
            None => {
                return None;
            },
            Some(None) => {
                return Some(None);
            },
            Some(Some(page)) => {
                if !push_page(packets, page) {
                    return None;
                }
            },
        }
    }
}

/// A page is as long as its header of 27 bytes, its table and the segments that the table lists, and has to be
/// there as a whole; one of another version is none.
pub proof fn law_a_page_is_as_long_as_its_segments(s: Seq<u8>, table: Seq<u8>)
    requires
        s.len() >= 27,
        s[26] == table.len(),
        27 + table.len() <= s.len(),
        s.subrange(27, 27int + table.len()) == table,
    ensures
        s[4] != 0 ==> page_len(s) is None,
        s[4] == 0 && s.len() >= 27 + table.len() + sum(table) ==> page_len(s) == Some(27int + table.len() + sum(table)),
        s[4] == 0 && s.len() < 27 + table.len() + sum(table) ==> page_len(s) is None,
        forall|size: u8| #[trigger] sum(table.push(size)) == sum(table) + size,
        table.len() == 0 ==> sum(table) == 0,
{
    assert forall|size: u8| #[trigger] sum(table.push(size)) == sum(table) + size by {
        assert(table.push(size).drop_last() =~= table);
    }
}

} // verus!
