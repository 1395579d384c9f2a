//! PCM WAV reader
//!
//! Not standard complete. Makes some inflexible assumptions about the format that nontheless are quite reasonable and
//! very common in .wav files in the wild. Assumptions / limitations include:
//! - All headers / metadata / information must come before the `data` chunk.
//! - Cue point and playlist chunks are ignored.
//! - Audio data must be uncompressed PCM.
//! - PCM data must be little-endian.
//! - Audio must be stereo (2 channels) or mono (1 channel)
//! - "Valid bits per sample" is equal to "bits per sample"

use crate::io::{back, front, le16, le32, lemma_back_twice, reaches, Read, ReadExt, Skip, Take, TakeExact};
use crate::metadata::{read_text, tag_views, text_of, Tag, TagKind};
use crate::sample::{width_of, Encoding, FormatReader, MultiReader};
use crate::text::{from_utf8, same};
use vstd::prelude::*;
use vstd::utf8::*;

verus! {

#[derive(Clone, Copy, Debug)]
pub struct Format {
    pub float: bool,
    pub bits_per_sample: u16,
    pub block_size: u16,
    pub blocks_per_sec: u32,
    pub n_channels: u16,
    pub size: u64,
}

impl Format {
    pub fn sample_rate(&self) -> (rate: u32)
        ensures
            rate == self.blocks_per_sec,
    {
        self.blocks_per_sec
    }

    /// How many frames the audio data holds. A format of less than a byte per sample, or of no
    /// channels, has no such number.
    pub fn len_samples(&self) -> (n: u64)
        requires
            self.bits_per_sample >= 8,
            self.n_channels > 0,
        ensures
            n == self.size as int / ((self.bits_per_sample as int / 8) * self.n_channels as int),
    {
        let bytes: u64 = self.bits_per_sample as u64 / 8;
        let channels: u64 = self.n_channels as u64;
        assert(0 < bytes * channels <= 0x1fff * 0xffff) by (nonlinear_arith)
            requires
                1 <= bytes <= 0x1fff,
                1 <= channels <= 0xffff,
        ;
        self.size / (bytes * channels)
    }
}

pub const WAVE_FORMAT_PCM: u16 = 0x0001;

pub const WAVE_FORMAT_IEEE_FLOAT: u16 = 0x0003;

pub const WAVE_FORMAT_EXTENSIBLE: u16 = 0xFFFE;

/// The most that is kept of one INFO field; longer fields simply truncate. Generous for LIST-INFO in
/// the wild.
pub const TAG_SCRATCH: usize = 512;

/// The characters of some ASCII bytes.
pub open spec fn ascii(s: Seq<u8>) -> Seq<char> {
    s.map_values(|b: u8| b as char)
}

/// A byte of ASCII that is no control character.
pub open spec fn is_printable(b: u8) -> bool {
    0x20 <= b < 0x7f
}

/// The four-character code at the front of `s`.
pub open spec fn four_cc(s: Seq<u8>) -> Option<Seq<char>> {
    if s.len() >= 4 && is_printable(s[0]) && is_printable(s[1]) && is_printable(s[2]) && is_printable(
        s[3],
    ) {
        Some(ascii(s.take(4)))
    } else {
        None
    }
}

/// Four printable characters, which is how a RIFF file names its chunks.
#[derive(Clone, Copy)]
pub struct FourCc([u8; 4]);

impl FourCc {
    #[verifier::type_invariant]
    spec fn printable(self) -> bool {
        forall|i: int| 0 <= i < 4 ==> is_printable(#[trigger] self.0@[i])
    }

    pub closed spec fn chars(&self) -> Seq<char> {
        ascii(self.0@)
    }

    pub fn parse<R: Read>(inp: &mut R) -> (id: Option<FourCc>)
        ensures
            match id {
                Some(id) => four_cc(old(inp).rest()) == Some(id.chars()),
                None => four_cc(old(inp).rest()) is None,
            },
            final(inp).rest() == back(old(inp).rest(), 4),
            final(inp).beyond() == old(inp).beyond(),
            final(inp).broken() == old(inp).broken(),
            final(inp).faults() == old(inp).faults(),
    {
        let ghost s = inp.rest();
        let bytes: Vec<u8> = match inp.read_exact(4) {
            Some(bytes) => bytes,
            None => {
                return None;
            },
        };
        let b: [u8; 4] = [bytes[0], bytes[1], bytes[2], bytes[3]];
        let mut i: usize = 0;
        while i < 4
            invariant
                i <= 4,
                s.len() >= 4,
                b@ == s.take(4),
                s == old(inp).rest(),
                inp.rest() == back(old(inp).rest(), 4),
                inp.beyond() == old(inp).beyond(),
                inp.broken() == old(inp).broken(),
                inp.faults() == old(inp).faults(),
                forall|k: int| 0 <= k < i ==> is_printable(#[trigger] b@[k]),
            decreases 4 - i,
        {
            if b[i] < 0x20 || b[i] >= 0x7f {
                assert(!is_printable(s[i as int]));
                return None;
            }
            i = i + 1;
        }
        proof {
            assert(is_printable(b@[0]) && is_printable(b@[1]) && is_printable(b@[2]) && is_printable(
                b@[3],
            ));
        }
        Some(FourCc(b))
    }

    pub fn as_str(&self) -> (s: &str)
        ensures
            s@ == self.chars(),
    {
        proof {
            use_type_invariant(self);
            let chars = self.chars();
            assert(is_ascii_chars(chars)) by {
                assert forall|i: int| 0 <= i < chars.len() implies 0 <= #[trigger] chars[i] as nat <= 127 by {
                    assert(is_printable(self.0@[i]));
                }
            }
            is_ascii_chars_encode_utf8(chars);
            assert(encode_utf8(chars) =~= self.0@) by {
                assert forall|i: int| 0 <= i < 4 implies chars[i] as u8 == self.0@[i] by {
                    assert(is_printable(self.0@[i]));
                }
            }
            encode_utf8_valid_utf8(chars);
            encode_utf8_decode_utf8(chars);
        }
        match from_utf8(self.0.as_slice()) {
            Some(s) => s,
            None => "",
        }
    }
}

/// The text tags of an INFO chunk, by their four-character codes.
pub open spec fn info_kind(id: Seq<char>) -> Option<TagKind> {
    if id == "INAM"@ {
        Some(TagKind::Title)
    } else if id == "IPRD"@ {
        Some(TagKind::Album)
    } else if id == "IART"@ {
        Some(TagKind::Artist)
    } else if id == "IGNR"@ {
        Some(TagKind::Genre)
    } else if id == "ITRK"@ {
        Some(TagKind::TrackNumber)
    } else if id == "ICRD"@ {
        Some(TagKind::Date)
    } else {
        None
    }
}

fn kind_of_info(id: &str) -> (kind: Option<TagKind>)
    ensures
        kind == info_kind(id@),
{
    if same(id, "INAM") {
        Some(TagKind::Title)
    } else if same(id, "IPRD") {
        Some(TagKind::Album)
    } else if same(id, "IART") {
        Some(TagKind::Artist)
    } else if same(id, "IGNR") {
        Some(TagKind::Genre)
    } else if same(id, "ITRK") {
        Some(TagKind::TrackNumber)
    } else if same(id, "ICRD") {
        Some(TagKind::Date)
    } else {
        None
    }
}

/// A chunk's size with the padding byte that an odd one has.
pub open spec fn padded(size: int) -> int {
    size + size % 2
}

/// The tags of some text fields, with no more of each text than `capacity` bytes.
pub open spec fn texts(fields: Seq<(TagKind, Seq<u8>)>, capacity: int) -> Seq<(TagKind, Seq<char>)> {
    fields.map_values(|f: (TagKind, Seq<u8>)| (f.0, text_of(f.1, capacity)))
}

/// The text fields in the subchunks of an INFO list, up to where no further subchunk starts; and whether the
/// list is well-formed up to there. One that ends within a subchunk's header is not.
pub open spec fn info_fields(s: Seq<u8>) -> (Seq<(TagKind, Seq<u8>)>, bool)
    decreases s.len(),
{
    match four_cc(s) {
        None => (Seq::empty(), true),
        Some(id) => if s.len() < 8 {
            (Seq::empty(), false)
        } else {
            let size = le32(s.skip(4));
            let body = s.skip(8);
            let fields = match info_kind(id) {
                Some(kind) => seq![(kind, front(body, size))],
                None => Seq::empty(),
            };
            let rest = info_fields(back(body, padded(size)));
            (fields + rest.0, rest.1)
        },
    }
}

/// Reads the subchunks of an INFO list, keeping no more of each text than `capacity` bytes. `None` where the
/// list is not well-formed, or the stream fails within a text.
#[verifier::rlimit(40)]
fn parse_metadata<R: Skip>(tags: &mut Vec<Tag>, capacity: usize, inp: &mut R) -> (ok: Option<()>)
    ensures
        ok is Some || !old(inp).broken() ==> tag_views(final(tags)@) == tag_views(old(tags)@) + texts(
            info_fields(old(inp).rest()).0,
            capacity as int,
        ),
        ok is Some ==> info_fields(old(inp).rest()).1,
        ok is None ==> !info_fields(old(inp).rest()).1 || old(inp).broken(),
        final(inp).beyond() == old(inp).beyond(),
        !old(inp).broken() ==> final(inp).broken() == old(inp).broken() && final(inp).faults() == old(
            inp,
        ).faults(),
{
    let ghost all = info_fields(inp.rest());
    let ghost mut found: Seq<(TagKind, Seq<u8>)> = Seq::empty();
    assert(tag_views(tags@) =~= tag_views(old(tags)@) + texts(found, capacity as int));
    loop
        invariant
            all == info_fields(old(inp).rest()),
            all.0 == found + info_fields(inp.rest()).0,
            all.1 == info_fields(inp.rest()).1,
            tag_views(tags@) == tag_views(old(tags)@) + texts(found, capacity as int),
            inp.beyond() == old(inp).beyond(),
            inp.rest().len() > 0 || !old(inp).broken() ==> inp.broken() == old(inp).broken() && inp.faults() == old(
                inp,
            ).faults(),
        decreases inp.rest().len(),
    {
        let ghost s = inp.rest();
        let id: FourCc = match FourCc::parse(inp) {
            Some(id) => id,
            None => {
                assert(all.0 =~= found);
                return Some(());
            },
        };
        let chunk_size: u32 = match inp.read_u32_le() {
            Some(n) => n,
            None => {
                assert(all.0 =~= found);
                return None;
            },
        };
        let ghost body = inp.rest();
        assert(s.skip(4).skip(4) =~= s.skip(8));
        assert(body == s.skip(8));
        assert(chunk_size == le32(s.skip(4)));
        let padding: u64 = (chunk_size % 2) as u64;
        let ghost before = tags@;
        let ghost earlier = found;
        let nread: usize = match kind_of_info(id.as_str()) {
            Some(kind) => {
                let (text, consumed) = match read_text(capacity, chunk_size as usize, inp) {
                    Some(read) => read,
                    None => return None,
                };
                let tag: Tag = Tag::new(kind, text);
                let ghost view = tag@;
                tags.push(tag);
                proof {
                    let field = (kind, front(body, chunk_size as int));
                    assert(tag_views(tags@) =~= tag_views(before).push(view));
                    found = found.push(field);
                    assert(texts(found, capacity as int) =~= texts(earlier, capacity as int).push(view));
                }
                assert(tag_views(tags@) =~= tag_views(old(tags)@) + texts(found, capacity as int));
                consumed
            },
            None => 0,
        };
        assert(back(body, 0) =~= body);
        assert(inp.rest() == back(body, nread as int));
        inp.skip(chunk_size as u64 + padding - nread as u64);
        assert(inp.rest() =~= back(body, padded(chunk_size as int)));
        assert(all.0 =~= found + info_fields(inp.rest()).0);
    }
}

/// The text fields in a list chunk, and whether it is well-formed: a list of another type than INFO has none,
/// one without a type is not.
pub open spec fn list_fields(content: Seq<u8>) -> (Seq<(TagKind, Seq<u8>)>, bool) {
    match four_cc(content) {
        None => (Seq::empty(), false),
        Some(list) => if list == "INFO"@ {
            info_fields(content.skip(4))
        } else {
            (Seq::empty(), true)
        },
    }
}

/// Reads a list chunk of the given size, and hands back the stream behind it. `None` where the list is not
/// well-formed, or the stream fails within it.
fn parse_list<R: Skip>(tags: &mut Vec<Tag>, capacity: usize, inp: R, size: u32) -> (next: Option<R>)
    ensures
        ({
            let listed = list_fields(front(inp.rest(), size as int));
            &&& next is Some || reaches(&inp, size as int) ==> tag_views(final(tags)@) == tag_views(
                old(tags)@,
            ) + texts(listed.0, capacity as int)
            &&& next is Some ==> listed.1
            &&& next is None ==> !listed.1 || !reaches(&inp, size as int)
        }),
        next matches Some(next) ==> {
            &&& next.rest() == back(inp.rest(), size as int)
            &&& next.beyond() == inp.beyond()
            &&& reaches(&inp, size as int) ==> next.broken() == inp.broken() && next.faults() == inp.faults()
        },
{
    let ghost before = tag_views(tags@);
    assert(before + texts(Seq::empty(), capacity as int) =~= before);
    let mut content: TakeExact<R> = inp.take_exact(size as u64);
    assert(content.beyond().skip(1) =~= inp.beyond());
    assert(content.faults().skip(1) =~= inp.faults());
    let list: FourCc = match FourCc::parse(&mut content) {
        Some(list) => list,
        None => return None,
    };
    if same(list.as_str(), "INFO") {
        if parse_metadata(tags, capacity, &mut content).is_none() {
            return None;
        }
    }
    Some(content.skip_rest().1)
}

/// The format that a `fmt ` chunk describes, with a size that is not known yet. `None` for a chunk too
/// short, for samples with fewer valid bits than they take, and for other encodings than PCM.
pub open spec fn format_of(s: Seq<u8>) -> Option<Format> {
    if s.len() < 16 {
        None
    } else {
        let code = le16(s);
        let bits = le16(s.skip(14));
        let sub_code = if s.len() >= 26 {
            Some(le16(s.skip(24)))
        } else {
            None
        };
        let float = code == WAVE_FORMAT_IEEE_FLOAT || (code == WAVE_FORMAT_EXTENSIBLE && sub_code
            == Some(WAVE_FORMAT_IEEE_FLOAT as int));
        let pcm = code == WAVE_FORMAT_PCM || (code == WAVE_FORMAT_EXTENSIBLE && sub_code == Some(
            WAVE_FORMAT_PCM as int,
        ));
        if s.len() >= 20 && le16(s.skip(18)) != bits {
            None
        } else if !pcm && !float {
            None
        } else {
            Some(
                Format {
                    float,
                    bits_per_sample: bits as u16,
                    block_size: le16(s.skip(12)) as u16,
                    blocks_per_sec: le32(s.skip(4)) as u32,
                    n_channels: le16(s.skip(2)) as u16,
                    size: 0,
                },
            )
        }
    }
}

/// Reads a `fmt ` chunk.
fn parse_format<R: Read>(inp: &mut R) -> (format: Option<Format>)
    ensures
        format == format_of(old(inp).rest()),
        final(inp).beyond() == old(inp).beyond(),
        final(inp).broken() == old(inp).broken(),
        final(inp).faults() == old(inp).faults(),
{
    let ghost s = inp.rest();
    proof {
        lemma_back_twice(s, 2, 2);
        lemma_back_twice(s, 4, 4);
        lemma_back_twice(s, 8, 4);
        lemma_back_twice(s, 12, 2);
        lemma_back_twice(s, 14, 2);
        lemma_back_twice(s, 16, 2);
        lemma_back_twice(s, 18, 2);
        lemma_back_twice(s, 20, 4);
    }
    let format_code: u16 = match inp.read_u16_le() {
        Some(x) => x,
        None => return None,
    };
    let n_channels: u16 = match inp.read_u16_le() {
        Some(x) => x,
        None => return None,
    };
    let blocks_per_sec: u32 = match inp.read_u32_le() {
        Some(x) => x,
        None => return None,
    };
    let avg_bytes_per_sec: u32 = match inp.read_u32_le() {
        Some(x) => x,
        None => return None,
    };
    let block_size: u16 = match inp.read_u16_le() {
        Some(x) => x,
        None => return None,
    };
    let bits_per_sample: u16 = match inp.read_u16_le() {
        Some(x) => x,
        None => return None,
    };
    // The extension, which a plain PCM chunk lacks: its own size, and then the fields of it that matter.
    let ext_size: Option<u16> = inp.read_u16_le();
    let valid_bits_per_sample: Option<u16> = inp.read_u16_le();
    let speaker_position_mask: Option<u32> = inp.read_u32_le();
    let sub_format_code: Option<u16> = inp.read_u16_le();
    match valid_bits_per_sample {
        Some(valid) => {
            if valid != bits_per_sample {
                return None;
            }
        },
        None => {},
    }
    let float: bool = if format_code == WAVE_FORMAT_PCM {
        false
    } else if format_code == WAVE_FORMAT_IEEE_FLOAT {
        true
    } else if format_code == WAVE_FORMAT_EXTENSIBLE {
        match sub_format_code {
            Some(sub) => if sub == WAVE_FORMAT_PCM {
                false
            } else if sub == WAVE_FORMAT_IEEE_FLOAT {
                true
            } else {
                return None;
            },
            None => return None,
        }
    } else {
        return None;
    };
    Some(Format { n_channels, float, bits_per_sample, block_size, size: 0, blocks_per_sec })
}

/// What a walk over chunks finds: the text fields, and where it reaches the audio data the last format before
/// it, the size of the data and the stream from there on.
pub struct Walk {
    pub fields: Seq<(TagKind, Seq<u8>)>,
    pub data: Option<(Option<Format>, int, Seq<u8>)>,
}

/// What is found in the chunks of `s`, after `format` has been found before them.
pub open spec fn walk(s: Seq<u8>, format: Option<Format>) -> Walk
    decreases s.len(),
{
    if four_cc(s) is None || s.len() < 8 {
        Walk { fields: Seq::empty(), data: None }
    } else {
        let id = four_cc(s)->0;
        let size = le32(s.skip(4));
        let content = front(s.skip(8), size);
        let next = back(back(s.skip(8), size), size % 2);
        if id == "fmt "@ {
            match format_of(content) {
                Some(found) => walk(next, Some(found)),
                None => Walk { fields: Seq::empty(), data: None },
            }
        } else if id == "LIST"@ {
            let listed = list_fields(content);
            if listed.1 {
                let rest = walk(next, format);
                Walk { fields: listed.0 + rest.fields, data: rest.data }
            } else {
                Walk { fields: listed.0, data: None }
            }
        } else if id == "data"@ {
            Walk { fields: Seq::empty(), data: Some((format, size, s.skip(8))) }
        } else {
            walk(next, format)
        }
    }
}

/// Behind a list that is cut short there is no audio data.
proof fn lemma_cut_list(s: Seq<u8>, format: Option<Format>)
    requires
        s.len() >= 8,
        four_cc(s) == Some("LIST"@),
        s.skip(8).len() < le32(s.skip(4)),
    ensures
        walk(s, format).data is None,
{
    reveal_strlit("LIST");
    reveal_strlit("fmt ");
    assert("LIST"@[0] != "fmt "@[0]);
    let size = le32(s.skip(4));
    let next = back(back(s.skip(8), size), size % 2);
    assert(next =~= Seq::empty());
    assert(walk(next, format).data is None);
}

/// The encoding and the number of channels that a format stands for, where it is one that can be played.
pub open spec fn layout_of(format: Format) -> Option<(Encoding, nat)> {
    match (format.float, format.bits_per_sample, format.block_size, format.n_channels) {
        (false, 8, 1, 1) => Some((Encoding::U8, 1)),
        (false, 8, 2, 2) => Some((Encoding::U8, 2)),
        (false, 16, 2, 1) => Some((Encoding::S16, 1)),
        (false, 16, 4, 2) => Some((Encoding::S16, 2)),
        (false, 24, 3, 1) => Some((Encoding::S24, 1)),
        (false, 24, 6, 2) => Some((Encoding::S24, 2)),
        (false, 32, 4, 1) => Some((Encoding::S32, 1)),
        (false, 32, 8, 2) => Some((Encoding::S32, 2)),
        (true, 32, 4, 1) => Some((Encoding::F32, 1)),
        (true, 32, 8, 2) => Some((Encoding::F32, 2)),
        _ => None,
    }
}

/// What a WAV file holds: its format, how its samples are stored, and the bytes from its audio data on.
pub struct Opened {
    pub format: Format,
    pub encoding: Encoding,
    pub channels: nat,
    pub rest: Seq<u8>,
}

/// The part of a file that its RIFF header covers; `None` where it starts otherwise.
pub open spec fn riff_body(s: Seq<u8>) -> Option<Seq<u8>> {
    if four_cc(s) == Some("RIFF"@) && s.len() >= 8 {
        let body = front(s.skip(8), le32(s.skip(4)));
        if four_cc(body) == Some("WAVE"@) {
            Some(body.skip(4))
        } else {
            None
        }
    } else {
        None
    }
}

/// The text fields that are found in a file on the way to its audio data.
pub open spec fn fields_of(s: Seq<u8>) -> Seq<(TagKind, Seq<u8>)> {
    match riff_body(s) {
        Some(body) => walk(body, None).fields,
        None => Seq::empty(),
    }
}

/// The tags that are found in a file on the way to its audio data.
pub open spec fn tags_of(s: Seq<u8>) -> Seq<(TagKind, Seq<char>)> {
    texts(fields_of(s), TAG_SCRATCH as int)
}

/// The file `s` as a stream of audio; `None` where it is none that can be played.
pub open spec fn opened(s: Seq<u8>) -> Option<Opened> {
    match riff_body(s) {
        None => None,
        Some(body) => match walk(body, None).data {
            Some((Some(format), size, rest)) => match layout_of(format) {
                Some((encoding, channels)) => Some(
                    Opened { format: Format { size: size as u64, ..format }, encoding, channels, rest },
                ),
                None => None,
            },
            _ => None,
        },
    }
}

/// A file has less than its RIFF header covers.
pub open spec fn is_short(s: Seq<u8>) -> bool {
    s.skip(8).len() < le32(s.skip(4))
}

/// The bytes behind the part of a file that its RIFF header covers.
pub open spec fn behind_riff(s: Seq<u8>) -> Seq<u8> {
    back(s.skip(8), le32(s.skip(4)))
}

/// The format of a file and the bytes from its audio data on, as far as the RIFF header covers them.
pub open spec fn headed(s: Seq<u8>) -> Option<(Format, Seq<u8>)> {
    match riff_body(s) {
        None => None,
        Some(body) => match walk(body, None).data {
            Some((Some(format), size, rest)) => Some((Format { size: size as u64, ..format }, rest)),
            _ => None,
        },
    }
}

/// Parses the headers, adding each metadata tag to `tags` as it is encountered (see
/// [`Tag`]) with no more of its text than `capacity` bytes, and returns the format and the stream positioned
/// at the audio data.
#[verifier::spinoff_prover]
#[verifier::rlimit(60)]
pub fn parse_headers<R: Skip>(inp: R, capacity: usize, tags: &mut Vec<Tag>) -> (r: Option<(Format, Take<R>)>)
    ensures
        r is Some || !inp.broken() ==> tag_views(final(tags)@) == tag_views(old(tags)@) + texts(
            fields_of(inp.rest()),
            capacity as int,
        ),
        r is Some <==> headed(inp.rest()) is Some,
        r matches Some(found) ==> {
            &&& headed(inp.rest()) == Some((found.0, found.1.rest()))
            &&& found.1.beyond() == seq![behind_riff(inp.rest())] + inp.beyond()
            &&& found.1.broken() == (inp.broken() && is_short(inp.rest()))
            &&& found.1.faults() == seq![inp.broken()] + inp.faults()
        },
{
    let ghost s = inp.rest();
    let ghost before = tag_views(tags@);
    assert(before + texts(Seq::empty(), capacity as int) =~= before);
    let mut file = inp;
    let id: FourCc = match FourCc::parse(&mut file) {
        Some(id) => id,
        None => return None,
    };
    if !same(id.as_str(), "RIFF") {
        return None;
    }
    let size: u32 = match file.read_u32_le() {
        Some(size) => size,
        None => return None,
    };
    proof {
        lemma_back_twice(s, 4, 4);
    }
    let mut riff: Take<R> = file.take(size as u64);
    let id: FourCc = match FourCc::parse(&mut riff) {
        Some(id) => id,
        None => return None,
    };
    if !same(id.as_str(), "WAVE") {
        return None;
    }
    let mut format: Option<Format> = None;
    let ghost all = walk(riff.rest(), None);
    let ghost mut found: Seq<(TagKind, Seq<u8>)> = Seq::empty();
    let data_size: u32;
    loop
        invariant_except_break
            all.fields == found + walk(riff.rest(), format).fields,
            all.data == walk(riff.rest(), format).data,
        invariant
            s == inp.rest(),
            fields_of(s) == all.fields,
            riff_body(s) is Some,
            riff.beyond() == seq![behind_riff(s)] + inp.beyond(),
            riff.rest().len() > 0 || !inp.broken() ==> {
                &&& riff.broken() == (inp.broken() && is_short(s))
                &&& riff.faults() == seq![inp.broken()] + inp.faults()
            },
            all == walk(riff_body(s)->0, None),
            before == tag_views(old(tags)@),
            tag_views(tags@) == before + texts(found, capacity as int),
        ensures
            tag_views(tags@) == before + texts(all.fields, capacity as int),
            all.data == Some((format, data_size as int, riff.rest())),
            riff.broken() == (inp.broken() && is_short(s)),
            riff.faults() == seq![inp.broken()] + inp.faults(),
        decreases riff.rest().len(),
    {
        let ghost chunk = riff.rest();
        let id: FourCc = match FourCc::parse(&mut riff) {
            Some(id) => id,
            None => {
                assert(all.fields =~= found);
                return None;
            },
        };
        let chunk_size: u32 = match riff.read_u32_le() {
            Some(n) => n,
            None => {
                assert(all.fields =~= found);
                return None;
            },
        };
        proof {
            lemma_back_twice(chunk, 4, 4);
        }
        if same(id.as_str(), "fmt ") {
            let mut content: TakeExact<Take<R>> = riff.take_exact(chunk_size as u64);
            match parse_format(&mut content) {
                Some(found) => {
                    format = Some(found);
                },
                None => {
                    assert(all.fields =~= found);
                    return None;
                },
            }
            riff = content.skip_rest().1;
        } else if same(id.as_str(), "LIST") {
            let ghost listed = list_fields(front(riff.rest(), chunk_size as int)).0;
            let ghost fails = !reaches(&riff, chunk_size as int);
            let next: Option<Take<R>> = parse_list(tags, capacity, riff, chunk_size);
            proof {
                if next is Some || !fails {
                    let more = found + listed;
                    assert(texts(more, capacity as int) =~= texts(found, capacity as int) + texts(
                        listed,
                        capacity as int,
                    ));
                    assert(tag_views(tags@) =~= before + texts(more, capacity as int));
                    found = more;
                }
                if fails {
                    lemma_cut_list(chunk, format);
                }
            }
            riff = match next {
                Some(next) => next,
                None => return None,
            };
        } else if same(id.as_str(), "data") {
            data_size = chunk_size;
            assert(all.fields =~= found);
            break;
        } else {
            let content: TakeExact<Take<R>> = riff.take_exact(chunk_size as u64);
            riff = content.skip_rest().1;
        }
        // There's a padding byte when the chunk size is not even.
        riff.skip((chunk_size % 2) as u64);
        assert(all.fields =~= found + walk(riff.rest(), format).fields);
    }
    let mut format: Format = match format {
        Some(format) => format,
        None => return None,
    };
    format.size = data_size as u64;
    Some((format, riff))
}

/// An opened WAV file.
pub struct Wav<R> {
    pub format: Format,
    pub samples: MultiReader<R>,
}

impl<R: Skip> Wav<Take<R>> {
    /// Parses the headers, adding each metadata tag to `tags` as it is encountered (see
    /// [`Tag`]), and returns the stream positioned at the audio data.
    pub fn parse(inp: R, tags: &mut Vec<Tag>) -> (wav: Option<Self>)
        ensures
            wav is Some || !inp.broken() ==> tag_views(final(tags)@) == tag_views(old(tags)@) + tags_of(inp.rest()),
            wav is Some <==> opened(inp.rest()) is Some,
            wav matches Some(w) ==> {
                let o = opened(inp.rest())->0;
                &&& w.format == o.format
                &&& w.samples.encoding() == o.encoding
                &&& w.samples.channels() == o.channels
                &&& w.samples.rest() == o.rest
                &&& w.samples.broken() == (inp.broken() && is_short(inp.rest()))
            },
    {
        let (format, data) = match parse_headers(inp, TAG_SCRATCH, tags) {
            Some(found) => found,
            None => return None,
        };
        let samples: MultiReader<Take<R>> = match samples_of(&format, data) {
            Some(samples) => samples,
            None => return None,
        };
        Some(Wav { format, samples })
    }
}

/// The reader of a format's samples, where it is one that can be played.
fn samples_of<R: Read>(format: &Format, inp: R) -> (samples: Option<MultiReader<R>>)
    ensures
        samples is Some <==> layout_of(*format) is Some,
        samples matches Some(r) ==> {
            &&& layout_of(*format) == Some((r.encoding(), r.channels()))
            &&& r.rest() == inp.rest()
            &&& r.broken() == inp.broken()
        },
{
    match (format.float, format.bits_per_sample, format.block_size, format.n_channels) {
        (false, 8, 1, 1) => Some(MultiReader::MonoU8(FormatReader::new(inp))),
        (false, 8, 2, 2) => Some(MultiReader::StereoU8(FormatReader::new(inp))),
        (false, 16, 2, 1) => Some(MultiReader::MonoS16(FormatReader::new(inp))),
        (false, 16, 4, 2) => Some(MultiReader::StereoS16(FormatReader::new(inp))),
        (false, 24, 3, 1) => Some(MultiReader::MonoS24(FormatReader::new(inp))),
        (false, 24, 6, 2) => Some(MultiReader::StereoS24(FormatReader::new(inp))),
        (false, 32, 4, 1) => Some(MultiReader::MonoS32(FormatReader::new(inp))),
        (false, 32, 8, 2) => Some(MultiReader::StereoS32(FormatReader::new(inp))),
        (true, 32, 4, 1) => Some(MultiReader::MonoF32(FormatReader::new(inp))),
        (true, 32, 8, 2) => Some(MultiReader::StereoF32(FormatReader::new(inp))),
        _ => None,
    }
}

/// A stream that opens has a number of frames, and its frames are as long as its format says.
pub proof fn law_an_opened_stream_has_whole_frames(s: Seq<u8>)
    ensures
        opened(s) matches Some(o) ==> {
            &&& o.format.bits_per_sample >= 8
            &&& o.format.n_channels == o.channels
            &&& 1 <= o.channels <= 2
            &&& o.format.block_size == o.channels * width_of(o.encoding)
            &&& 8 * width_of(o.encoding) == o.format.bits_per_sample
            &&& o.format.float == (o.encoding == Encoding::F32)
        },
{
    match opened(s) {
        Some(o) => {
            if o.channels == 1 {
                assert(o.channels * width_of(o.encoding) == width_of(o.encoding)) by (nonlinear_arith)
                    requires
                        o.channels == 1,
                ;
            } else {
                assert(o.channels * width_of(o.encoding) == 2 * width_of(o.encoding))
                    by (nonlinear_arith)
                    requires
                        o.channels == 2,
                ;
            }
        },
        None => {},
    }
}

/// Chunks other than the format, a list and the audio data, such as cue points and playlists, are
/// ignored: what is found behind one is what would be found without it.
pub proof fn law_other_chunks_are_ignored(chunk: Seq<u8>, rest: Seq<u8>, format: Option<Format>)
    requires
        chunk.len() >= 8,
        chunk.len() == 8 + padded(le32(chunk.skip(4))),
        four_cc(chunk) matches Some(id) && id != "fmt "@ && id != "LIST"@ && id != "data"@,
    ensures
        walk(chunk + rest, format) == walk(rest, format),
{
    let s = chunk + rest;
    let size = le32(chunk.skip(4));
    assert(s.take(4) =~= chunk.take(4));
    assert(four_cc(s) == four_cc(chunk));
    assert(le32(s.skip(4)) == size);
    assert(back(back(s.skip(8), size), size % 2) =~= rest);
}

/// A number of 16 bits as a file holds it: its low byte, and then its high one.
pub open spec fn written16(n: u16) -> Seq<u8> {
    seq![(n % 256) as u8, (n / 256) as u8]
}

/// A number of 32 bits as a file holds it: byte by byte, from the lowest on.
pub open spec fn written32(n: u32) -> Seq<u8> {
    seq![(n % 256) as u8, (n / 256 % 256) as u8, (n / 65536 % 256) as u8, (n / 16777216) as u8]
}

/// A format chunk as it is written: the kind of samples, the channels, the blocks per second, the bytes per
/// second, the bytes of a block and the bits of a sample; then whatever its kind adds.
pub open spec fn written_format(
    code: u16,
    channels: u16,
    rate: u32,
    bytes_per_sec: u32,
    block_size: u16,
    bits: u16,
    extension: Seq<u8>,
) -> Seq<u8> {
    written16(code) + written16(channels) + written32(rate) + written32(bytes_per_sec) + written16(block_size)
        + written16(bits) + extension
}

/// What a format chunk of the extensible kind adds: the size of the addition, the valid bits of a sample, which
/// speakers the channels are for, the kind of samples, and the rest of the identifier that this starts.
pub open spec fn written_extension(bits: u16, speakers: u32, code: u16, rest: Seq<u8>) -> Seq<u8> {
    written16(22) + written16(bits) + written32(speakers) + written16(code) + rest
}

proof fn lemma_written(n: u16, m: u32, s: Seq<u8>)
    ensures
        le16(written16(n) + s) == n,
        le32(written32(m) + s) == m,
        written16(n).len() == 2,
        written32(m).len() == 4,
{
    let w = written32(m) + s;
    assert(w[0] == m % 256 && w[1] == m / 256 % 256 && w[2] == m / 65536 % 256 && w[3] == m / 16777216);
    assert(m / 16777216 < 256);
}

proof fn lemma_written_format(
    code: u16,
    channels: u16,
    rate: u32,
    bytes_per_sec: u32,
    block_size: u16,
    bits: u16,
    extension: Seq<u8>,
)
    ensures
        ({
            let s = written_format(code, channels, rate, bytes_per_sec, block_size, bits, extension);
            &&& s.len() == 16 + extension.len()
            &&& le16(s) == code
            &&& le16(s.skip(2)) == channels
            &&& le32(s.skip(4)) == rate
            &&& le16(s.skip(12)) == block_size
            &&& le16(s.skip(14)) == bits
            &&& s.skip(16) == extension
        }),
{
    let s = written_format(code, channels, rate, bytes_per_sec, block_size, bits, extension);
    let s14 = written16(bits) + extension;
    let s12 = written16(block_size) + s14;
    let s4 = written32(rate) + (written32(bytes_per_sec) + s12);
    let s2 = written16(channels) + s4;
    lemma_written(bits, rate, extension);
    lemma_written(block_size, rate, s14);
    lemma_written(code, rate, written32(bytes_per_sec) + s12);
    lemma_written(channels, bytes_per_sec, s4);
    lemma_written(code, bytes_per_sec, s2);
    assert(s =~= written16(code) + s2);
    assert(s.skip(2) =~= s2);
    assert(s.skip(4) =~= s4);
    assert(s.skip(12) =~= s12);
    assert(s.skip(14) =~= s14);
    assert(s.skip(16) =~= extension);
}

/// A plain format chunk is read as it was written, whatever it says: the same rate, channels, block size and
/// bits, and whether the samples are floats.
pub proof fn law_a_format_is_read_as_it_was_written(
    float: bool,
    channels: u16,
    rate: u32,
    bytes_per_sec: u32,
    block_size: u16,
    bits: u16,
    extension: Seq<u8>,
)
    requires
        extension.len() < 4,
    ensures
        ({
            let code: u16 = if float {
                3
            } else {
                1
            };
            let s = written_format(code, channels, rate, bytes_per_sec, block_size, bits, extension);
            format_of(s) matches Some(format) && {
                &&& format.blocks_per_sec == rate
                &&& format.n_channels == channels
                &&& format.block_size == block_size
                &&& format.bits_per_sample == bits
                &&& format.float == float
            }
        }),
{
    let code: u16 = if float {
        3
    } else {
        1
    };
    lemma_written_format(code, channels, rate, bytes_per_sec, block_size, bits, extension);
}

/// So is one of the extensible kind, which names the kind of samples further on. It is refused where fewer bits
/// of a sample are valid than it takes.
pub proof fn law_an_extensible_format_is_read_as_it_was_written(
    float: bool,
    channels: u16,
    rate: u32,
    bytes_per_sec: u32,
    block_size: u16,
    bits: u16,
    valid_bits: u16,
    speakers: u32,
    rest: Seq<u8>,
)
    ensures
        ({
            let code: u16 = if float {
                3
            } else {
                1
            };
            let extension = written_extension(valid_bits, speakers, code, rest);
            let s = written_format(0xfffe, channels, rate, bytes_per_sec, block_size, bits, extension);
            if valid_bits == bits {
                format_of(s) matches Some(format) && {
                    &&& format.blocks_per_sec == rate
                    &&& format.n_channels == channels
                    &&& format.block_size == block_size
                    &&& format.bits_per_sample == bits
                    &&& format.float == float
                }
            } else {
                format_of(s) is None
            }
        }),
{
    let code: u16 = if float {
        3
    } else {
        1
    };
    let e10 = written16(code) + rest;
    let e2 = written16(valid_bits) + (written32(speakers) + e10);
    let extension = written_extension(valid_bits, speakers, code, rest);
    lemma_written_format(0xfffe, channels, rate, bytes_per_sec, block_size, bits, extension);
    lemma_written(code, rate, rest);
    lemma_written(valid_bits, speakers, written32(speakers) + e10);
    lemma_written(22, rate, e2);
    let s = written_format(0xfffe, channels, rate, bytes_per_sec, block_size, bits, extension);
    assert(extension =~= written16(22) + e2);
    assert(s.skip(18) =~= s.skip(16).skip(2));
    assert(s.skip(18) =~= e2);
    assert(s.skip(24) =~= s.skip(16).skip(8));
    assert(s.skip(24) =~= e10);
}

/// A format chunk of any other kind is refused, and so is one that is too short to hold its numbers.
pub proof fn law_other_formats_are_refused(
    code: u16,
    channels: u16,
    rate: u32,
    bytes_per_sec: u32,
    block_size: u16,
    bits: u16,
    extension: Seq<u8>,
    cut: int,
)
    requires
        code != 1,
        code != 3,
        code != 0xfffe || extension.len() < 10,
        0 <= cut < 16,
    ensures
        ({
            let s = written_format(code, channels, rate, bytes_per_sec, block_size, bits, extension);
            &&& format_of(s) is None
            &&& format_of(s.take(cut)) is None
        }),
{
    lemma_written_format(code, channels, rate, bytes_per_sec, block_size, bits, extension);
}

} // verus!
