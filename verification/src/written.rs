//! Files as they are written, and what is read of them.

use crate::demux::{packet_of, Demux, PacketRead, PacketView};
use crate::io::{back, front, le16, le32};
use crate::metadata::{text_of, TagKind};
use crate::opus::{
    comment_tag, comment_tags, granule_at, granule_of, head_of, key_kind, last_granule_before, le64, lower, opening_of,
    opus_tags, same_ignoring_case, starts_with, Channels,
};
use crate::sample::Encoding;
use crate::tags::{collected, file_tags_of, number_of};
use crate::track::{container_of, title_of, track_of, Container};
use crate::wav::{
    ascii, fields_of, format_of, four_cc, headed, info_fields, info_kind, is_printable, layout_of, list_fields, opened,
    padded, riff_body, tags_of, walk, written16, written32, Format, Walk,
};
use vstd::prelude::*;

verus! {

/// The bytes of an ASCII text.
pub open spec fn written_text(text: Seq<char>) -> Seq<u8> {
    text.map_values(|c: char| c as u8)
}

/// A chunk of a RIFF file: its name, the size of its content, and the content, with a byte behind it that makes
/// its size even.
#[verifier::opaque]
pub open spec fn written_chunk(name: Seq<char>, content: Seq<u8>) -> Seq<u8> {
    written_text(name) + written32(content.len() as u32) + content + if content.len() % 2 == 1 {
        seq![0u8]
    } else {
        Seq::empty()
    }
}

/// The name of the chunk that a text field of a kind is written in.
pub open spec fn info_name(kind: TagKind) -> Seq<char> {
    match kind {
        TagKind::Title => "INAM"@,
        TagKind::Artist => "IART"@,
        TagKind::Album => "IPRD"@,
        TagKind::Genre => "IGNR"@,
        TagKind::TrackNumber => "ITRK"@,
        _ => "ICRD"@,
    }
}

/// A kind of tags that a WAV file has a chunk for.
pub open spec fn has_info(kind: TagKind) -> bool {
    kind != TagKind::AlbumArtist && kind != TagKind::DiscNumber
}

/// Some text fields, each in its chunk.
pub open spec fn written_fields(fields: Seq<(TagKind, Seq<u8>)>) -> Seq<u8>
    decreases fields.len(),
{
    if fields.len() == 0 {
        Seq::empty()
    } else {
        written_chunk(info_name(fields[0].0), fields[0].1) + written_fields(fields.drop_first())
    }
}

/// A WAV file: its format, its text fields, and its audio data.
#[verifier::opaque]
pub open spec fn written_wav(format: Seq<u8>, fields: Seq<(TagKind, Seq<u8>)>, audio: Seq<u8>) -> Seq<u8> {
    let list = written_text("INFO"@) + written_fields(fields);
    let data = written_text("data"@) + written32(audio.len() as u32) + audio;
    let body = written_text("WAVE"@) + (written_chunk("fmt "@, format) + (written_chunk("LIST"@, list) + data));
    written_text("RIFF"@) + written32(body.len() as u32) + body
}

proof fn lemma_number(n: u32, s: Seq<u8>)
    ensures
        le32(written32(n) + s) == n,
        written32(n).len() == 4,
        (written32(n) + s).skip(4) == s,
{
    let w = written32(n) + s;
    assert(w[0] == n % 256 && w[1] == n / 256 % 256 && w[2] == n / 65536 % 256 && w[3] == n / 16777216);
    assert(n / 16777216 < 256);
    assert(w.skip(4) =~= s);
}

/// A text of four printable characters.
pub open spec fn is_name(name: Seq<char>) -> bool {
    name.len() == 4 && forall|i: int| 0 <= i < 4 ==> ' ' <= #[trigger] name[i] <= '~'
}

proof fn lemma_named(name: Seq<char>, size: u32, s: Seq<u8>)
    requires
        is_name(name),
    ensures
        ({
            let w = written_text(name) + written32(size) + s;
            &&& four_cc(w) == Some(name)
            &&& w.len() == 8 + s.len()
            &&& le32(w.skip(4)) == size
            &&& w.skip(8) == s
        }),
        four_cc(written_text(name) + s) == Some(name),
        (written_text(name) + s).skip(4) == s,
{
    let w = written_text(name) + written32(size) + s;
    let v = written_text(name) + s;
    lemma_number(size, s);
    assert(w.skip(4) =~= written32(size) + s);
    assert(w.skip(8) =~= s);
    assert(v.skip(4) =~= s);
    assert forall|i: int| 0 <= i < 4 implies (#[trigger] w[i]) == name[i] as u8 && v[i] == name[i] as u8 && is_printable(
        w[i],
    ) && (name[i] as u8) as char == name[i] by {
        assert(' ' <= name[i] <= '~');
        assert(w[i] == written_text(name)[i]);
        assert(v[i] == written_text(name)[i]);
    }
    assert(w[0] == w[0] && w[1] == w[1] && w[2] == w[2] && w[3] == w[3]);
    assert(ascii(w.take(4)) =~= name);
    assert(ascii(v.take(4)) =~= name);
}

proof fn lemma_chunk(name: Seq<char>, content: Seq<u8>, rest: Seq<u8>)
    requires
        is_name(name),
        content.len() <= u32::MAX,
    ensures
        ({
            let s = written_chunk(name, content) + rest;
            let size = content.len() as int;
            &&& four_cc(s) == Some(name)
            &&& s.len() >= 8
            &&& le32(s.skip(4)) == size
            &&& front(s.skip(8), size) == content
            &&& back(back(s.skip(8), size), size % 2) == rest
            &&& back(s.skip(8), padded(size)) == rest
        }),
{
    reveal(written_chunk);
    let pad = if content.len() % 2 == 1 {
        seq![0u8]
    } else {
        Seq::<u8>::empty()
    };
    let s = written_chunk(name, content) + rest;
    let size = content.len() as int;
    lemma_named(name, content.len() as u32, content + pad + rest);
    assert(s =~= written_text(name) + written32(content.len() as u32) + (content + pad + rest));
    let tail = s.skip(8);
    assert(front(tail, size) =~= content);
    assert(back(tail, size) =~= pad + rest);
    assert(back(back(tail, size), size % 2) =~= rest);
    assert(back(tail, padded(size)) =~= rest);
}

proof fn lemma_chunk_len(name: Seq<char>, content: Seq<u8>)
    ensures
        written_chunk(name, content).len() <= name.len() + 5 + content.len(),
{
    reveal(written_chunk);
}

proof fn lemma_names()
    ensures
        is_name("RIFF"@),
        is_name("WAVE"@),
        is_name("fmt "@),
        is_name("LIST"@),
        is_name("INFO"@),
        is_name("data"@),
        "LIST"@ != "fmt "@,
        "data"@ != "fmt "@,
        "data"@ != "LIST"@,
        forall|kind: TagKind| is_name(#[trigger] info_name(kind)),
{
    reveal_strlit("RIFF");
    reveal_strlit("WAVE");
    reveal_strlit("fmt ");
    reveal_strlit("LIST");
    reveal_strlit("INFO");
    reveal_strlit("data");
    reveal_strlit("INAM");
    reveal_strlit("IART");
    reveal_strlit("IPRD");
    reveal_strlit("IGNR");
    reveal_strlit("ITRK");
    reveal_strlit("ICRD");
    assert("LIST"@[0] != "fmt "@[0]);
    assert("data"@[0] != "fmt "@[0]);
    assert("data"@[0] != "LIST"@[0]);
}

/// Each kind of text field is known by the name of its chunk.
pub proof fn law_fields_are_known_by_their_names(kind: TagKind)
    requires
        has_info(kind),
    ensures
        info_kind(info_name(kind)) == Some(kind),
{
    reveal_strlit("INAM");
    reveal_strlit("IART");
    reveal_strlit("IPRD");
    reveal_strlit("IGNR");
    reveal_strlit("ITRK");
    reveal_strlit("ICRD");
    let (a, b, c, d, e, f) = ("INAM"@, "IART"@, "IPRD"@, "IGNR"@, "ITRK"@, "ICRD"@);
    assert(a[1] == 'N' && b[1] == 'A' && c[1] == 'P' && d[1] == 'G' && e[1] == 'T' && f[1] == 'C');
}

/// The text fields of an INFO list are read as they were written, in their order and each with its kind.
pub proof fn law_fields_are_read_as_they_were_written(fields: Seq<(TagKind, Seq<u8>)>)
    requires
        forall|k: int| 0 <= k < fields.len() ==> has_info((#[trigger] fields[k]).0) && fields[k].1.len() <= u32::MAX,
    ensures
        info_fields(written_fields(fields)) == (fields, true),
    decreases fields.len(),
{
    if fields.len() > 0 {
        let (kind, content) = fields[0];
        let rest = fields.drop_first();
        let s = written_fields(fields);
        assert forall|k: int| 0 <= k < rest.len() implies has_info((#[trigger] rest[k]).0) && rest[k].1.len() <= u32::MAX by {
            assert(rest[k] == fields[k + 1]);
        }
        law_fields_are_read_as_they_were_written(rest);
        lemma_names();
        assert(is_name(info_name(kind)));
        lemma_chunk(info_name(kind), content, written_fields(rest));
        law_fields_are_known_by_their_names(kind);
        assert(seq![(kind, content)] + rest =~= fields);
    } else {
        assert(fields =~= Seq::empty());
    }
}

/// The bits of a sample, by its encoding.
pub open spec fn bits_of(encoding: Encoding) -> u16 {
    match encoding {
        Encoding::U8 => 8,
        Encoding::S16 => 16,
        Encoding::S24 => 24,
        Encoding::S32 => 32,
        Encoding::F32 => 32,
    }
}

proof fn lemma_walk_format(format: Seq<u8>, rest: Seq<u8>, before: Option<Format>)
    requires
        format_of(format) is Some,
        format.len() <= u32::MAX,
    ensures
        walk(written_chunk("fmt "@, format) + rest, before) == walk(rest, format_of(format)),
{
    lemma_names();
    lemma_chunk("fmt "@, format, rest);
}

proof fn lemma_walk_list(list: Seq<u8>, fields: Seq<(TagKind, Seq<u8>)>, rest: Seq<u8>, before: Option<Format>)
    requires
        list_fields(list) == (fields, true),
        list.len() <= u32::MAX,
    ensures
        ({
            let behind = walk(rest, before);
            walk(written_chunk("LIST"@, list) + rest, before) == (Walk {
                fields: fields + behind.fields,
                data: behind.data,
            })
        }),
{
    lemma_names();
    lemma_chunk("LIST"@, list, rest);
}

proof fn lemma_walk_data(audio: Seq<u8>, before: Option<Format>)
    requires
        audio.len() <= u32::MAX,
    ensures
        walk(written_text("data"@) + written32(audio.len() as u32) + audio, before) == (Walk {
            fields: Seq::empty(),
            data: Some((before, audio.len() as int, audio)),
        }),
{
    lemma_names();
    lemma_named("data"@, audio.len() as u32, audio);
}

proof fn lemma_riff(chunks: Seq<u8>)
    requires
        chunks.len() + 4 <= u32::MAX,
    ensures
        ({
            let body = written_text("WAVE"@) + chunks;
            let file = written_text("RIFF"@) + written32(body.len() as u32) + body;
            &&& riff_body(file) == Some(chunks)
            &&& container_of(file) == Some(Container::Wav)
        }),
{
    let body = written_text("WAVE"@) + chunks;
    let file = written_text("RIFF"@) + written32(body.len() as u32) + body;
    lemma_names();
    lemma_named("RIFF"@, body.len() as u32, body);
    lemma_named("WAVE"@, 0, chunks);
    assert(front(file.skip(8), le32(file.skip(4))) =~= body);
    reveal_strlit("RIFF");
    assert forall|i: int| 0 <= i < 4 implies file.take(4)[i] == (#[trigger] "RIFF"@[i]) as u32 by {
        assert(file[i] == written_text("RIFF"@)[i]);
    }
    assert(starts_with(file.take(4), "RIFF"@));
}

proof fn lemma_list(fields: Seq<(TagKind, Seq<u8>)>)
    requires
        forall|k: int| 0 <= k < fields.len() ==> has_info((#[trigger] fields[k]).0) && fields[k].1.len() <= u32::MAX,
    ensures
        list_fields(written_text("INFO"@) + written_fields(fields)) == (fields, true),
{
    lemma_names();
    lemma_named("INFO"@, 0, written_fields(fields));
    law_fields_are_read_as_they_were_written(fields);
}

proof fn lemma_wav(format: Seq<u8>, fields: Seq<(TagKind, Seq<u8>)>, audio: Seq<u8>)
    requires
        format_of(format) is Some,
        forall|k: int| 0 <= k < fields.len() ==> has_info((#[trigger] fields[k]).0) && fields[k].1.len() <= u32::MAX,
        format.len() + written_fields(fields).len() + audio.len() + 100 <= u32::MAX,
    ensures
        ({
            let file = written_wav(format, fields, audio);
            &&& riff_body(file) matches Some(body) && walk(body, None) == (Walk {
                fields,
                data: Some((format_of(format), audio.len() as int, audio)),
            })
            &&& container_of(file) == Some(Container::Wav)
        }),
{
    let list = written_text("INFO"@) + written_fields(fields);
    let data = written_text("data"@) + written32(audio.len() as u32) + audio;
    let after = written_chunk("LIST"@, list) + data;
    let chunks = written_chunk("fmt "@, format) + after;
    let found = format_of(format);
    let empty = Seq::<(TagKind, Seq<u8>)>::empty();
    assert(list_fields(list) == (fields, true)) by {
        lemma_list(fields);
    }
    assert(list.len() == 4 + written_fields(fields).len()) by {
        reveal_strlit("INFO");
    }
    assert(data.len() == 8 + audio.len()) by {
        reveal_strlit("data");
    }
    assert("LIST"@.len() == 4 && "fmt "@.len() == 4) by {
        reveal_strlit("LIST");
        reveal_strlit("fmt ");
    }
    lemma_chunk_len("LIST"@, list);
    lemma_chunk_len("fmt "@, format);
    assert(walk(data, found) == (Walk { fields: empty, data: Some((found, audio.len() as int, audio)) })) by {
        lemma_walk_data(audio, found);
    }
    assert(walk(after, found) == (Walk { fields, data: Some((found, audio.len() as int, audio)) })) by {
        lemma_walk_list(list, fields, data, found);
        assert(fields + empty =~= fields);
    }
    assert(walk(chunks, None) == walk(after, found)) by {
        lemma_walk_format(format, after, None);
    }
    let file = written_wav(format, fields, audio);
    assert(riff_body(file) == Some(chunks) && container_of(file) == Some(Container::Wav)) by {
        reveal(written_wav);
        lemma_riff(chunks);
    }
}

/// A WAV file is opened as it was written: with the rate, the channels and the encoding of its format, whichever
/// of the known ones, and with its audio data. Its tags are its text fields, in their order, and of a text no
/// more than 512 bytes. As a track it has the rate, and the length is how many frames the audio data is.
#[verifier::spinoff_prover]
pub proof fn law_a_wav_file_is_opened_as_it_was_written(
    encoding: Encoding,
    format: Seq<u8>,
    fields: Seq<(TagKind, Seq<u8>)>,
    audio: Seq<u8>,
    extent: nat,
)
    requires
        format_of(format) matches Some(f) && {
            &&& f.float == (encoding == Encoding::F32)
            &&& f.bits_per_sample == bits_of(encoding)
            &&& 1 <= f.n_channels <= 2
            &&& f.block_size == f.n_channels * f.bits_per_sample / 8
        },
        forall|k: int| 0 <= k < fields.len() ==> has_info((#[trigger] fields[k]).0) && fields[k].1.len() <= u32::MAX,
        format.len() + written_fields(fields).len() + audio.len() + 100 <= u32::MAX,
    ensures
        ({
            let f = format_of(format)->0;
            let file = written_wav(format, fields, audio);
            &&& opened(file) matches Some(o) && {
                &&& o.encoding == encoding
                &&& o.channels == f.n_channels
                &&& o.rest == audio
                &&& o.format.blocks_per_sec == f.blocks_per_sec
                &&& o.format.size == audio.len()
            }
            &&& headed(file) matches Some((head, rest)) && head.blocks_per_sec == f.blocks_per_sec && head.size
                == audio.len() && rest == audio
            &&& tags_of(file).len() == fields.len()
            &&& forall|k: int|
                0 <= k < fields.len() ==> #[trigger] tags_of(file)[k] == (fields[k].0, text_of(fields[k].1, 512))
            &&& track_of(file, extent) matches Some(track) && {
                &&& track.container == Container::Wav
                &&& track.rate == f.blocks_per_sec
                &&& track.len == Some((audio.len() as int / f.block_size as int) as u64)
                &&& track.title == title_of(tags_of(file))
            }
        }),
{
    let f = format_of(format)->0;
    let file = written_wav(format, fields, audio);
    lemma_wav(format, fields, audio);
    let width = bits_of(encoding) as int / 8;
    if f.n_channels == 1 {
        assert(f.block_size == width);
    } else {
        assert(f.block_size == 2 * width);
    }
    assert(layout_of(f) == Some((encoding, f.n_channels as nat)));
    assert((f.bits_per_sample as int / 8) * f.n_channels as int == f.block_size) by (nonlinear_arith)
        requires
            f.n_channels == 1 || f.n_channels == 2,
            f.block_size == if f.n_channels == 1 {
                width
            } else {
                2 * width
            },
            width == f.bits_per_sample as int / 8,
    ;
    assert(fields_of(file) == fields);
}

/// Of several titles the last is the track's.
pub proof fn law_the_last_title_is_the_title(tags: Seq<(TagKind, Seq<char>)>, k: int)
    requires
        0 <= k < tags.len(),
        tags[k].0 == TagKind::Title,
        forall|l: int| k < l < tags.len() ==> (#[trigger] tags[l]).0 != TagKind::Title,
    ensures
        title_of(tags) == tags[k].1,
    decreases tags.len(),
{
    if k < tags.len() - 1 {
        let before = tags.drop_last();
        assert(tags[tags.len() - 1].0 != TagKind::Title);
        assert forall|l: int| k < l < before.len() implies (#[trigger] before[l]).0 != TagKind::Title by {
            assert(before[l] == tags[l]);
        }
        law_the_last_title_is_the_title(before, k);
    }
}

/// The identification header of an Opus stream: its version, its channels, how many samples to drop from its
/// front, the rate before it was encoded, its gain and the family of its channel mapping.
pub open spec fn written_head(
    version: u8,
    channels: u8,
    pre_skip: u16,
    rate: u32,
    gain: u16,
    family: u8,
    rest: Seq<u8>,
) -> Seq<u8> {
    written_text("OpusHead"@) + seq![version, channels] + written16(pre_skip) + written32(rate) + written16(gain)
        + seq![family] + rest
}

/// An identification header is read as it was written: with the channels and the samples to drop. It is refused
/// where its version is of another kind, where it maps its channels, and where they are not one or two.
pub proof fn law_a_head_is_read_as_it_was_written(
    version: u8,
    channels: u8,
    pre_skip: u16,
    rate: u32,
    gain: u16,
    family: u8,
    rest: Seq<u8>,
)
    ensures
        ({
            let head = head_of(written_head(version, channels, pre_skip, rate, gain, family, rest));
            &&& head is Some <==> version < 16 && family == 0 && 1 <= channels <= 2
            &&& head matches Some((found, dropped)) ==> {
                &&& dropped == pre_skip
                &&& channels == 1 ==> found == Channels::Mono
                &&& channels == 2 ==> found == Channels::Stereo
            }
        }),
{
    let s = written_head(version, channels, pre_skip, rate, gain, family, rest);
    reveal_strlit("OpusHead");
    assert forall|i: int| 0 <= i < 8 implies s[i] == (#[trigger] "OpusHead"@[i]) as u32 by {
        assert(s[i] == written_text("OpusHead"@)[i]);
        assert("OpusHead"@[i] <= '~');
    }
    assert(starts_with(s, "OpusHead"@));
    assert(s[8] == version && s[9] == channels && s[18] == family);
    assert(s[10] == pre_skip % 256 && s[11] == pre_skip / 256);
    assert(le16(s.skip(10)) == pre_skip);
}

/// The name that a kind of tags has in a comment.
pub open spec fn comment_name(kind: TagKind) -> Seq<char> {
    match kind {
        TagKind::Title => "TITLE"@,
        TagKind::Artist => "ARTIST"@,
        TagKind::Album => "ALBUM"@,
        TagKind::AlbumArtist => "ALBUMARTIST"@,
        TagKind::Genre => "GENRE"@,
        TagKind::TrackNumber => "TRACKNUMBER"@,
        TagKind::DiscNumber => "DISCNUMBER"@,
        TagKind::Date => "DATE"@,
    }
}

/// The text is the name, each letter of it a capital or a small one.
pub open spec fn names(text: Seq<char>, name: Seq<char>) -> bool {
    text.len() == name.len() && forall|i: int|
        0 <= i < text.len() ==> (#[trigger] text[i] == name[i] || text[i] as u32 == name[i] as u32 + 32)
}

proof fn lemma_comment_names()
    ensures
        forall|kind: TagKind, i: int|
            0 <= i < comment_name(kind).len() ==> 'A' <= #[trigger] comment_name(kind)[i] <= 'Z',
{
    reveal_strlit("TITLE");
    reveal_strlit("ARTIST");
    reveal_strlit("ALBUM");
    reveal_strlit("ALBUMARTIST");
    reveal_strlit("GENRE");
    reveal_strlit("TRACKNUMBER");
    reveal_strlit("DISCNUMBER");
    reveal_strlit("DATE");
}

proof fn lemma_key(key: Seq<char>, kind: TagKind)
    requires
        names(key, comment_name(kind)),
    ensures
        key_kind(key) == Some(kind),
        !key.contains('='),
{
    reveal_strlit("TITLE");
    reveal_strlit("ARTIST");
    reveal_strlit("ALBUM");
    reveal_strlit("ALBUMARTIST");
    reveal_strlit("GENRE");
    reveal_strlit("TRACKNUMBER");
    reveal_strlit("DISCNUMBER");
    reveal_strlit("DATE");
    let name = comment_name(kind);
    lemma_comment_names();
    assert forall|i: int| 0 <= i < key.len() implies lower(#[trigger] key[i]) == lower(name[i]) && key[i] != '=' by {
        assert('A' <= name[i] <= 'Z');
    }
    assert(same_ignoring_case(key, name));
    assert(name.len() > 1);
    assert(lower(key[0]) == lower(name[0]) && lower(key[1]) == lower(name[1]));
    assert(lower('T') == 't' && lower('A') == 'a' && lower('G') == 'g' && lower('D') == 'd' && lower('I') == 'i' && lower('R')
        == 'r' && lower('L') == 'l' && lower('E') == 'e');
    let (t, a, l, m, g, n, d, y) = (
        "TITLE"@,
        "ARTIST"@,
        "ALBUM"@,
        "ALBUMARTIST"@,
        "GENRE"@,
        "TRACKNUMBER"@,
        "DISCNUMBER"@,
        "DATE"@,
    );
    assert(t.len() == 5 && a.len() == 6 && l.len() == 5 && m.len() == 11 && g.len() == 5 && n.len() == 11 && d.len() == 10
        && y.len() == 4);
    assert(t[0] == 'T' && l[0] == 'A' && g[0] == 'G' && m[0] == 'A' && n[0] == 'T');
    assert(same_ignoring_case(key, t) ==> lower(key[0]) == lower(t[0]));
    assert(same_ignoring_case(key, l) ==> lower(key[0]) == lower(l[0]));
    assert(same_ignoring_case(key, g) ==> lower(key[0]) == lower(g[0]));
    assert(same_ignoring_case(key, m) ==> lower(key[0]) == lower(m[0]));
    assert(same_ignoring_case(key, n) ==> lower(key[0]) == lower(n[0]));
}

proof fn lemma_equals(key: Seq<char>, s: Seq<char>, i: int)
    requires
        0 <= i <= key.len() < s.len(),
        forall|j: int| 0 <= j < key.len() ==> s[j] == #[trigger] key[j] && key[j] != '=',
        s[key.len() as int] == '=',
    ensures
        crate::opus::equals_from(s, i) == key.len(),
    decreases key.len() - i,
{
    if i < key.len() {
        assert(s[i] == key[i]);
        lemma_equals(key, s, i + 1);
    }
}

/// A comment is a name, an equals sign and a value: its tag is of the kind that the name is of, in capitals or
/// not, with the whole value, whatever it holds.
pub proof fn law_a_comment_is_read_as_it_was_written(kind: TagKind, key: Seq<char>, value: Seq<char>)
    requires
        names(key, comment_name(kind)),
    ensures
        comment_tag(vstd::utf8::encode_utf8(key + seq!['='] + value)) == Some((kind, value)),
{
    let text = key + seq!['='] + value;
    vstd::utf8::encode_utf8_valid_utf8(text);
    vstd::utf8::encode_utf8_decode_utf8(text);
    lemma_key(key, kind);
    assert forall|j: int| 0 <= j < key.len() implies text[j] == #[trigger] key[j] && key[j] != '=' by {
        assert(key.contains(key[j]));
    }
    lemma_equals(key, text, 0);
    assert(text.take(key.len() as int) =~= key);
    assert(text.skip(1int + key.len()) =~= value);
}

/// Some comments, each with its length in front.
pub open spec fn written_comments(comments: Seq<(TagKind, Seq<char>)>) -> Seq<u8>
    decreases comments.len(),
{
    if comments.len() == 0 {
        Seq::empty()
    } else {
        let text = vstd::utf8::encode_utf8(comment_name(comments[0].0) + seq!['='] + comments[0].1);
        written32(text.len() as u32) + text + written_comments(comments.drop_first())
    }
}

/// A comment header: who encoded the stream, how many comments there are, and these.
pub open spec fn written_tags(vendor: Seq<u8>, comments: Seq<(TagKind, Seq<char>)>, rest: Seq<u8>) -> Seq<u8> {
    written_text("OpusTags"@) + written32(vendor.len() as u32) + vendor + written32(comments.len() as u32)
        + written_comments(comments) + rest
}

proof fn lemma_comments(comments: Seq<(TagKind, Seq<char>)>, rest: Seq<u8>)
    requires
        forall|k: int|
            0 <= k < comments.len() ==> vstd::utf8::encode_utf8(
                comment_name((#[trigger] comments[k]).0) + seq!['='] + comments[k].1,
            ).len() <= u32::MAX,
    ensures
        comment_tags(written_comments(comments) + rest, comments.len() as int) == comments,
    decreases comments.len(),
{
    if comments.len() > 0 {
        let (kind, value) = comments[0];
        let others = comments.drop_first();
        let text = vstd::utf8::encode_utf8(comment_name(kind) + seq!['='] + value);
        let tail = written_comments(others) + rest;
        let s = written_comments(comments) + rest;
        assert forall|k: int| 0 <= k < others.len() implies vstd::utf8::encode_utf8(
            comment_name((#[trigger] others[k]).0) + seq!['='] + others[k].1,
        ).len() <= u32::MAX by {
            assert(others[k] == comments[k + 1]);
        }
        lemma_comments(others, rest);
        assert(s =~= written32(text.len() as u32) + (text + tail));
        lemma_number(text.len() as u32, text + tail);
        assert(s.subrange(4, 4int + text.len()) =~= text);
        assert(s.skip(4int + text.len()) =~= tail);
        law_a_comment_is_read_as_it_was_written(kind, comment_name(kind), value);
        assert(seq![(kind, value)] + others =~= comments);
    } else {
        assert(comments =~= Seq::empty());
    }
}

/// A comment header is read as it was written: its tags are its comments, in their order, each of its kind and
/// with its value.
pub proof fn law_comments_are_read_as_they_were_written(
    vendor: Seq<u8>,
    comments: Seq<(TagKind, Seq<char>)>,
    rest: Seq<u8>,
)
    requires
        vendor.len() <= u32::MAX,
        comments.len() <= u32::MAX,
        forall|k: int|
            0 <= k < comments.len() ==> vstd::utf8::encode_utf8(
                comment_name((#[trigger] comments[k]).0) + seq!['='] + comments[k].1,
            ).len() <= u32::MAX,
    ensures
        opus_tags(written_tags(vendor, comments, rest)) == comments,
{
    let s = written_tags(vendor, comments, rest);
    let n = comments.len() as u32;
    let list = written32(n) + (written_comments(comments) + rest);
    reveal_strlit("OpusTags");
    assert forall|i: int| 0 <= i < 8 implies s[i] == (#[trigger] "OpusTags"@[i]) as u32 by {
        assert(s[i] == written_text("OpusTags"@)[i]);
        assert("OpusTags"@[i] <= '~');
    }
    assert(s =~= written_text("OpusTags"@) + (written32(vendor.len() as u32) + (vendor + list)));
    lemma_number(vendor.len() as u32, vendor + list);
    assert(s.skip(8) =~= written32(vendor.len() as u32) + (vendor + list));
    assert(s.skip(12int + vendor.len()) =~= list);
    lemma_number(n, written_comments(comments) + rest);
    lemma_comments(comments, rest);
}

/// A number of 64 bits as a file holds it.
pub open spec fn written64(n: u64) -> Seq<u8> {
    written32((n % 4294967296) as u32) + written32((n / 4294967296) as u32)
}

/// A page of an Ogg file tells the position that it ends on, in front of the stream that it is of. It is told
/// where the page is complete, its checksum holds, and it is of the stream that is asked for.
pub proof fn law_a_page_tells_its_granule(flags: u8, granule: u64, serial: u32, asked: u32, rest: Seq<u8>)
    requires
        crate::demux::page_len(
            written_text("OggS"@) + seq![0u8, flags] + written64(granule) + written32(serial) + rest,
        ) matches Some(len) && crate::demux::checksum_holds(
            (written_text("OggS"@) + seq![0u8, flags] + written64(granule) + written32(serial) + rest).take(len),
        ),
    ensures
        granule_of(written_text("OggS"@) + seq![0u8, flags] + written64(granule) + written32(serial) + rest, asked)
            == if asked == serial {
            Some(granule)
        } else {
            None
        },
{
    let low = (granule % 4294967296) as u32;
    let high = (granule / 4294967296) as u32;
    let s = written_text("OggS"@) + seq![0u8, flags] + written64(granule) + written32(serial) + rest;
    reveal_strlit("OggS");
    assert(written_text("OggS"@).len() == 4);
    assert(granule / 4294967296 < 4294967296);
    assert(s.skip(14) =~= written32(serial) + rest);
    assert(s.skip(6) =~= written32(low) + (written32(high) + (written32(serial) + rest)));
    assert(s.skip(6).skip(4) =~= written32(high) + (written32(serial) + rest));
    lemma_number(serial, rest);
    lemma_number(low, written32(high) + (written32(serial) + rest));
    lemma_number(high, written32(serial) + rest);
}

/// The granule that ends a stream is that of the last of its pages on which a packet ends; there is none where no
/// page has one.
pub proof fn law_the_last_page_tells_the_end(tail: Seq<u8>, n: int, serial: u32)
    ensures
        match last_granule_before(tail, n, serial) {
            Some(granule) => exists|i: int|
                {
                    &&& 0 <= i < n
                    &&& #[trigger] granule_at(tail, i, serial) == Some(granule)
                    &&& granule != u64::MAX
                    &&& forall|j: int|
                        i < j < n ==> (#[trigger] granule_at(tail, j, serial) is None || granule_at(tail, j, serial) == Some(
                            u64::MAX,
                        ))
                },
            None => forall|j: int|
                0 <= j < n ==> (#[trigger] granule_at(tail, j, serial) is None || granule_at(tail, j, serial) == Some(
                    u64::MAX,
                )),
        },
    decreases n,
{
    if n > 0 {
        law_the_last_page_tells_the_end(tail, n - 1, serial);
        let here = granule_at(tail, n - 1, serial);
        if here is None || here == Some(u64::MAX) {
            match last_granule_before(tail, n - 1, serial) {
                Some(granule) => {
                    let i = choose|i: int|
                        {
                            &&& 0 <= i < n - 1
                            &&& #[trigger] granule_at(tail, i, serial) == Some(granule)
                            &&& granule != u64::MAX
                            &&& forall|j: int|
                                i < j < n - 1 ==> (#[trigger] granule_at(tail, j, serial) is None || granule_at(
                                    tail,
                                    j,
                                    serial,
                                ) == Some(u64::MAX))
                        };
                    assert(granule_at(tail, i, serial) == Some(granule));
                },
                None => {},
            }
        }
    }
}

/// A page starts with its capture pattern, and is looked for nowhere else.
pub proof fn law_pages_are_found_by_their_pattern(s: Seq<u8>, i: int, serial: u32)
    requires
        0 <= i <= s.len(),
    ensures
        granule_at(s, i, serial) is Some ==> {
            &&& i + 27 <= s.len()
            &&& s.subrange(i, i + 4) == seq![0x4fu8, 0x67, 0x67, 0x53]
            &&& le32(s.skip(i).skip(14)) == serial
            &&& granule_at(s, i, serial) == Some(le64(s.skip(i).skip(6)) as u64)
        },
{
    reveal_strlit("OggS");
    if granule_at(s, i, serial) is Some {
        let t = s.skip(i);
        assert("OggS"@[0] as u32 == 0x4f && "OggS"@[1] as u32 == 0x67 && "OggS"@[2] as u32 == 0x67 && "OggS"@[3] as u32 == 0x53);
        assert(t[0] == s[i] && t[1] == s[i + 1] && t[2] == s[i + 2] && t[3] == s[i + 3]);
        assert(s.subrange(i, i + 4) =~= seq![0x4fu8, 0x67, 0x67, 0x53]);
    }
}

/// The length of an Opus track is the position that its last page ends on, in samples of 48 kHz, without the
/// samples that are dropped from its front. Of a long file just the end is looked at, as far as the largest
/// page reaches.
#[verifier::spinoff_prover]
#[verifier::rlimit(40)]
pub proof fn law_a_track_is_as_long_as_its_last_page_tells(file: Seq<u8>, serial: u32, pre_skip: u16, granule: u64, i: int)
    requires
        0 <= i,
        i + 27 <= file.len() <= i + 65307,
        granule_at(file, i, serial) == Some(granule),
        pre_skip <= granule < u64::MAX,
        forall|j: int|
            i < j <= file.len() - 27 ==> (#[trigger] granule_at(file, j, serial) is None || granule_at(file, j, serial)
                == Some(u64::MAX)),
    ensures
        crate::opus::len_of(file, file.len(), serial, pre_skip) == Some((granule - pre_skip) as u64),
{
    let start = if file.len() < 65307 {
        0
    } else {
        file.len() - 65307
    };
    let tail = file.skip(start);
    let n = tail.len() - 26;
    assert forall|j: int| 0 <= j < n implies granule_at(file, j + start, serial) == #[trigger] granule_at(tail, j, serial) by {
        assert(file.skip(j + start) =~= tail.skip(j));
    }
    assert(granule_at(tail, i - start, serial) == Some(granule));
    assert forall|j: int| i - start < j < n implies (#[trigger] granule_at(tail, j, serial) is None || granule_at(
        tail,
        j,
        serial,
    ) == Some(u64::MAX)) by {
        assert(granule_at(file, j + start, serial) == granule_at(tail, j, serial));
    }
    law_the_last_page_tells_the_end(tail, n, serial);
    let last = last_granule_before(tail, n, serial);
    assert(last == Some(granule)) by {
        if last is Some {
            let w = choose|w: int|
                {
                    &&& 0 <= w < n
                    &&& #[trigger] granule_at(tail, w, serial) == last
                    &&& last->0 != u64::MAX
                    &&& forall|j: int|
                        w < j < n ==> (#[trigger] granule_at(tail, j, serial) is None || granule_at(tail, j, serial) == Some(
                            u64::MAX,
                        ))
                };
            assert(w == i - start);
        }
    }
}

/// The page that is looked for from a place on is the first there that tells a position; one of a header, where
/// it is none, does not count.
pub proof fn law_the_first_page_is_found(window: Seq<u8>, i: int, serial: u32)
    requires
        0 <= i,
    ensures
        match crate::opus::first_granule_from(window, i, serial) {
            Some((at, granule)) => {
                &&& i <= at <= window.len() - 27
                &&& granule_at(window, at, serial) == Some(granule)
                &&& 0 < granule < u64::MAX
                &&& forall|j: int|
                    i <= j < at ==> (#[trigger] granule_at(window, j, serial) matches Some(g) ==> g == 0 || g == u64::MAX)
            },
            None => forall|j: int|
                i <= j <= window.len() - 27 ==> (#[trigger] granule_at(window, j, serial) matches Some(g) ==> g == 0 || g
                    == u64::MAX),
        },
    decreases window.len() - i,
{
    if i <= window.len() - 27 {
        law_the_first_page_is_found(window, i + 1, serial);
    }
}

/// The first so many bytes of a stream and those behind them are all of it.
pub proof fn law_a_stream_is_parted(s: Seq<u8>, n: nat)
    ensures
        front(s, n as int) + back(s, n as int) == s,
        front(s, n as int).len() == if n < s.len() {
            n
        } else {
            s.len()
        },
{
    assert(front(s, n as int) + back(s, n as int) =~= s);
}

/// What is known of a WAV file is what it was tagged with: each text of the last field of its kind.
pub proof fn law_a_wav_file_is_tagged_as_it_was_written(
    encoding: Encoding,
    format: Seq<u8>,
    fields: Seq<(TagKind, Seq<u8>)>,
    audio: Seq<u8>,
    k: int,
)
    requires
        format_of(format) matches Some(f) && {
            &&& f.float == (encoding == Encoding::F32)
            &&& f.bits_per_sample == bits_of(encoding)
            &&& 1 <= f.n_channels <= 2
            &&& f.block_size == f.n_channels * f.bits_per_sample / 8
        },
        forall|l: int| 0 <= l < fields.len() ==> has_info((#[trigger] fields[l]).0) && fields[l].1.len() <= u32::MAX,
        format.len() + written_fields(fields).len() + audio.len() + 100 <= u32::MAX,
        0 <= k < fields.len(),
        forall|l: int| k < l < fields.len() ==> (#[trigger] fields[l]).0 != fields[k].0,
    ensures
        file_tags_of(written_wav(format, fields, audio)) matches Some(tags) && {
            let text = text_of(fields[k].1, 512);
            match fields[k].0 {
                TagKind::Title => tags.title == text,
                TagKind::Artist => tags.artist == text,
                TagKind::Album => tags.album == text,
                TagKind::Genre => tags.genre == text,
                TagKind::TrackNumber => tags.track == number_of(text),
                TagKind::Date => tags.year == number_of(text),
                _ => true,
            }
        },
{
    let file = written_wav(format, fields, audio);
    law_a_wav_file_is_opened_as_it_was_written(encoding, format, fields, audio, 0);
    lemma_wav(format, fields, audio);
    let tags = tags_of(file);
    assert(tags[k] == (fields[k].0, text_of(fields[k].1, 512)));
    assert forall|l: int| k < l < tags.len() implies (#[trigger] tags[l]).0 != tags[k].0 by {
        assert(tags[l] == (fields[l].0, text_of(fields[l].1, 512)));
        assert(fields[l].0 != fields[k].0);
    }
    crate::tags::law_each_tag_has_its_field(tags, k);
}

/// An Opus stream opens as its first two packets were written: with the channels and the samples to drop of the
/// one, and the comments of the other as its tags. It plays at 48 kHz, and the serial number of its first page
/// tells its pages.
pub proof fn law_an_opus_stream_opens_as_it_was_written(
    s: Seq<u8>,
    first: PacketView,
    second: PacketView,
    demux: Demux,
    rest: Seq<u8>,
    behind: Demux,
    audio: Seq<u8>,
    channels: u8,
    pre_skip: u16,
    rate: u32,
    gain: u16,
    vendor: Seq<u8>,
    comments: Seq<(TagKind, Seq<char>)>,
    extent: nat,
)
    requires
        packet_of(Demux::start(false), s) == PacketRead::Packet(first, demux, rest),
        packet_of(demux, rest) == PacketRead::Packet(second, behind, audio),
        first.data == written_head(1, channels, pre_skip, rate, gain, 0, Seq::empty()),
        second.data == written_tags(vendor, comments, Seq::empty()),
        1 <= channels <= 2,
        vendor.len() <= u32::MAX,
        comments.len() <= u32::MAX,
        forall|k: int|
            0 <= k < comments.len() ==> vstd::utf8::encode_utf8(
                comment_name((#[trigger] comments[k]).0) + seq!['='] + comments[k].1,
            ).len() <= u32::MAX,
    ensures
        opening_of(s) matches Some(opening) && {
            &&& opening.channels == Channels::Mono <==> channels == 1
            &&& opening.pre_skip == pre_skip
            &&& opening.serial == first.serial
            &&& opening.tags == comments
            &&& opening.demux == behind
            &&& opening.rest == audio
        },
        container_of(s) == Some(Container::Ogg) ==> {
            &&& track_of(s, extent) matches Some(track) && track.rate == 48_000 && track.title == title_of(comments)
            &&& file_tags_of(s) == Some(collected(comments))
        },
{
    law_a_head_is_read_as_it_was_written(1, channels, pre_skip, rate, gain, 0, Seq::empty());
    law_comments_are_read_as_they_were_written(vendor, comments, Seq::empty());
}

/// A file is known by its first four bytes.
pub proof fn law_containers_are_known_by_their_start(rest: Seq<u8>)
    ensures
        container_of(written_text("RIFF"@) + rest) == Some(Container::Wav),
        container_of(written_text("OggS"@) + rest) == Some(Container::Ogg),
{
    reveal_strlit("RIFF");
    reveal_strlit("OggS");
    let riff = (written_text("RIFF"@) + rest).take(4);
    let oggs = (written_text("OggS"@) + rest).take(4);
    assert forall|i: int| 0 <= i < 4 implies riff[i] == (#[trigger] "RIFF"@[i]) as u32 && oggs[i] == "OggS"@[i] as u32 by {
        assert(riff[i] == written_text("RIFF"@)[i]);
        assert(oggs[i] == written_text("OggS"@)[i]);
    }
    assert forall|i: int| 0 <= i < 4 implies oggs[i] == (#[trigger] "OggS"@[i]) as u32 by {
        assert("RIFF"@[i] == "RIFF"@[i]);
    }
    assert(starts_with(riff, "RIFF"@));
    assert(starts_with(oggs, "OggS"@));
    assert(oggs[0] == 'O' as u32 && "RIFF"@[0] == 'R');
    assert(!starts_with(oggs, "RIFF"@));
}

/// Read as a stream, a WAV file gives its format and its audio data.
pub proof fn law_a_wav_stream_gives_the_audio(
    encoding: Encoding,
    format: Seq<u8>,
    fields: Seq<(TagKind, Seq<u8>)>,
    audio: Seq<u8>,
)
    requires
        format_of(format) matches Some(f) && {
            &&& f.float == (encoding == Encoding::F32)
            &&& f.bits_per_sample == bits_of(encoding)
            &&& 1 <= f.n_channels <= 2
            &&& f.block_size == f.n_channels * f.bits_per_sample / 8
        },
        forall|l: int| 0 <= l < fields.len() ==> has_info((#[trigger] fields[l]).0) && fields[l].1.len() <= u32::MAX,
        format.len() + written_fields(fields).len() + audio.len() + 100 <= u32::MAX,
    ensures
        crate::wav_stream::streamed(written_wav(format, fields, audio)) matches Some((head, data)) && data == audio
            && head.blocks_per_sec == format_of(format)->0.blocks_per_sec && head.size == audio.len(),
{
    law_a_wav_file_is_opened_as_it_was_written(encoding, format, fields, audio, 0);
    let file = written_wav(format, fields, audio);
    let behind = crate::wav::behind_riff(file);
    assert(front(audio + behind, audio.len() as int) =~= audio);
}

} // verus!
