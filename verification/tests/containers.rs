use phonoscule::io::{Cursor, Read, ReadExt, Seek, Skip, Skippable, Take, TakeExact};
use phonoscule::metadata::{Tag, TagKind};
use phonoscule::opus::{last_granule, parse_opus_head, Channels, Headers, OggOpus, OpusReader};
use phonoscule::plumbing::{FastForward, Source};
use phonoscule::sample::{MultiReader, PcmS16Le, Stereo};
use phonoscule::track::Track;
use phonoscule::wav::{FourCc, Wav};

/// Collects pushed tags for assertions.
#[derive(Default)]
struct Tags {
    title: String,
    artist: String,
    album: String,
}

fn collect(tags: Vec<Tag>) -> Tags {
    let mut t = Tags::default();
    for tag in tags {
        match tag {
            Tag::Title(s) => t.title = s,
            Tag::Artist(s) => t.artist = s,
            Tag::Album(s) => t.album = s,
            _ => {}
        }
    }
    t
}

fn chunk(id: &[u8; 4], body: &[u8]) -> Vec<u8> {
    let mut out = Vec::with_capacity(8 + body.len() + 1);
    out.extend(id);
    out.extend((body.len() as u32).to_le_bytes());
    out.extend(body);
    if body.len() % 2 == 1 {
        out.push(0); // chunks are padded to even sizes
    }
    out
}

fn info(id: &[u8; 4], value: &str) -> Vec<u8> {
    chunk(id, &[value.as_bytes(), b"\0"].concat())
}

fn format(bits: u16, channels: u16, code: u16) -> Vec<u8> {
    let block = channels * bits / 8;
    let mut fmt = Vec::new();
    fmt.extend(code.to_le_bytes());
    fmt.extend(channels.to_le_bytes());
    fmt.extend(48000u32.to_le_bytes()); // blocks per second
    fmt.extend((48000u32 * block as u32).to_le_bytes()); // avg bytes per second
    fmt.extend(block.to_le_bytes()); // block size
    fmt.extend(bits.to_le_bytes()); // bits per sample
    fmt
}

fn riff(chunks: &[Vec<u8>]) -> Vec<u8> {
    let mut body = b"WAVE".to_vec();
    for c in chunks {
        body.extend(c);
    }
    chunk(b"RIFF", &body)
}

/// A minimal valid WAV: 48 kHz stereo 16-bit PCM silence with LIST-INFO tags and `n_frames`
/// of audio.
fn wav_bytes(title: &str, artist: &str, album: &str, n_frames: u32) -> Vec<u8> {
    let list = [&b"INFO"[..], &info(b"INAM", title), &info(b"IART", artist), &info(b"IPRD", album)].concat();
    let data = vec![0u8; n_frames as usize * 4];
    riff(&[chunk(b"fmt ", &format(16, 2, 1)), chunk(b"LIST", &list), chunk(b"data", &data)])
}

#[test]
fn lib_parse_a_wav_file() {
    let data = wav_bytes("Silent Night", "Nobody", "Quiet Sessions", 4800);
    let f = Skippable(Cursor::new(data));
    let mut tags = Vec::new();
    let wav = Wav::parse(f, &mut tags).unwrap();
    let tags = collect(tags);
    assert_eq!(tags.title, "Silent Night");
    assert_eq!(tags.artist, "Nobody");
    assert_eq!(tags.album, "Quiet Sessions");
    let mut samples = match wav.samples {
        MultiReader::StereoS16(s) => s,
        _ => panic!("unexpected format, {:?}", wav.format),
    };
    assert_eq!(wav.format.len_samples(), 4800);
    let mut nleft = wav.format.len_samples();
    loop {
        let nread = samples.read_block(32).unwrap().len();
        if nleft == 0 {
            assert!(nread == 0, "wav format says none left, but we read another {nread}");
            break;
        } else {
            assert!(nread > 0 && nread as u64 <= nleft, "wav format says {nleft} left, but we read {nread}");
            nleft -= nread as u64;
        }
    }
}

fn parse_wav(data: Vec<u8>) -> (bool, Vec<Tag>) {
    let mut tags = Vec::new();
    let ok = Wav::parse(Skippable(Cursor::new(data)), &mut tags).is_some();
    (ok, tags)
}

#[test]
fn wav_formats_that_can_be_played() {
    for (bits, channels, code) in [(8, 1, 1), (8, 2, 1), (16, 1, 1), (16, 2, 1), (24, 1, 1), (24, 2, 1), (32, 1, 1), (32, 2, 1), (32, 1, 3), (32, 2, 3)] {
        let file = riff(&[chunk(b"fmt ", &format(bits, channels, code)), chunk(b"data", &[0; 48])]);
        assert!(parse_wav(file).0, "{bits} bits, {channels} channels, code {code}");
    }
    for (bits, channels, code) in [(16, 3, 1), (12, 2, 1), (64, 2, 3), (16, 2, 3), (16, 2, 2)] {
        let file = riff(&[chunk(b"fmt ", &format(bits, channels, code)), chunk(b"data", &[0; 48])]);
        assert!(!parse_wav(file).0, "{bits} bits, {channels} channels, code {code}");
    }
}

#[test]
fn wav_reads_every_info_tag_and_ignores_the_rest() {
    let list = [
        &b"INFO"[..],
        &info(b"IGNR", "Ambient"),
        &info(b"ITRK", "3"),
        &info(b"ICRD", "2019-05-01"),
        &info(b"ISFT", "Some tool"),
        &info(b"INAM", "Odd"),
    ]
    .concat();
    let file = riff(&[
        chunk(b"cue ", &[1, 2, 3]),
        chunk(b"fmt ", &format(16, 2, 1)),
        chunk(b"LIST", &list),
        chunk(b"LIST", b"adtlwhatever"),
        chunk(b"data", &[0; 8]),
    ]);
    let (ok, tags) = parse_wav(file);
    assert!(ok);
    let said: Vec<String> = tags.into_iter().map(|t| format!("{t:?}")).collect();
    assert_eq!(said, ["Genre(\"Ambient\")", "TrackNumber(\"3\")", "Date(\"2019-05-01\")", "Title(\"Odd\")"]);
}

#[test]
fn wav_rejects_what_it_cannot_read() {
    assert!(!parse_wav(vec![]).0, "nothing at all");
    assert!(!parse_wav(b"RIFX\0\0\0\0WAVE".to_vec()).0, "not RIFF");
    assert!(!parse_wav(chunk(b"RIFF", b"AVI fmt ")).0, "not WAVE");
    assert!(!parse_wav(riff(&[chunk(b"data", &[0; 8])])).0, "no format");
    assert!(!parse_wav(riff(&[chunk(b"fmt ", &format(16, 2, 1))])).0, "no data");
    let mut padded = format(24, 2, 0xfffe);
    padded.extend(22u16.to_le_bytes());
    padded.extend(20u16.to_le_bytes()); // valid bits
    assert!(!parse_wav(riff(&[chunk(b"fmt ", &padded), chunk(b"data", &[0; 8])])).0, "fewer valid bits");
    let mut extensible = format(24, 2, 0xfffe);
    extensible.extend(22u16.to_le_bytes());
    extensible.extend(24u16.to_le_bytes());
    extensible.extend(3u32.to_le_bytes());
    extensible.extend(1u16.to_le_bytes());
    assert!(parse_wav(riff(&[chunk(b"fmt ", &extensible), chunk(b"data", &[0; 12])])).0, "extensible PCM");
}

#[test]
fn four_character_codes_are_printable() {
    let mut inp = Cursor::new(b"LISTdata".to_vec());
    assert_eq!(FourCc::parse(&mut inp).unwrap().as_str(), "LIST");
    assert_eq!(FourCc::parse(&mut inp).unwrap().as_str(), "data");
    assert!(FourCc::parse(&mut inp).is_none(), "the end");
    assert!(FourCc::parse(&mut Cursor::new(vec![b'A', b'B', 7, b'D'])).is_none(), "a control character");
}

/// A valid, decodable Ogg Opus stream of stereo silence with the given Vorbis
/// `comments` (key, value): `n_packets` zero-length (DTX) CELT frames of 20 ms each. Granule
/// positions count raw decoded samples, of which the first `PRE_SKIP` are dropped.
fn silence_opus(n_packets: usize, comments: &[(&str, &str)]) -> Vec<u8> {
    const PRE_SKIP: u64 = 312;
    let mut head = Vec::new();
    head.extend(b"OpusHead");
    head.push(1); // version
    head.push(2); // channels
    head.extend((PRE_SKIP as u16).to_le_bytes());
    head.extend(48000u32.to_le_bytes()); // input sample rate
    head.extend(0u16.to_le_bytes()); // output gain
    head.push(0); // channel mapping family 0

    let mut tags = Vec::new();
    tags.extend(b"OpusTags");
    let vendor = b"phonoscule-test";
    tags.extend((vendor.len() as u32).to_le_bytes());
    tags.extend(vendor);
    tags.extend((comments.len() as u32).to_le_bytes());
    for (key, value) in comments {
        let comment = format!("{key}={value}");
        tags.extend((comment.len() as u32).to_le_bytes());
        tags.extend(comment.as_bytes());
    }

    let serial = 0x5eed;
    let mut out = Vec::new();
    let mut writer = ogg::PacketWriter::new(std::io::Cursor::new(&mut out));
    writer.write_packet(head, serial, ogg::PacketWriteEndInfo::EndPage, 0).unwrap();
    writer.write_packet(tags, serial, ogg::PacketWriteEndInfo::EndPage, 0).unwrap();
    for i in 0..n_packets {
        let end =
            if i + 1 == n_packets { ogg::PacketWriteEndInfo::EndStream } else { ogg::PacketWriteEndInfo::NormalPacket };
        // 0xFC: CELT fullband 20 ms, stereo, code 0 -- with no payload it's one zero-length
        // (DTX) frame, which decodes to a frame of silence.
        writer.write_packet(vec![0xfc], serial, end, (i as u64 + 1) * 960).unwrap();
    }
    drop(writer);
    out
}

/// An Ogg page of stream `serial` that ends at `granule` and holds no packets: a header, and nothing else.
fn bare_page(granule: u64, serial: u32) -> Vec<u8> {
    let mut page = b"OggS\0\0".to_vec();
    page.extend(granule.to_le_bytes());
    page.extend(serial.to_le_bytes());
    page.extend(7u32.to_le_bytes()); // sequence number
    page.extend([0; 5]); // checksum, number of segments
    let mut crc: u32 = 0;
    for byte in &page {
        crc ^= (*byte as u32) << 24;
        for _ in 0..8 {
            crc = if crc >> 31 == 1 { (crc << 1) ^ 0x04c1_1db7 } else { crc << 1 };
        }
    }
    page[22..26].copy_from_slice(&crc.to_le_bytes());
    page
}

#[test]
fn the_last_page_is_found_to_the_very_end() {
    let page = bare_page(96000, 5);
    assert_eq!(page.len(), 27);
    assert_eq!(last_granule(&page, 5), Some(96000), "all there is");
    assert_eq!(last_granule(&page, 6), None, "another stream's");
    assert_eq!(last_granule(&page[..26], 5), None, "cut short");
    assert_eq!(last_granule(&[], 5), None);
    let mut broken = page.clone();
    broken[22] ^= 1;
    assert_eq!(last_granule(&broken, 5), None, "the checksum is wrong");
    let tail = [&b"noise"[..], &bare_page(1, 5), &page].concat();
    assert_eq!(last_granule(&tail, 5), Some(96000), "the last of two");
    let tail = [page.clone(), bare_page(u64::MAX, 5)].concat();
    assert_eq!(last_granule(&tail, 5), Some(96000), "no packet ends on the last one");
    let tail = [page, bare_page(2, 6)].concat();
    assert_eq!(last_granule(&tail, 5), Some(96000), "the last one is another stream's");
}

/// The length of a stream that ends in a page without packets is that page's.
#[test]
fn a_bare_last_page_tells_the_length() {
    let mut data = silence_opus(50, &[]);
    data.extend(bare_page(40_000, 0x5eed));
    let opus = OggOpus::parse_seekable(Cursor::new(data), &mut Vec::new()).unwrap();
    assert_eq!(opus.format.len_samples, Some(40_000 - 312));
}

fn left_of(samples: &mut OpusReader<Cursor>) -> u64 {
    let mut total: u64 = 0;
    loop {
        let mut buf = [Stereo::<PcmS16Le>::default(); 512];
        let nread = samples.read_samples(&mut buf).unwrap();
        if nread == 0 {
            break;
        }
        total += nread as u64;
    }
    total
}

#[test]
fn seek_a_generated_opus_stream() {
    let minute = 60 * 48000u64;
    let data = silence_opus(9000, &[]); // 3 minutes of silence
    let opus = OggOpus::parse_seekable(Cursor::new(data), &mut Vec::new()).unwrap();
    let len = opus.format.len_samples.unwrap();
    assert_eq!(len, 9000 * 960 - 312); // total decoded minus the pre-skip
    let mut samples = opus.samples;

    let mut remaining_after_seek_to = |target: u64| {
        let pos = samples.seek_samples(target).unwrap();
        (pos, left_of(&mut samples))
    };

    // Bisection seek forward.
    let (pos, remaining) = remaining_after_seek_to(2 * minute);
    assert_eq!(pos, 2 * minute);
    assert_eq!(remaining, len - pos);
    // Seek backward (and to a target so early it takes the decode-from-start path).
    let (pos, remaining) = remaining_after_seek_to(1000);
    assert_eq!(pos, 1000);
    assert_eq!(remaining, len - pos);
    // Seek past the end of the stream.
    let (pos, remaining) = remaining_after_seek_to(len + minute);
    assert_eq!(pos, len);
    assert_eq!(remaining, 0);
}

#[test]
fn parse_an_opus_file() {
    let comments = [("TITLE", "Silent Night"), ("ARTIST", "Nobody"), ("ALBUM", "Quiet Sessions")];
    let data = silence_opus(500, &comments); // 10 s
    let mut tags = Vec::new();
    let opus = OggOpus::parse_seekable(Cursor::new(data), &mut tags).unwrap();
    let tags = collect(tags);
    assert_eq!(tags.title, "Silent Night");
    assert_eq!(tags.artist, "Nobody");
    assert_eq!(tags.album, "Quiet Sessions");
    assert_eq!(opus.format.n_channels, 2);
    let len = opus.format.len_samples.expect("tail scan should find the last page granule");
    assert_eq!(len, 500 * 960 - 312); // total decoded minus the pre-skip
    let mut samples = opus.samples;
    let total = left_of(&mut samples);
    // We decode every frame in full while the granule-derived length excludes the final
    // frame's end padding, so the decoded total may exceed it by less than one frame.
    assert!(len <= total && total - len < 5760, "len_samples {len} vs decoded total {total}");
}

#[test]
fn opus_headers_are_checked() {
    let data = silence_opus(3, &[("title", "lower case keys"), ("DATE", "1999"), ("NOPE", "ignored"), ("broken", "")]);
    let mut tags = Vec::new();
    assert!(Headers::parse(&mut Cursor::new(data), &mut tags).is_some());
    assert_eq!(collect(tags).title, "lower case keys");
    assert!(Headers::parse(&mut Cursor::new(b"OggS and nothing more".to_vec()), &mut Vec::new()).is_none());
    let mut head = b"OpusHead".to_vec();
    head.extend([1, 1, 0x38, 0x01, 0, 0, 0, 0, 0, 0, 0]);
    assert_eq!(parse_opus_head(&head).map(|(c, skip)| (c.count(), skip)), Some((1, 312)));
    head[9] = 6;
    assert!(parse_opus_head(&head).is_none(), "too many channels");
    assert!(parse_opus_head(b"OpusHea").is_none(), "too short");
    assert_eq!(Channels::Stereo.count(), 2);
}

#[test]
fn fast_forwarding_an_opus_stream_skips_samples() {
    let data = silence_opus(50, &[]);
    let opus = OggOpus::parse_seekable(Cursor::new(data), &mut Vec::new()).unwrap();
    let len = opus.format.len_samples.unwrap();
    let mut samples = opus.samples;
    assert_eq!(samples.fast_forward(10_000), Some(10_000));
    assert_eq!(left_of(&mut samples), len - 10_000);
    assert_eq!(samples.fast_forward(1), Some(0), "nothing left to skip");
}

#[test]
fn tracks_open_by_their_first_bytes() {
    let track = Track::open(Cursor::new(wav_bytes("Silent Night", "Nobody", "Quiet Sessions", 4800))).unwrap();
    assert_eq!((track.title.as_str(), track.sample_rate, track.len_samples), ("Silent Night", 48000, Some(4800)));
    let track = Track::open(Cursor::new(silence_opus(50, &[("TITLE", "Hush")]))).unwrap();
    assert_eq!((track.title.as_str(), track.sample_rate, track.len_samples), ("Hush", 48000, Some(50 * 960 - 312)));
    let mut samples = track.samples;
    assert_eq!(samples.seek_samples(4000), Some(4000));
    assert!(Track::open(Cursor::new(b"fLaC and so on".to_vec())).is_none());
    assert!(Track::open(Cursor::new(b"RI".to_vec())).is_none());
}

#[test]
fn skipping_past_the_end_says_how_far_it_got() {
    let mut inp = Skippable(Cursor::new(vec![1, 2, 3, 4, 5]));
    assert_eq!(inp.skip(2), 2);
    assert_eq!(inp.read(1).unwrap(), [3]);
    assert_eq!(inp.skip(10), 2);
    assert_eq!(inp.read(1).unwrap(), Vec::<u8>::new());
}

#[test]
fn windows_end_where_they_should() {
    let window: TakeExact<Skippable<Cursor>> = Skippable(Cursor::new(vec![1, 2, 3, 4, 5, 6])).take_exact(4);
    let mut window = window;
    assert_eq!(window.read(2).unwrap(), [1, 2]);
    let (skipped, mut rest) = window.skip_rest();
    assert_eq!(skipped, 2);
    assert_eq!(rest.read(9).unwrap(), [5, 6]);
    let mut window: Take<Skippable<Cursor>> = Skippable(Cursor::new(vec![1, 2, 3, 4])).take(3);
    assert_eq!(window.read(9).unwrap(), [1, 2, 3]);
    assert_eq!(window.skip_rest(), 0);
    let mut short = Skippable(Cursor::new(vec![1, 2, 3]));
    assert_eq!(short.read_u16_le(), Some(0x0201));
    assert_eq!(short.read_u32_le(), None);
}

#[test]
fn a_cursor_can_be_moved_anywhere() {
    let mut inp = Cursor::new(vec![9, 8, 7]);
    assert_eq!(inp.stream_len(), 3);
    inp.seek(2);
    assert_eq!((inp.stream_position(), inp.read(5).unwrap()), (2, vec![7]));
    inp.seek(100);
    assert_eq!(inp.read(1).unwrap(), Vec::<u8>::new());
}

#[test]
fn tags_carry_their_kind() {
    let tag = Tag::new(TagKind::Genre, "Ambient".to_string());
    assert!(matches!(tag, Tag::Genre(ref s) if s == "Ambient"));
}
