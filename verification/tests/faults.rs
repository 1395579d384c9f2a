//! Streams that fail: what is read before, and that a failure is no end.

use phonoscule::io::{Cursor, Read, ReadExt, Seek, Skip, Skippable, Take};
use phonoscule::metadata::{read_text, Tag};
use phonoscule::opus::OggOpus;
use phonoscule::plumbing::{FastForward, Source};
use phonoscule::sample::{PcmS16Le, Stereo};
use phonoscule::tags::read_tags;
use phonoscule::track::Track;
use phonoscule::wav::Wav;

/// A stream that states a length, and fails behind the bytes that it has.
struct Failing {
    bytes: Cursor,
    readable: u64,
    len: u64,
    pos: u64,
}

impl Failing {
    fn new(data: &[u8], readable: usize) -> Failing {
        let bytes = Cursor::new(data[..readable].to_vec());
        Failing { bytes, readable: readable as u64, len: data.len() as u64, pos: 0 }
    }
}

impl Read for Failing {
    fn read(&mut self, n: usize) -> Option<Vec<u8>> {
        let bytes = self.bytes.read(n).unwrap();
        self.pos += bytes.len() as u64;
        if n > 0 && bytes.is_empty() && self.readable < self.len {
            None
        } else {
            Some(bytes)
        }
    }
}

impl Seek for Failing {
    fn stream_position(&mut self) -> u64 {
        self.pos
    }

    fn stream_len(&mut self) -> u64 {
        self.len
    }

    fn seek(&mut self, pos: u64) {
        self.bytes.seek(pos);
        self.pos = pos;
    }
}

type Frame = Stereo<PcmS16Le>;

fn chunk(id: &[u8; 4], body: &[u8]) -> Vec<u8> {
    let mut out = id.to_vec();
    out.extend((body.len() as u32).to_le_bytes());
    out.extend(body);
    if body.len() % 2 == 1 {
        out.push(0);
    }
    out
}

/// A file of 16-bit stereo frames that count up, with a title.
fn wav_file(n_frames: i16) -> Vec<u8> {
    let fmt: Vec<u8> = [1u16, 2, 48000, 0, 0, 0, 4, 16].iter().flat_map(|v| v.to_le_bytes()).collect();
    let list = [&b"INFO"[..], &chunk(b"INAM", b"Long enough a title")].concat();
    let data: Vec<u8> = (0..n_frames).flat_map(|i| [i, -i]).flat_map(|v| v.to_le_bytes()).collect();
    let body = [&b"WAVE"[..], &chunk(b"fmt ", &fmt), &chunk(b"LIST", &list), &chunk(b"data", &data)].concat();
    chunk(b"RIFF", &body)
}

/// A stream of stereo silence, a page for each packet of 20 ms.
fn opus_file(n_packets: usize) -> Vec<u8> {
    let mut head = b"OpusHead\x01\x02".to_vec();
    head.extend(312u16.to_le_bytes());
    head.extend(48000u32.to_le_bytes());
    head.extend([0; 3]);
    let mut tags = b"OpusTags".to_vec();
    tags.extend([0; 8]);
    let mut out = Vec::new();
    let mut writer = ogg::PacketWriter::new(std::io::Cursor::new(&mut out));
    writer.write_packet(head, 9, ogg::PacketWriteEndInfo::EndPage, 0).unwrap();
    writer.write_packet(tags, 9, ogg::PacketWriteEndInfo::EndPage, 0).unwrap();
    for i in 0..n_packets {
        let end =
            if i + 1 == n_packets { ogg::PacketWriteEndInfo::EndStream } else { ogg::PacketWriteEndInfo::EndPage };
        writer.write_packet(vec![0xfc], 9, end, (i as u64 + 1) * 960).unwrap();
    }
    drop(writer);
    out
}

fn frames(n: usize) -> Vec<Frame> {
    (0..n).map(|_| Stereo::new(PcmS16Le::new(0), PcmS16Le::new(0))).collect()
}

#[test]
fn a_failure_comes_behind_what_can_be_read() {
    let mut inp = Failing::new(b"abcdef", 4);
    assert_eq!(inp.read(3).unwrap(), b"abc");
    assert_eq!(inp.read(3).unwrap(), b"d", "less, as it fails there");
    assert!(inp.read(3).is_none());
    assert_eq!(inp.read(0).unwrap(), b"", "nothing can always be read");
    inp.seek(2);
    assert!(inp.read_up_to(3).is_none(), "it fails before");
    inp.seek(2);
    assert_eq!(inp.read_up_to(2).unwrap(), b"cd");
    inp.seek(2);
    assert!(inp.read_exact(3).is_none());
    let mut whole = Cursor::new(b"abcd".to_vec());
    assert_eq!(whole.read_up_to(9).unwrap(), b"abcd", "an end is no failure");
    assert_eq!(whole.read(9).unwrap(), b"");
}

#[test]
fn a_window_that_ends_before_does_not_fail() {
    let mut window = Failing::new(b"abcdef", 4).take(3);
    assert_eq!(window.read(9).unwrap(), b"abc");
    assert_eq!(window.read(9).unwrap(), b"", "its end");
    let mut window = Failing::new(b"abcdef", 4).take(5);
    assert_eq!(window.read(9).unwrap(), b"abcd");
    assert!(window.read(9).is_none());
    let mut inp = Skippable(Failing::new(b"abcdef", 4));
    assert_eq!(inp.skip(5), 5, "a failure shows when it is read");
    assert!(inp.read(1).is_none());
}

#[test]
fn pcm_samples_fail_with_their_stream() {
    let file = wav_file(10);
    let data = file.len() - 40;
    let open = |readable: usize| {
        let mut tags = Vec::new();
        Wav::<Take<_>>::parse(Skippable(Failing::new(&file, readable)), &mut tags).unwrap().samples
    };
    let mut buf = frames(8);
    let mut samples = open(data + 12);
    assert_eq!(samples.read_samples(&mut buf), Some(3));
    assert_eq!((buf[2].left().get(), buf[2].right().get()), (2, -2));
    assert_eq!(samples.read_samples(&mut buf), None, "an error, not the end");
    let mut samples = open(data + 14);
    assert_eq!(samples.read_samples(&mut buf), Some(3), "a part of a frame is dropped");
    assert_eq!(samples.read_samples(&mut buf), None);
    let mut samples = open(file.len());
    assert_eq!(samples.fast_forward(9), Some(9));
    assert_eq!(samples.read_samples(&mut buf), Some(1));
    assert_eq!(samples.read_samples(&mut buf), Some(0), "the end");
    let mut samples = open(data + 12);
    assert_eq!(samples.fast_forward(2), Some(2));
    assert_eq!(samples.read_samples(&mut buf), Some(1));
}

#[test]
fn opus_samples_fail_with_their_stream() {
    let file = opus_file(4);
    let page = opus_file(5).len() - file.len();
    let mut buf = frames(960);
    // Three pages, and then a failure between two of them.
    let mut opus = OggOpus::parse_seekable(Failing::new(&file, file.len() - page), &mut Vec::new()).unwrap();
    assert_eq!(opus.format.len_samples, None, "the end cannot be read");
    assert_eq!(opus.samples.read_samples(&mut buf), Some(960 - 312));
    assert_eq!(opus.samples.read_samples(&mut buf), Some(960));
    assert_eq!(opus.samples.read_samples(&mut buf), Some(960));
    assert_eq!(opus.samples.read_samples(&mut buf), None, "an error, not the end");
    assert_eq!(opus.samples.seek_samples(1000), Some(1000), "before the failure");
    assert_eq!(opus.samples.seek_samples(5000), None, "behind it");

    let mut opus = OggOpus::parse_seekable(Failing::new(&file, file.len()), &mut Vec::new()).unwrap();
    assert_eq!(opus.format.len_samples, Some(4 * 960 - 312));
    assert_eq!(opus.samples.fast_forward(4 * 960 - 312), Some(4 * 960 - 312));
    assert_eq!(opus.samples.read_samples(&mut buf), Some(0), "the end");
    let mut opus = OggOpus::parse_seekable(Failing::new(&file, file.len() - page), &mut Vec::new()).unwrap();
    assert_eq!(opus.samples.fast_forward(4 * 960 - 312), None);
}

#[test]
fn texts_and_headers_fail_with_their_stream() {
    assert!(read_text(64, 9, &mut Failing::new(b"some text", 4)).is_none());
    assert_eq!(read_text(64, 9, &mut Failing::new(b"so\0e text", 4)), Some(("so".into(), 4)), "complete before");
    assert_eq!(read_text(2, 9, &mut Failing::new(b"some text", 4)), Some(("so".into(), 4)), "full before");
    assert!(read_text(64, 9, &mut Failing::new(b"some text", 0)).is_none());
    assert_eq!(read_text(64, 9, &mut Cursor::new(b"some".to_vec())), Some(("some".into(), 4)), "an end is none");

    let file = wav_file(10);
    let mut tags: Vec<Tag> = Vec::new();
    let title = file.windows(4).position(|w| w == b"Long").unwrap();
    assert!(Wav::<Take<_>>::parse(Skippable(Failing::new(&file, title + 4)), &mut tags).is_none());
    assert!(tags.is_empty(), "what was cut off is no tag");
    for readable in [0, 3, title, file.len() - 41] {
        assert!(Track::open(Failing::new(&file, readable)).is_none(), "{readable}");
        assert!(read_tags(Failing::new(&file, readable)).is_none(), "{readable}");
    }
    assert!(Track::open(Failing::new(&file, file.len() - 40)).is_some());
}
