use phonoscule::io::{Cursor, Read, Skippable};
use phonoscule::metadata::Tag;
use phonoscule::pcm::{AsStored, ConvertPcm, PcmReader, ReadPcm, Samples};
use phonoscule::wav_stream::WavStream;

fn chunk(id: &[u8; 4], body: &[u8]) -> Vec<u8> {
    let mut out = id.to_vec();
    out.extend((body.len() as u32).to_le_bytes());
    out.extend(body);
    if body.len() % 2 == 1 {
        out.push(0);
    }
    out
}

fn file(bits: u16, channels: u16, data: &[u8]) -> Vec<u8> {
    let mut fmt = Vec::new();
    fmt.extend(1u16.to_le_bytes());
    fmt.extend(channels.to_le_bytes());
    fmt.extend(48000u32.to_le_bytes());
    fmt.extend(0u32.to_le_bytes());
    fmt.extend((channels * bits / 8).to_le_bytes());
    fmt.extend(bits.to_le_bytes());
    let list = [&b"INFO"[..], &chunk(b"INAM", b"Name\0"), &chunk(b"IGNR", b"Kind\0"), &chunk(b"IART", b"Who\0")].concat();
    let body = [&b"WAVE"[..], &chunk(b"fmt ", &fmt), &chunk(b"LIST", &list), &chunk(b"data", data)].concat();
    chunk(b"RIFF", &body)
}

#[test]
fn a_stream_gives_its_samples_one_by_one() {
    let data: Vec<u8> = [1i16, -1, 300, -300].iter().flat_map(|v| v.to_le_bytes()).collect();
    let mut wav = WavStream::parse(Skippable(Cursor::new(file(16, 2, &data)))).unwrap();
    let named: Vec<&str> = wav
        .metadata
        .iter()
        .map(|t| match t {
            Tag::Title(s) | Tag::Artist(s) | Tag::Album(s) => s.as_str(),
            _ => panic!("only names are kept"),
        })
        .collect();
    assert_eq!(named, ["Name", "Who"]);
    let Samples::StereoS16(mut reader) = wav.format_samples().unwrap();
    assert_eq!(PcmReader::<_, AsStored>::next::<[i16; 2]>(&mut reader), Some([1, -1]));
    assert_eq!(reader.next::<[i16; 2]>(), Some([300, -300]));
    assert_eq!(reader.next::<[i16; 2]>(), None);
}

#[test]
fn samples_are_converted_as_they_are_read() {
    let data: Vec<u8> = [5i16, 6].iter().flat_map(|v| v.to_le_bytes()).collect();
    let mut wav = WavStream::parse(Skippable(Cursor::new(file(16, 2, &data)))).unwrap();
    let mut reader = wav.format_samples().unwrap().convert();
    assert_eq!(reader.next::<[i16; 2]>(), Some([5, 6]));
    assert_eq!(reader.next::<[i16; 2]>(), None);
    assert_eq!(<[i16; 2] as ConvertPcm<[i16; 2]>>::convert_from([1, 2]), [1, 2]);
}

#[test]
fn other_formats_are_not_read_one_by_one() {
    let mut wav = WavStream::parse(Skippable(Cursor::new(file(24, 2, &[1, 2, 3, 4, 5, 6])))).unwrap();
    assert!(wav.format_samples().is_none());
    assert_eq!(wav.format.bits_per_sample, 24, "the stream is still there");
    assert_eq!(wav.data.read(8).unwrap(), [1, 2, 3, 4, 5, 6], "and nothing of it has been read");
    assert!(WavStream::parse(Skippable(Cursor::new(b"not a wav".to_vec()))).is_none());
}

#[test]
fn samples_can_be_asked_for_again() {
    let data: Vec<u8> = [5i16, 6, 7, 8].iter().flat_map(|v| v.to_le_bytes()).collect();
    let mut wav = WavStream::parse(Skippable(Cursor::new(file(16, 2, &data)))).unwrap();
    assert_eq!(wav.format_samples().unwrap().convert().next::<[i16; 2]>(), Some([5, 6]));
    assert_eq!(wav.format_samples().unwrap().convert().next::<[i16; 2]>(), Some([7, 8]), "it goes on from there");
}

/// The tags of a stream are handed out whole, however long they are.
#[test]
fn long_tags_of_a_stream_are_kept_whole() {
    let title = "long title ".repeat(60);
    let fmt: Vec<u8> = [1u16, 2, 48000, 0, 0, 0, 4, 16].iter().flat_map(|v| v.to_le_bytes()).collect();
    let list = [&b"INFO"[..], &chunk(b"INAM", title.as_bytes()), &chunk(b"IART", &[0xff; 400])].concat();
    let body = [&b"WAVE"[..], &chunk(b"fmt ", &fmt), &chunk(b"LIST", &list), &chunk(b"data", &[0; 4])].concat();
    let wav = WavStream::parse(Skippable(Cursor::new(chunk(b"RIFF", &body)))).unwrap();
    assert!(matches!(&wav.metadata[0], Tag::Title(s) if *s == title), "{} bytes", title.len());
    assert!(matches!(&wav.metadata[1], Tag::Artist(s) if *s == "\u{fffd}".repeat(400)));
}

#[test]
fn a_partial_sample_ends_the_stream() {
    let mut inp = Cursor::new(vec![1, 0, 2]);
    assert_eq!(<[i16; 2]>::collect(&mut inp), None);
}
