use phonoscule::io::{Cursor, Skippable};
use phonoscule::plumbing::{FastForward, Source};
use phonoscule::sample::{FormatReader, MultiReader, PcmF32Le, PcmS16Le, PcmS24Le, PcmS32Le, PcmU8, Stereo, ToS16};

/// Every input sample format reduces to the expected 16-bit value.
#[test]
fn to_s16_conversions() {
    assert_eq!(PcmS16Le::new(12_345).to_s16().get(), 12_345);
    // 8-bit is unsigned, centered on 128 and widened to 16-bit.
    assert_eq!(PcmU8([128]).to_s16().get(), 0);
    assert_eq!(PcmU8([255]).to_s16().get(), 127 << 8);
    assert_eq!(PcmU8([0]).to_s16().get(), -32768);
    // 24- and 32-bit keep the high two little-endian bytes (0x123456 / 0x12345678 -> 0x1234).
    assert_eq!(PcmS24Le([0x56, 0x34, 0x12]).to_s16().get(), 0x1234);
    assert_eq!(PcmS32Le([0x78, 0x56, 0x34, 0x12]).to_s16().get(), 0x1234);
    // Float scales [-1, 1] to full range and clamps beyond it.
    assert_eq!(PcmF32Le(1.0f32.to_le_bytes()).to_s16().get(), i16::MAX);
    assert_eq!(PcmF32Le((-1.0f32).to_le_bytes()).to_s16().get(), -i16::MAX);
    assert_eq!(PcmF32Le(0.0f32.to_le_bytes()).to_s16().get(), 0);
    assert_eq!(PcmF32Le(2.0f32.to_le_bytes()).to_s16().get(), i16::MAX);
}

/// Float samples come out as the hardware would scale, clamp and truncate them.
#[test]
fn float_samples_are_what_floating_point_makes_of_them() {
    let mut values = vec![0.5f32, -0.5, 0.25, 0.1, -0.1, 0.999_99, -0.999_99, 1e-5, -1e-5, 3.05e-5, 1e-40, -1e-40, 1e30, -1e30];
    values.extend([f32::INFINITY, f32::NEG_INFINITY, f32::NAN, f32::MIN_POSITIVE, -0.0]);
    let mut x = 0x1234_5678u32;
    for _ in 0..5000 {
        x = x.wrapping_mul(1_664_525).wrapping_add(1_013_904_223);
        values.push(f32::from_bits(x));
        values.push((x as i32) as f32 / 2_147_483_648.0);
    }
    for v in values {
        let expected = (v.clamp(-1.0, 1.0) * i16::MAX as f32) as i16;
        assert_eq!(PcmF32Le(v.to_le_bytes()).to_s16().get(), expected, "{v:?} {:#x}", v.to_bits());
    }
}

/// Reads a whole [`MultiReader`] over `bytes` to interleaved S16 (left, right) pairs.
fn decode(reader: MultiReader<Skippable<Cursor>>) -> Vec<(i16, i16)> {
    let mut reader = reader;
    let mut out = Vec::new();
    loop {
        let mut buf = [Stereo { left: PcmS16Le::new(0), right: PcmS16Le::new(0) }; 8];
        let n = reader.read_samples(&mut buf).unwrap();
        if n == 0 {
            break;
        }
        out.extend(buf[..n].iter().map(|s| (s.left().get(), s.right().get())));
    }
    out
}

fn reader(bytes: &[u8]) -> Skippable<Cursor> {
    Skippable(Cursor::new(bytes.to_vec()))
}

/// A mono stream duplicates each sample into both output channels.
#[test]
fn mono_duplicates_to_both_channels() {
    let data = [1000i16, -2000, 3000].iter().flat_map(|s| s.to_le_bytes()).collect::<Vec<_>>();
    let out = decode(MultiReader::MonoS16(FormatReader::new(reader(&data))));
    assert_eq!(out, [(1000, 1000), (-2000, -2000), (3000, 3000)]);
}

/// A stereo 24-bit stream keeps left/right distinct and truncates to 16-bit.
#[test]
fn stereo_s24_reads_both_channels() {
    // Two frames, each L then R as little-endian 24-bit; the high two bytes survive to S16.
    let data: Vec<u8> = vec![0x56, 0x34, 0x12, 0x21, 0x43, 0x65, 0x80, 0x00, 0x00, 0x7f, 0xff, 0xff];
    let out = decode(MultiReader::StereoS24(FormatReader::new(reader(&data))));
    assert_eq!(out, [(0x1234, 0x6543), (0, -1)]);
}

/// A trailing part of a frame is no frame.
#[test]
fn a_partial_frame_is_dropped() {
    let out = decode(MultiReader::StereoS16(FormatReader::new(reader(&[1, 0, 2, 0, 3, 0]))));
    assert_eq!(out, [(1, 2)]);
}

#[test]
fn fast_forward_skips_frames() {
    let data: Vec<u8> = (0..10u8).flat_map(|i| [i, 0, i, 0]).collect();
    let mut r = MultiReader::StereoS16(FormatReader::new(reader(&data)));
    assert_eq!(r.fast_forward(4).unwrap(), 4);
    assert_eq!(decode(r)[0], (4, 4));
}
