//! Cover art: the sizes it is decoded to, the cache of thumbnails, and the colors of an image.

use crate::hires::Pixels;
use crate::library::Rgb;
use std::sync::Arc;
use vstd::prelude::*;

verus! {

/// Cover thumbnails are downscaled to fit this square (center-cropped, like the iPod did). Sized
/// for the library grid; the now-playing view decodes a higher-resolution version on demand.
pub const THUMB: u32 = 320;

/// The higher-resolution edge the now-playing cover flow decodes on demand, for the focused covers when
/// the window is run full-screen.
pub const FULL: u32 = 900;

/// Number of bytes in a cached thumbnail: [`THUMB`]² RGB.
pub const THUMB_RGB_LEN: usize = 307_200;

/// The character of a hexadecimal digit.
pub open spec fn hex_digit(d: int) -> char {
    if d == 10 {
        'a'
    } else if d == 11 {
        'b'
    } else if d == 12 {
        'c'
    } else if d == 13 {
        'd'
    } else if d == 14 {
        'e'
    } else if d >= 15 {
        'f'
    } else {
        crate::text::digit(d)
    }
}

/// The last `width` hexadecimal digits of a number.
pub open spec fn hex(n: nat, width: nat) -> Seq<char>
    decreases width,
{
    if width == 0 {
        Seq::empty()
    } else {
        hex(n / 16, (width - 1) as nat).push(hex_digit((n % 16) as int))
    }
}

fn hex_char(d: u64) -> (c: char)
    requires
        d < 16,
    ensures
        c == hex_digit(d as int),
{
    match d {
        0 => '0',
        1 => '1',
        2 => '2',
        3 => '3',
        4 => '4',
        5 => '5',
        6 => '6',
        7 => '7',
        8 => '8',
        9 => '9',
        10 => 'a',
        11 => 'b',
        12 => 'c',
        13 => 'd',
        14 => 'e',
        _ => 'f',
    }
}

fn push_hex(s: &mut String, n: u64, width: u8)
    ensures
        final(s)@ == old(s)@ + hex(n as nat, width as nat),
    decreases width,
{
    if width > 0 {
        push_hex(s, n / 16, width - 1);
        s.push(hex_char(n % 16));
    }
    assert(s@ =~= old(s)@ + hex(n as nat, width as nat));
}

/// The name of a cover's file in the thumbnail cache: its id, as sixteen hexadecimal digits.
pub fn thumb_name(id: u64) -> (name: String)
    ensures
        name@ == hex(id as nat, 16),
{
    let mut name: String = String::new();
    push_hex(&mut name, id, 16);
    assert(name@ =~= hex(id as nat, 16));
    name
}

/// The numbers that some hexadecimal digits can tell apart.
pub open spec fn hex_range(width: nat) -> nat
    decreases width,
{
    if width == 0 {
        1
    } else {
        16 * hex_range((width - 1) as nat)
    }
}

proof fn lemma_hex(a: nat, b: nat, width: nat)
    requires
        a < hex_range(width),
        b < hex_range(width),
        hex(a, width) == hex(b, width),
    ensures
        a == b,
    decreases width,
{
    if width > 0 {
        let w = (width - 1) as nat;
        let x = hex(a / 16, w);
        let y = hex(b / 16, w);
        let da = hex_digit((a % 16) as int);
        let db = hex_digit((b % 16) as int);
        assert(x.push(da).last() == da && y.push(db).last() == db);
        assert(a % 16 == b % 16);
        assert(x.push(da).drop_last() =~= x);
        assert(y.push(db).drop_last() =~= y);
        lemma_hex(a / 16, b / 16, w);
        assert(a == 16 * (a / 16) + a % 16);
        assert(b == 16 * (b / 16) + b % 16);
    }
}

/// Covers of different ids have different files in the thumbnail cache.
pub proof fn law_each_cover_has_its_own_file(a: u64, b: u64)
    requires
        a != b,
    ensures
        hex(a as nat, 16) != hex(b as nat, 16),
{
    reveal_with_fuel(hex_range, 17);
    assert(hex_range(16) == 0x1_0000_0000_0000_0000);
    if hex(a as nat, 16) == hex(b as nat, 16) {
        lemma_hex(a as nat, b as nat, 16);
    }
}

/// What a cover's thumbnail is made of.
#[derive(Debug)]
pub enum Thumbnail {
    /// The cached pixels: packed RGB, [`THUMB`]².
    Cached(Vec<u8>),
    /// Nothing usable is cached: the image itself is to be decoded.
    Decode,
}

/// Decides what a cover's thumbnail is made of, given what its file in the cache holds. A file of any
/// other length than a thumbnail's was written otherwise, and is not used.
pub fn thumbnail(cached: Option<Vec<u8>>) -> (t: Thumbnail)
    ensures
        match t {
            Thumbnail::Cached(rgb) => cached == Some(rgb) && rgb@.len() == THUMB_RGB_LEN,
            Thumbnail::Decode => cached matches Some(rgb) ==> rgb@.len() != THUMB_RGB_LEN,
        },
{
    match cached {
        Some(rgb) => if rgb.len() == THUMB_RGB_LEN {
            Thumbnail::Cached(rgb)
        } else {
            Thumbnail::Decode
        },
        None => Thumbnail::Decode,
    }
}

/// The width and the height that an image file states, in the format that its extension tells; `None` where it
/// states none.
pub uninterp spec fn dimensions_of(file: Seq<char>, bytes: Seq<u8>) -> Option<(u32, u32)>;

/// `image::ImageReader::into_dimensions`, in the format of `ImageFormat::from_path`. The claim names what it
/// finds, by the file's name and its bytes alone. The crate lists as a known issue that decoders may panic on
/// bytes made for it, which no condition on them can rule out.
#[verifier::external_body]
fn image_dimensions(file: &str, bytes: &[u8]) -> (dimensions: Option<(u32, u32)>)
    ensures
        dimensions == dimensions_of(file@, bytes@),
{
    let format = image::ImageFormat::from_path(file).ok()?;
    image::ImageReader::with_format(std::io::Cursor::new(bytes), format).into_dimensions().ok()
}

/// The longest side of an image that is scaled: up to here, a pixel's place between others can be told in the
/// precision that scaling computes in.
pub const MAX_SIDE: u32 = 0x10_0000;

/// Whether an image of the given width and height can be scaled to fill a square with the given edge: neither
/// side is missing or too long, the long one can still be counted when the short one fills the edge, and what
/// is held on the way can be addressed, at sixteen bytes a pixel.
pub open spec fn can_be_scaled(w: u32, h: u32, edge: u32) -> bool {
    let long = if w < h {
        h as int
    } else {
        w as int
    };
    let short = if w < h {
        w as int
    } else {
        h as int
    };
    &&& 0 < short
    &&& long <= MAX_SIDE
    &&& edge * long <= u32::MAX * short
    &&& 16 * (edge * long + short) <= isize::MAX
    &&& 16 * edge * (edge * long / short + 1) <= isize::MAX
}

/// Whether an image of the given width and height can be scaled to fill a square with the given edge.
pub fn is_scalable(w: u32, h: u32, edge: u32) -> (r: bool)
    ensures
        r == can_be_scaled(w, h, edge),
{
    let (long, short): (u32, u32) = if w < h {
        (h, w)
    } else {
        (w, h)
    };
    if short == 0 || long > MAX_SIDE {
        return false;
    }
    assert(edge * long <= u32::MAX * MAX_SIDE) by (nonlinear_arith)
        requires
            edge <= u32::MAX,
            long <= MAX_SIDE,
    ;
    assert(u32::MAX * short <= u32::MAX * u32::MAX) by (nonlinear_arith)
        requires
            short <= u32::MAX,
    ;
    let scaled: u128 = edge as u128 * long as u128;
    if scaled > u32::MAX as u128 * short as u128 {
        return false;
    }
    let side: u128 = scaled / short as u128 + 1;
    assert(side <= u32::MAX + 1) by (nonlinear_arith)
        requires
            side == scaled as int / short as int + 1,
            scaled <= u32::MAX * short,
            short > 0,
    ;
    assert(16 * edge * side <= 16 * u32::MAX * (u32::MAX + 1)) by (nonlinear_arith)
        requires
            0 <= edge <= u32::MAX,
            0 <= side <= u32::MAX + 1,
    ;
    assert(16 * edge as int * side == (16 * edge) * side);
    16 * (scaled + short as u128) <= isize::MAX as u128 && 16 * edge as u128 * side <= isize::MAX as u128
}

/// The packed RGB pixels that an image may come to when it is decoded, in the format that its file's
/// extension tells, and downscaled to a square with the given edge, center-cropped. Decoding and scaling
/// compute in ways that the machine has a say in, so that a pixel may differ from one to another: hence a
/// set. It is empty where the bytes are no such image.
pub uninterp spec fn rgb_pictures(file: Seq<char>, bytes: Seq<u8>, edge: u32) -> Set<Seq<u8>>;

/// The same with an alpha channel: packed RGBA.
pub uninterp spec fn rgba_pictures(file: Seq<char>, bytes: Seq<u8>, edge: u32) -> Set<Seq<u8>>;

/// The file states the size of an image that can be scaled to fill a square with the given edge.
pub open spec fn states_a_scalable_size(file: Seq<char>, bytes: Seq<u8>, edge: u32) -> bool {
    dimensions_of(file, bytes) matches Some((w, h)) && can_be_scaled(w, h, edge)
}

/// `image::load_from_memory_with_format`, in the format of `ImageFormat::from_path`, then
/// `DynamicImage::resize_to_fill` and `DynamicImage::into_rgb8`. The claim is that the pixels are ones that
/// the image may come to, that they make up the square, and that there are none where it cannot be decoded.
/// An image of a size that scaling panics on is left out. The crate lists as a known issue that decoders may
/// panic on bytes made for it, which no condition on them can rule out.
#[verifier::external_body]
fn decode_rgb(file: &str, bytes: &[u8], edge: u32) -> (rgb: Option<Vec<u8>>)
    requires
        edge > 0,
        states_a_scalable_size(file@, bytes@, edge),
    ensures
        match rgb {
            Some(rgb) => rgb_pictures(file@, bytes@, edge).contains(rgb@) && rgb@.len() == 3 * edge * edge,
            None => forall|p: Seq<u8>| !rgb_pictures(file@, bytes@, edge).contains(p),
        },
{
    let format = image::ImageFormat::from_path(file).ok()?;
    let img = image::load_from_memory_with_format(bytes, format).ok()?;
    Some(img.resize_to_fill(edge, edge, image::imageops::FilterType::Triangle).into_rgb8().into_raw())
}

/// `image::load_from_memory_with_format`, in the format of `ImageFormat::from_path`, then
/// `DynamicImage::resize_to_fill` and `DynamicImage::into_rgba8`. The claim is that the pixels are ones that
/// the image may come to, that they make up the square, and that there are none where it cannot be decoded.
/// An image of a size that scaling panics on is left out. The crate lists as a known issue that decoders may
/// panic on bytes made for it, which no condition on them can rule out.
#[verifier::external_body]
fn decode_rgba(file: &str, bytes: &[u8], edge: u32) -> (rgba: Option<Vec<u8>>)
    requires
        edge > 0,
        states_a_scalable_size(file@, bytes@, edge),
    ensures
        match rgba {
            Some(rgba) => rgba_pictures(file@, bytes@, edge).contains(rgba@) && rgba@.len() == 4 * edge * edge,
            None => forall|p: Seq<u8>| !rgba_pictures(file@, bytes@, edge).contains(p),
        },
{
    let format = image::ImageFormat::from_path(file).ok()?;
    let img = image::load_from_memory_with_format(bytes, format).ok()?;
    Some(img.resize_to_fill(edge, edge, image::imageops::FilterType::Triangle).into_rgba8().into_raw())
}

/// Whether the file states the size of an image that can be scaled to fill a square with the given edge.
fn has_scalable_size(file: &str, bytes: &[u8], edge: u32) -> (r: bool)
    ensures
        r == states_a_scalable_size(file@, bytes@, edge),
{
    match image_dimensions(file, bytes) {
        Some((w, h)) => is_scalable(w, h, edge),
        None => false,
    }
}

/// Decodes an image file and downscales it to [`THUMB`]² RGB, center-cropped to a square. `None` where it
/// is no image, or none that can be scaled.
pub fn decode_thumbnail(file: &str, bytes: &[u8]) -> (rgb: Option<Vec<u8>>)
    ensures
        if states_a_scalable_size(file@, bytes@, THUMB) {
            match rgb {
                Some(rgb) => rgb_pictures(file@, bytes@, THUMB).contains(rgb@) && rgb@.len() == THUMB_RGB_LEN,
                None => forall|p: Seq<u8>| !rgb_pictures(file@, bytes@, THUMB).contains(p),
            }
        } else {
            rgb is None
        },
{
    if has_scalable_size(file, bytes, THUMB) {
        decode_rgb(file, bytes, THUMB)
    } else {
        None
    }
}

/// Decodes a cover to [`FULL`]² RGBA, for the now-playing view. Decoded on demand around the current track
/// and handed to the high-resolution cache, which retains a bounded, LRU-managed set of them -- so it
/// needn't scale with the library. `None` where it is no image, or none that can be scaled.
pub fn full_res(file: &str, bytes: &[u8]) -> (pixels: Option<Pixels>)
    ensures
        if states_a_scalable_size(file@, bytes@, FULL) {
            match pixels {
                Some(pixels) => {
                    &&& rgba_pictures(file@, bytes@, FULL).contains((*pixels)@)
                    &&& (*pixels)@.len() == 4 * FULL * FULL
                },
                None => forall|p: Seq<u8>| !rgba_pictures(file@, bytes@, FULL).contains(p),
            }
        } else {
            pixels is None
        },
{
    if !has_scalable_size(file, bytes, FULL) {
        return None;
    }
    match decode_rgba(file, bytes, FULL) {
        Some(rgba) => Some(Arc::new(rgba)),
        None => None,
    }
}

/// Packed RGB triplets as RGBA quartets, fully opaque.
pub open spec fn opaque_pixels(rgb: Seq<u8>) -> Seq<u8> {
    Seq::new(
        (rgb.len() / 3) * 4,
        |i: int|
            if i % 4 == 3 {
                255u8
            } else {
                rgb[(i / 4) * 3 + i % 4]
            },
    )
}

/// Expands packed RGB triplets to RGBA quartets (fully opaque).
pub fn rgb_to_rgba(rgb: &[u8]) -> (rgba: Vec<u8>)
    ensures
        rgba@ == opaque_pixels(rgb@),
{
    let mut rgba: Vec<u8> = Vec::new();
    let len: usize = rgb.len();
    let n: usize = len / 3;
    let mut k: usize = 0;
    while k < n
        invariant
            k <= n,
            len == rgb@.len(),
            n == rgb@.len() / 3,
            rgba@.len() == k * 4,
            forall|i: int| 0 <= i < k * 4 ==> #[trigger] rgba@[i] == opaque_pixels(rgb@)[i],
        decreases n - k,
    {
        let ghost before = rgba@;
        let at: usize = k * 3;
        rgba.push(rgb[at]);
        rgba.push(rgb[at + 1]);
        rgba.push(rgb[at + 2]);
        rgba.push(255u8);
        proof {
            assert forall|i: int| 0 <= i < k * 4 + 4 implies #[trigger] rgba@[i] == opaque_pixels(rgb@)[i] by {
                if i < k * 4 {
                    assert(rgba@[i] == before[i]);
                } else {
                    assert(i / 4 == k);
                    assert(i % 4 == i - k * 4);
                }
            }
        }
        k = k + 1;
    }
    assert(rgba@ =~= opaque_pixels(rgb@));
    rgba
}

/// How many pixels of a color are seen, and the sums of their channels.
#[derive(Debug, Clone, Copy, PartialEq, Eq, Structural)]
pub struct Bucket {
    pub n: u64,
    pub r: u64,
    pub g: u64,
    pub b: u64,
}

/// The number of buckets: a color space quantized to four bits per channel.
pub const BUCKETS: usize = 4096;

/// Of the pixels of an image, every seventh is looked at.
pub const STRIDE: usize = 7;

/// The bucket of a color.
pub open spec fn bucket_of(r: u8, g: u8, b: u8) -> int {
    (r as int / 16) * 256 + (g as int / 16) * 16 + b as int / 16
}

/// What one bucket holds after the first `n` of the pixels that are looked at.
pub open spec fn tally(rgb: Seq<u8>, bucket: int, n: nat) -> (int, int, int, int)
    decreases n,
{
    if n == 0 {
        (0, 0, 0, 0)
    } else {
        let before = tally(rgb, bucket, (n - 1) as nat);
        let at = (n - 1) * 21;
        if bucket_of(rgb[at], rgb[at + 1], rgb[at + 2]) == bucket {
            (before.0 + 1, before.1 + rgb[at], before.2 + rgb[at + 1], before.3 + rgb[at + 2])
        } else {
            before
        }
    }
}

/// How many pixels of an image are looked at.
pub open spec fn sampled(len: nat) -> nat {
    (len / 3 + 6) / 7
}

/// How many pixels of an image with the given number of bytes are looked at.
pub fn samples(len: usize) -> (n: usize)
    ensures
        n == sampled(len as nat),
{
    let pixels: usize = len / 3;
    pixels / STRIDE + (if pixels % STRIDE > 0 {
        1
    } else {
        0
    })
}

/// The bucket's sums are those of the image.
pub open spec fn holds(bucket: Bucket, rgb: Seq<u8>, i: int, n: nat) -> bool {
    (bucket.n as int, bucket.r as int, bucket.g as int, bucket.b as int) == tally(rgb, i, n)
}

proof fn lemma_tally(rgb: Seq<u8>, i: int, n: nat)
    ensures
        ({
            let t = tally(rgb, i, n);
            &&& 0 <= t.0 <= n
            &&& 0 <= t.1 <= 255 * t.0
            &&& 0 <= t.2 <= 255 * t.0
            &&& 0 <= t.3 <= 255 * t.0
        }),
    decreases n,
{
    if n > 0 {
        lemma_tally(rgb, i, (n - 1) as nat);
    }
}

/// The histogram of an image's colors, accumulating exact sums per bucket so that a bucket keeps its true
/// shade. The sums of an image of more bytes than an exbibyte would not fit.
pub fn histogram(rgb: &[u8]) -> (buckets: Vec<Bucket>)
    requires
        rgb@.len() <= 0x1000_0000_0000_0000,
    ensures
        buckets@.len() == BUCKETS,
        forall|i: int| 0 <= i < BUCKETS ==> holds(#[trigger] buckets@[i], rgb@, i, sampled(rgb@.len())),
{
    let mut buckets: Vec<Bucket> = Vec::new();
    while buckets.len() < BUCKETS
        invariant
            buckets.len() <= BUCKETS,
            forall|i: int| 0 <= i < buckets@.len() ==> holds(#[trigger] buckets@[i], rgb@, i, 0),
        decreases BUCKETS - buckets.len(),
    {
        buckets.push(Bucket { n: 0, r: 0, g: 0, b: 0 });
    }
    let len: usize = rgb.len();
    let total: usize = samples(len);
    let mut n: usize = 0;
    while n < total
        invariant
            n <= total,
            len == rgb@.len(),
            total == sampled(rgb@.len()),
            rgb@.len() <= 0x1000_0000_0000_0000,
            buckets@.len() == BUCKETS,
            forall|i: int| 0 <= i < BUCKETS ==> holds(#[trigger] buckets@[i], rgb@, i, n as nat),
        decreases total - n,
    {
        assert(n * 21 + 2 < rgb@.len());
        let at: usize = n * 21;
        let r: u8 = rgb[at];
        let g: u8 = rgb[at + 1];
        let b: u8 = rgb[at + 2];
        let ix: usize = (r as usize / 16) * 256 + (g as usize / 16) * 16 + b as usize / 16;
        assert(ix == bucket_of(r, g, b));
        assert(ix < BUCKETS);
        let ghost before = buckets@;
        let old: Bucket = buckets[ix];
        assert(holds(old, rgb@, ix as int, n as nat));
        proof {
            lemma_tally(rgb@, ix as int, n as nat);
        }
        buckets.set(ix, Bucket { n: old.n + 1, r: old.r + r as u64, g: old.g + g as u64, b: old.b + b as u64 });
        proof {
            assert forall|i: int| 0 <= i < BUCKETS implies holds(#[trigger] buckets@[i], rgb@, i, (n + 1) as nat) by {
                assert(holds(before[i], rgb@, i, n as nat));
            }
        }
        n = n + 1;
    }
    buckets
}

/// A bucket's sums are those of as many colors as it says.
pub open spec fn is_bucket(bucket: Bucket) -> bool {
    bucket.r <= 255 * bucket.n && bucket.g <= 255 * bucket.n && bucket.b <= 255 * bucket.n
}

/// The buckets of a histogram are such.
pub proof fn law_histograms_are_of_colors(rgb: Seq<u8>, i: int, n: nat, bucket: Bucket)
    requires
        holds(bucket, rgb, i, n),
    ensures
        is_bucket(bucket),
        bucket.n <= n,
{
    lemma_tally(rgb, i, n);
}

/// A vivid color counts only where it covers about a thousandth of the art: noise on a dark cover yields
/// lone pixels of full chroma.
pub fn is_common(bucket: &Bucket, samples: u64) -> (r: bool)
    ensures
        r == (bucket.n * 1000 >= samples),
{
    bucket.n as u128 * 1000 >= samples as u128
}

/// The shade of a bucket: the mean of its colors, rounded down. Black for an empty one.
pub open spec fn mean(bucket: Bucket) -> Rgb {
    if bucket.n == 0 {
        Rgb { r: 0, g: 0, b: 0 }
    } else {
        Rgb {
            r: (bucket.r as int / bucket.n as int) as u8,
            g: (bucket.g as int / bucket.n as int) as u8,
            b: (bucket.b as int / bucket.n as int) as u8,
        }
    }
}

proof fn lemma_mean(sum: int, n: int)
    requires
        n > 0,
        0 <= sum <= 255 * n,
    ensures
        0 <= sum / n <= 255,
{
    assert(0 <= sum / n <= 255) by (nonlinear_arith)
        requires
            n > 0,
            0 <= sum <= 255 * n,
    ;
}

/// The shade of a bucket.
pub fn shade(bucket: &Bucket) -> (color: Rgb)
    requires
        is_bucket(*bucket),
    ensures
        color == mean(*bucket),
{
    if bucket.n == 0 {
        return Rgb { r: 0, g: 0, b: 0 };
    }
    proof {
        lemma_mean(bucket.r as int, bucket.n as int);
        lemma_mean(bucket.g as int, bucket.n as int);
        lemma_mean(bucket.b as int, bucket.n as int);
    }
    Rgb { r: (bucket.r / bucket.n) as u8, g: (bucket.g / bucket.n) as u8, b: (bucket.b / bucket.n) as u8 }
}

/// The accent color of an image, given the bucket that was found to be its most distinct: that bucket's
/// shade, or black where there is none.
pub fn accent_color(buckets: &Vec<Bucket>, best: Option<usize>) -> (color: Rgb)
    requires
        forall|i: int| 0 <= i < buckets@.len() ==> is_bucket(#[trigger] buckets@[i]),
    ensures
        color == match best {
            Some(ix) if ix < buckets@.len() => mean(buckets@[ix as int]),
            _ => Rgb { r: 0, g: 0, b: 0 },
        },
{
    match best {
        Some(ix) => if ix < buckets.len() {
            shade(&buckets[ix])
        } else {
            Rgb { r: 0, g: 0, b: 0 }
        },
        None => Rgb { r: 0, g: 0, b: 0 },
    }
}

/// Each pixel keeps its three colors, and is opaque.
pub proof fn law_pixels_keep_their_colors(rgb: Seq<u8>, p: int)
    requires
        0 <= p,
        3 * p + 3 <= rgb.len(),
    ensures
        ({
            let rgba = opaque_pixels(rgb);
            &&& 4 * p + 4 <= rgba.len()
            &&& rgba[4 * p] == rgb[3 * p]
            &&& rgba[4 * p + 1] == rgb[3 * p + 1]
            &&& rgba[4 * p + 2] == rgb[3 * p + 2]
            &&& rgba[4 * p + 3] == 255
        }),
        opaque_pixels(rgb).len() == 4 * (rgb.len() / 3),
{
    assert((4 * p) / 4 == p && (4 * p) % 4 == 0);
    assert((4 * p + 1) / 4 == p && (4 * p + 1) % 4 == 1);
    assert((4 * p + 2) / 4 == p && (4 * p + 2) % 4 == 2);
    assert((4 * p + 3) % 4 == 3);
}

/// A number in hexadecimal is written digit by digit, the highest first.
pub proof fn law_hexadecimal_goes_by_sixteens(n: nat, d: nat, width: nat)
    requires
        d < 16,
    ensures
        hex(16 * n + d, width + 1) == hex(n, width).push(
            seq!['0', '1', '2', '3', '4', '5', '6', '7', '8', '9', 'a', 'b', 'c', 'd', 'e', 'f'][d as int],
        ),
        hex(n, width).len() == width,
    decreases width,
{
    assert((16 * n + d) / 16 == n && (16 * n + d) % 16 == d);
    if width > 0 {
        law_hexadecimal_goes_by_sixteens(n / 16, 0, (width - 1) as nat);
    }
}

/// The shade of a bucket is the mean of the colors in it, to the next lower step.
pub proof fn law_a_shade_is_a_mean(bucket: Bucket)
    requires
        is_bucket(bucket),
        bucket.n > 0,
    ensures
        mean(bucket).r * bucket.n <= bucket.r < (mean(bucket).r + 1) * bucket.n,
        mean(bucket).g * bucket.n <= bucket.g < (mean(bucket).g + 1) * bucket.n,
        mean(bucket).b * bucket.n <= bucket.b < (mean(bucket).b + 1) * bucket.n,
{
    lemma_mean_bounds(bucket.r as int, bucket.n as int);
    lemma_mean_bounds(bucket.g as int, bucket.n as int);
    lemma_mean_bounds(bucket.b as int, bucket.n as int);
}

proof fn lemma_mean_bounds(sum: int, n: int)
    requires
        n > 0,
        0 <= sum <= 255 * n,
    ensures
        0 <= sum / n <= 255,
        (sum / n) * n <= sum < (sum / n + 1) * n,
{
    lemma_mean(sum, n);
    assert((sum / n) * n <= sum < (sum / n + 1) * n) by (nonlinear_arith)
        requires
            n > 0,
            0 <= sum,
    ;
}

/// A color counts into the bucket of those that it shares the upper half of each channel with: two colors are in
/// one bucket where they do, and only there.
pub proof fn law_buckets_are_of_like_colors(a: Rgb, b: Rgb)
    ensures
        0 <= bucket_of(a.r, a.g, a.b) < 4096,
        bucket_of(a.r, a.g, a.b) == bucket_of(b.r, b.g, b.b) <==> a.r / 16 == b.r / 16 && a.g / 16 == b.g / 16 && a.b
            / 16 == b.b / 16,
{
}

/// Every seventh pixel is looked at, from the first on.
pub proof fn law_every_seventh_pixel_is_looked_at(len: nat)
    ensures
        7 * sampled(len) >= len / 3,
        sampled(len) > 0 ==> 7 * (sampled(len) - 1) < len / 3,
{
}

/// The histogram counts the pixels that are looked at by their colors: of an image of one color, they are all in
/// the bucket of that color, with as much of each channel as they have together, and in no other.
pub proof fn law_pixels_count_for_their_color(rgb: Seq<u8>, color: Rgb, bucket: int, n: nat)
    requires
        forall|p: int|
            0 <= p < n ==> (#[trigger] rgb[21 * p]) == color.r && rgb[21 * p + 1] == color.g && rgb[21 * p + 2] == color.b,
    ensures
        bucket == bucket_of(color.r, color.g, color.b) ==> tally(rgb, bucket, n) == (
            n as int,
            n * color.r,
            n * color.g,
            n * color.b,
        ),
        bucket != bucket_of(color.r, color.g, color.b) ==> tally(rgb, bucket, n) == (0int, 0int, 0int, 0int),
    decreases n,
{
    if n > 0 {
        let m = (n - 1) as nat;
        law_pixels_count_for_their_color(rgb, color, bucket, m);
        assert(rgb[21 * (n - 1)] == color.r);
        assert(n * color.r == m * color.r + color.r) by (nonlinear_arith)
            requires
                n == m + 1,
        ;
        assert(n * color.g == m * color.g + color.g) by (nonlinear_arith)
            requires
                n == m + 1,
        ;
        assert(n * color.b == m * color.b + color.b) by (nonlinear_arith)
            requires
                n == m + 1,
        ;
    } else {
        assert(0 * color.r == 0 && 0 * color.g == 0 && 0 * color.b == 0) by (nonlinear_arith);
    }
}

} // verus!
