//! PCM samples and frames, and readers of them.
//!
//! Samples are kept as the bytes that the file holds; the reduction to the 16-bit samples that the
//! players output is applied only on the way out, sample by sample.

use crate::io::{at_most, back, front, reaches, Read, Skip};
use crate::plumbing::{FastForward, Source};
use vstd::arithmetic::power2::{lemma_pow2_strictly_increases, pow2};
use vstd::bits::lemma_u64_shr_is_div;
use vstd::prelude::*;

verus! {

/// How one sample of one channel is stored.
#[derive(Debug, Clone, Copy, PartialEq, Eq, Structural)]
pub enum Encoding {
    /// Unsigned 8-bit PCM, as WAV stores its 8-bit samples (midpoint 128).
    U8,
    S16,
    S24,
    S32,
    /// 32-bit float PCM, samples nominally in [-1, 1].
    F32,
}

/// The bytes of one sample.
pub open spec fn width_of(encoding: Encoding) -> nat {
    match encoding {
        Encoding::U8 => 1,
        Encoding::S16 => 2,
        Encoding::S24 => 3,
        Encoding::S32 => 4,
        Encoding::F32 => 4,
    }
}

/// The number that two little-endian bytes hold in two's complement.
pub open spec fn signed16(low: u8, high: u8) -> int {
    let u = low + 0x100 * high;
    if u < 0x8000 {
        u
    } else {
        u - 0x1_0000
    }
}

/// `p / d`, rounded to the nearest integer, and to the even one halfway.
pub open spec fn rounded(p: int, d: int) -> int {
    let q = p / d;
    let r = p % d;
    if 2 * r > d || (2 * r == d && q % 2 == 1) {
        q + 1
    } else {
        q
    }
}

/// The magnitude of a finite 32-bit float between 0 and 1 with biased exponent `e` and fraction `m`,
/// scaled to 16 bits: multiplied by 32767 in single precision, which keeps 24 bits and rounds to the
/// nearest, ties to even, and then cut off to an integer. A float below 2^-126 counts as nothing.
pub open spec fn scaled(e: int, m: int) -> int {
    let p = (0x80_0000 + m) * 32767;
    let k: int = if p < 0x40_0000_0000 {
        14
    } else {
        15
    };
    if e == 0 {
        0
    } else {
        rounded(p, pow2(k as nat) as int) / pow2((150 - e - k) as nat) as int
    }
}

/// What a 32-bit float with the given little-endian bytes scales to: [-1, 1] to the full range,
/// clamped beyond it, and no number to zero.
pub open spec fn float_s16(b: Seq<u8>) -> int {
    let negative = b[3] >= 0x80;
    let e = 2 * (b[3] as int % 0x80) + b[2] as int / 0x80;
    let m = b[0] + 0x100 * b[1] + 0x1_0000 * (b[2] as int % 0x80);
    let magnitude = if e == 255 && m != 0 {
        0
    } else if e >= 127 {
        32767
    } else {
        scaled(e, m)
    };
    if negative {
        -magnitude
    } else {
        magnitude
    }
}

/// The 16-bit sample that the bytes of a sample reduce to.
pub open spec fn s16_of(encoding: Encoding, b: Seq<u8>) -> int {
    match encoding {
        // Recentered around zero and widened.
        Encoding::U8 => (b[0] - 128) * 0x100,
        Encoding::S16 => signed16(b[0], b[1]),
        // The high two bytes; the low ones are cut off.
        Encoding::S24 => signed16(b[1], b[2]),
        Encoding::S32 => signed16(b[2], b[3]),
        Encoding::F32 => float_s16(b),
    }
}

#[derive(Copy, Clone, Default, Debug)]
pub struct PcmS16Le(pub [u8; 2]);

impl PcmS16Le {
    pub open spec fn value(self) -> int {
        signed16(self.0[0], self.0[1])
    }

    pub fn new(v: i16) -> (s: Self)
        ensures
            s.value() == v,
    {
        let u: u16 = if v >= 0 {
            v as u16
        } else {
            (v as i32 + 0x1_0000) as u16
        };
        PcmS16Le([(u % 0x100) as u8, (u / 0x100) as u8])
    }

    pub fn get(self) -> (v: i16)
        ensures
            v == self.value(),
    {
        let u: i32 = self.0[0] as i32 + 0x100 * self.0[1] as i32;
        if u < 0x8000 {
            u as i16
        } else {
            (u - 0x1_0000) as i16
        }
    }
}

#[derive(Copy, Clone, Default, Debug)]
pub struct PcmS24Le(pub [u8; 3]);

/// Unsigned 8-bit PCM, as WAV stores its 8-bit samples (midpoint 128).
#[derive(Copy, Clone, Default, Debug)]
pub struct PcmU8(pub [u8; 1]);

#[derive(Copy, Clone, Default, Debug)]
pub struct PcmS32Le(pub [u8; 4]);

/// 32-bit float PCM, samples nominally in [-1, 1].
#[derive(Copy, Clone, Default, Debug)]
pub struct PcmF32Le(pub [u8; 4]);

/// What a run of equally sized frames can be read as.
pub trait Frame: Copy {
    /// The bytes that a frame takes.
    spec fn frame_size() -> nat;

    /// The bytes of this frame.
    spec fn bytes(&self) -> Seq<u8>;

    fn size() -> (n: usize)
        ensures
            n == Self::frame_size(),
            0 < n <= 8,
    ;

    fn from_bytes(bytes: &[u8]) -> (frame: Self)
        requires
            bytes@.len() == Self::frame_size(),
        ensures
            frame.bytes() == bytes@,
    ;
}

/// A PCM sample scalar reducible to the 16-bit samples the players output.
pub trait ToS16: Frame + Default {
    spec fn encoding() -> Encoding;

    fn to_s16(self) -> (s: PcmS16Le)
        ensures
            s.value() == s16_of(Self::encoding(), self.bytes()),
    ;

    /// A sample takes as many bytes as its encoding does.
    proof fn lemma_width()
        ensures
            Self::frame_size() == width_of(Self::encoding()),
    ;

    /// A sample holds as many bytes as it takes.
    proof fn lemma_bytes(s: Self)
        ensures
            s.bytes().len() == Self::frame_size(),
    ;
}

impl Frame for PcmU8 {
    open spec fn frame_size() -> nat {
        1
    }

    open spec fn bytes(&self) -> Seq<u8> {
        self.0@
    }

    fn size() -> (n: usize) {
        1
    }

    fn from_bytes(bytes: &[u8]) -> (frame: Self) {
        let frame = PcmU8([bytes[0]]);
        assert(frame.bytes() =~= bytes@);
        frame
    }
}

impl Frame for PcmS16Le {
    open spec fn frame_size() -> nat {
        2
    }

    open spec fn bytes(&self) -> Seq<u8> {
        self.0@
    }

    fn size() -> (n: usize) {
        2
    }

    fn from_bytes(bytes: &[u8]) -> (frame: Self) {
        let frame = PcmS16Le([bytes[0], bytes[1]]);
        assert(frame.bytes() =~= bytes@);
        frame
    }
}

impl Frame for PcmS24Le {
    open spec fn frame_size() -> nat {
        3
    }

    open spec fn bytes(&self) -> Seq<u8> {
        self.0@
    }

    fn size() -> (n: usize) {
        3
    }

    fn from_bytes(bytes: &[u8]) -> (frame: Self) {
        let frame = PcmS24Le([bytes[0], bytes[1], bytes[2]]);
        assert(frame.bytes() =~= bytes@);
        frame
    }
}

impl Frame for PcmS32Le {
    open spec fn frame_size() -> nat {
        4
    }

    open spec fn bytes(&self) -> Seq<u8> {
        self.0@
    }

    fn size() -> (n: usize) {
        4
    }

    fn from_bytes(bytes: &[u8]) -> (frame: Self) {
        let frame = PcmS32Le([bytes[0], bytes[1], bytes[2], bytes[3]]);
        assert(frame.bytes() =~= bytes@);
        frame
    }
}

impl Frame for PcmF32Le {
    open spec fn frame_size() -> nat {
        4
    }

    open spec fn bytes(&self) -> Seq<u8> {
        self.0@
    }

    fn size() -> (n: usize) {
        4
    }

    fn from_bytes(bytes: &[u8]) -> (frame: Self) {
        let frame = PcmF32Le([bytes[0], bytes[1], bytes[2], bytes[3]]);
        assert(frame.bytes() =~= bytes@);
        frame
    }
}

impl ToS16 for PcmU8 {
    open spec fn encoding() -> Encoding {
        Encoding::U8
    }

    proof fn lemma_width() {
    }

    proof fn lemma_bytes(s: Self) {
    }

    fn to_s16(self) -> (s: PcmS16Le) {
        PcmS16Le::new((self.0[0] as i16 - 128) * 0x100)
    }
}

impl ToS16 for PcmS16Le {
    open spec fn encoding() -> Encoding {
        Encoding::S16
    }

    proof fn lemma_width() {
    }

    proof fn lemma_bytes(s: Self) {
    }

    fn to_s16(self) -> (s: PcmS16Le) {
        self
    }
}

impl ToS16 for PcmS24Le {
    open spec fn encoding() -> Encoding {
        Encoding::S24
    }

    proof fn lemma_width() {
    }

    proof fn lemma_bytes(s: Self) {
    }

    fn to_s16(self) -> (s: PcmS16Le) {
        PcmS16Le([self.0[1], self.0[2]])
    }
}

impl ToS16 for PcmS32Le {
    open spec fn encoding() -> Encoding {
        Encoding::S32
    }

    proof fn lemma_width() {
    }

    proof fn lemma_bytes(s: Self) {
    }

    fn to_s16(self) -> (s: PcmS16Le) {
        PcmS16Le([self.0[2], self.0[3]])
    }
}

impl ToS16 for PcmF32Le {
    open spec fn encoding() -> Encoding {
        Encoding::F32
    }

    proof fn lemma_width() {
    }

    proof fn lemma_bytes(s: Self) {
    }

    fn to_s16(self) -> (s: PcmS16Le) {
        let negative: bool = self.0[3] >= 0x80;
        let e: u32 = 2 * (self.0[3] % 0x80) as u32 + (self.0[2] / 0x80) as u32;
        let m: u32 = self.0[0] as u32 + 0x100 * self.0[1] as u32 + 0x1_0000 * (self.0[2] % 0x80) as u32;
        let magnitude: u16 = if e == 255 && m != 0 {
            0
        } else if e >= 127 {
            32767
        } else {
            scale(e, m)
        };
        let value: i16 = if negative {
            -(magnitude as i16)
        } else {
            magnitude as i16
        };
        PcmS16Le::new(value)
    }
}

fn scale(e: u32, m: u32) -> (magnitude: u16)
    requires
        e < 127,
        m < 0x80_0000,
    ensures
        magnitude == scaled(e as int, m as int),
        magnitude <= 32767,
{
    if e == 0 {
        return 0;
    }
    let p: u64 = (0x80_0000 + m as u64) * 32767;
    let k: u32 = if p < 0x40_0000_0000 {
        14
    } else {
        15
    };
    let d: u64 = if p < 0x40_0000_0000 {
        0x4000
    } else {
        0x8000
    };
    proof {
        vstd::arithmetic::power2::lemma2_to64();
    }
    let q: u64 = p / d;
    let r: u64 = p % d;
    let q2: u64 = if 2 * r > d || (2 * r == d && q % 2 == 1) {
        q + 1
    } else {
        q
    };
    assert(q2 == rounded(p as int, d as int));
    assert(q2 <= 0x100_0000);
    assert(k == 15 ==> q2 <= 0xFF_FE00);
    let shift: u32 = 150 - e - k;
    if shift >= 25 {
        proof {
            if shift > 25 {
                lemma_pow2_strictly_increases(25, shift as nat);
            }
            vstd::arithmetic::div_mod::lemma_basic_div(q2 as int, pow2(shift as nat) as int);
        }
        0
    } else {
        proof {
            lemma_u64_shr_is_div(q2, shift as u64);
            if shift > 10 {
                lemma_pow2_strictly_increases(10, shift as nat);
            }
            let d2 = pow2(shift as nat) as int;
            if shift == 9 {
                assert(d2 == 512);
                assert(k == 15);
                assert(q2 as int / 512 <= 32767);
            } else {
                assert(q2 as int / d2 <= 0x4000) by (nonlinear_arith)
                    requires
                        0 <= q2 <= 0x100_0000,
                        d2 >= 1024,
                ;
            }
        }
        (q2 >> shift) as u16
    }
}

/// Stereo sample in interleaved format (L1 R1 L2 R2 L3 R3 ...)
#[derive(Copy, Clone, Default, Debug)]
pub struct Stereo<Sample> {
    pub left: Sample,
    pub right: Sample,
}

impl<Sample> Stereo<Sample> {
    pub fn new(left: Sample, right: Sample) -> (s: Self)
        ensures
            s.left == left,
            s.right == right,
    {
        Stereo { left, right }
    }
}

impl<Sample: Copy> Stereo<Sample> {
    pub fn left(self) -> (s: Sample)
        ensures
            s == self.left,
    {
        self.left
    }

    pub fn right(self) -> (s: Sample)
        ensures
            s == self.right,
    {
        self.right
    }
}

impl<X: ToS16> Frame for Stereo<X> {
    open spec fn frame_size() -> nat {
        2 * X::frame_size()
    }

    open spec fn bytes(&self) -> Seq<u8> {
        self.left.bytes() + self.right.bytes()
    }

    fn size() -> (n: usize) {
        proof {
            X::lemma_width();
        }
        let n: usize = X::size();
        2 * n
    }

    fn from_bytes(bytes: &[u8]) -> (frame: Self) {
        let n: usize = X::size();
        let left: X = X::from_bytes(&bytes[0..n]);
        let right: X = X::from_bytes(&bytes[n..2 * n]);
        let frame = Stereo { left, right };
        assert(frame.bytes() =~= bytes@);
        frame
    }
}

/// The whole frames of `size` bytes in `s`, from its front.
pub open spec fn frames(s: Seq<u8>, size: nat) -> Seq<Seq<u8>>
    decreases s.len(),
{
    if size == 0 || s.len() < size {
        Seq::empty()
    } else {
        seq![s.take(size as int)] + frames(s.skip(size as int), size)
    }
}

/// What follows `n` frames of `size` bytes; nothing where there are fewer.
pub open spec fn after_frames(s: Seq<u8>, size: nat, n: nat) -> Seq<u8> {
    back(s, (n * size) as int)
}

proof fn lemma_frames_len(s: Seq<u8>, size: nat)
    requires
        size > 0,
    ensures
        frames(s, size).len() == s.len() / size,
    decreases s.len(),
{
    if s.len() < size {
        vstd::arithmetic::div_mod::lemma_basic_div(s.len() as int, size as int);
    } else {
        let tail = s.skip(size as int);
        lemma_frames_len(tail, size);
        vstd::arithmetic::div_mod::lemma_div_minus_one(s.len() as int, size as int);
    }
}

proof fn lemma_frame_at(s: Seq<u8>, size: nat, k: int)
    requires
        size > 0,
        0 <= k < frames(s, size).len(),
    ensures
        0 <= k * size,
        k * size + size <= s.len(),
        frames(s, size)[k] == s.subrange(k * size, k * size + size),
    decreases s.len(),
{
    let tail = s.skip(size as int);
    if k == 0 {
        assert(0 * size == 0) by (nonlinear_arith);
        assert(s.take(size as int) =~= s.subrange(0, size as int));
    } else {
        lemma_frame_at(tail, size, k - 1);
        assert((k - 1) * size == k * size - size) by (nonlinear_arith);
        assert(s.subrange(k * size, k * size + size) =~= tail.subrange(
            (k - 1) * size,
            (k - 1) * size + size,
        ));
    }
}

/// Frames read straight off a stream.
pub struct FormatReader<Sample, R> {
    pub reader: R,
    pub sample_type: core::marker::PhantomData<Sample>,
}

impl<Sample, R> FormatReader<Sample, R> {
    pub fn new(reader: R) -> (r: Self)
        ensures
            r.reader == reader,
    {
        FormatReader { reader, sample_type: core::marker::PhantomData }
    }
}

/// A stream that fails does so before there is a whole frame of those that are wanted.
pub open spec fn fails_at_once(broken: bool, all: Seq<Seq<u8>>, want: int) -> bool {
    broken && all.len() == 0 && want > 0
}

/// How many frames are read and converted at a time.
pub const BLOCK: usize = 64;

impl<Sample: Frame, R: Read> FormatReader<Sample, R> {
    /// The next whole frames, `max` of them where the stream has as many. A part of a frame at the end
    /// of the stream is dropped. `None` where the stream fails before there is a whole one.
    pub fn read_block(&mut self, max: usize) -> (block: Option<Vec<Sample>>)
        requires
            max <= BLOCK,
        ensures
            ({
                let all = frames(old(self).reader.rest(), Sample::frame_size());
                match block {
                    Some(block) => {
                        &&& !fails_at_once(old(self).reader.broken(), all, max as int)
                        &&& block.len() == at_most(max as int, all.len())
                        &&& forall|k: int| 0 <= k < block.len() ==> (#[trigger] block[k]).bytes() == all[k]
                    },
                    None => fails_at_once(old(self).reader.broken(), all, max as int),
                }
            }),
            final(self).reader.broken() == old(self).reader.broken(),
            final(self).reader.rest() == after_frames(
                old(self).reader.rest(),
                Sample::frame_size(),
                max as nat,
            ),
            final(self).reader.beyond() == old(self).reader.beyond(),
    {
        let size: usize = Sample::size();
        assert(max * size <= 512) by (nonlinear_arith)
            requires
                max <= 64,
                0 < size <= 8,
        ;
        let ghost rest = self.reader.rest();
        assert(max > 0 ==> max * size >= size) by (nonlinear_arith)
            requires
                0 < size,
        ;
        let bytes: Vec<u8> = match self.reader.read(max * size) {
            Some(bytes) => bytes,
            None => {
                proof {
                    lemma_frames_len(rest, size as nat);
                }
                return None;
            },
        };
        let ghost left = self.reader.rest();
        if 0 < bytes.len() && bytes.len() < size {
            // A part of a frame, and no more: the stream ends here, or fails.
            match self.reader.read(1) {
                Some(_) => {},
                None => {
                    proof {
                        lemma_frames_len(rest, size as nat);
                    }
                    assert(self.reader.rest() =~= left);
                    return None;
                },
            }
            assert(self.reader.rest() =~= left);
        }
        let mut block: Vec<Sample> = Vec::new();
        let ghost all = frames(rest, size as nat);
        let n: usize = bytes.len() / size;
        proof {
            lemma_frames_len(rest, size as nat);
            let m = max as int;
            let z = size as int;
            let l = rest.len() as int;
            if m * z <= l {
                assert(m * z / z == m) by (nonlinear_arith)
                    requires
                        z > 0,
                ;
                assert(l / z >= m) by (nonlinear_arith)
                    requires
                        z > 0,
                        m * z <= l,
                ;
            } else {
                assert(l / z <= m) by (nonlinear_arith)
                    requires
                        z > 0,
                        l < m * z,
                ;
            }
        }
        assert(n == at_most(max as int, all.len()));
        let mut k: usize = 0;
        while k < n
            invariant
                k <= n,
                n == bytes.len() / size,
                size == Sample::frame_size(),
                0 < size <= 8,
                bytes.len() <= 512,
                block.len() == k,
                n <= all.len(),
                all == frames(rest, size as nat),
                bytes@ == front(rest, max * size),
                forall|j: int| 0 <= j < k ==> (#[trigger] block[j]).bytes() == all[j],
            decreases n - k,
        {
            proof {
                lemma_frame_at(rest, size as nat, k as int);
                assert(k * size + size <= bytes.len()) by (nonlinear_arith)
                    requires
                        k < n,
                        n == bytes.len() / size,
                        size > 0,
                ;
            }
            let start: usize = k * size;
            let frame: Sample = Sample::from_bytes(&bytes[start..start + size]);
            assert(bytes@.subrange(k * size, k * size + size) =~= all[k as int]);
            block.push(frame);
            k = k + 1;
        }
        Some(block)
    }
}

proof fn lemma_frames_skip(s: Seq<u8>, size: nat, n: nat)
    requires
        size > 0,
        n <= frames(s, size).len(),
    ensures
        n * size <= s.len(),
        frames(after_frames(s, size, n), size) == frames(s, size).skip(n as int),
    decreases n,
{
    if n == 0 {
        assert(0 * size == 0) by (nonlinear_arith);
        assert(after_frames(s, size, 0) =~= s);
        assert(frames(s, size).skip(0) =~= frames(s, size));
    } else {
        let tail = s.skip(size as int);
        let m = (n - 1) as nat;
        lemma_frames_skip(tail, size, m);
        assert(m * size + size == n * size) by (nonlinear_arith)
            requires
                m == n - 1,
        ;
        assert(after_frames(tail, size, m) =~= after_frames(s, size, n));
        assert(frames(tail, size).skip(m as int) =~= frames(s, size).skip(n as int));
    }
}

proof fn lemma_after_frames_twice(s: Seq<u8>, size: nat, m: nat, n: nat)
    ensures
        after_frames(after_frames(s, size, m), size, n) == after_frames(s, size, m + n),
{
    assert(m * size + n * size == (m + n) * size) by (nonlinear_arith);
    assert(after_frames(after_frames(s, size, m), size, n) =~= after_frames(s, size, m + n));
}

proof fn lemma_past_the_end(s: Seq<u8>, size: nat, n: nat)
    requires
        size > 0,
        frames(s, size).len() < n,
    ensures
        after_frames(s, size, n) == Seq::<u8>::empty(),
{
    lemma_frames_len(s, size);
    let l = s.len() as int;
    let z = size as int;
    let m = n as int;
    assert(l <= m * z) by (nonlinear_arith)
        requires
            z > 0,
            l >= 0,
            l / z < m,
    ;
    assert(after_frames(s, size, n) =~= Seq::<u8>::empty());
}

impl<Sample: Frame, R: Read> Source<Sample> for FormatReader<Sample, R> {
    open spec fn readable(&self) -> bool {
        true
    }

    fn read_samples(&mut self, buf: &mut [Sample]) -> (n: Option<usize>)
        ensures
            ({
                let all = frames(old(self).reader.rest(), Sample::frame_size());
                let k = at_most(old(buf)@.len() as int, all.len());
                &&& n == if fails_at_once(old(self).reader.broken(), all, old(buf)@.len() as int) {
                    None
                } else {
                    Some(k as usize)
                }
                &&& final(self).reader.broken() == old(self).reader.broken()
                &&& forall|j: int| 0 <= j < k ==> (#[trigger] final(buf)@[j]).bytes() == all[j]
                &&& forall|j: int|
                    k <= j < old(buf)@.len() ==> #[trigger] final(buf)@[j] == old(buf)@[j]
                &&& final(self).reader.rest() == after_frames(
                    old(self).reader.rest(),
                    Sample::frame_size(),
                    old(buf)@.len(),
                )
            }),
    {
        let len: usize = buf.len();
        let ghost size = Sample::frame_size();
        let ghost start = self.reader.rest();
        let ghost all = frames(start, size);
        let mut done: usize = 0;
        proof {
            lemma_frames_skip_nothing(start, size);
        }
        let frame_size: usize = Sample::size();
        while done < len
            invariant
                size == frame_size == Sample::frame_size(),
                size > 0,
                len == old(buf)@.len(),
                buf@.len() == len,
                done <= len,
                done <= all.len(),
                start == old(self).reader.rest(),
                all == frames(start, size),
                self.reader.rest() == after_frames(start, size, done as nat),
                self.reader.broken() == old(self).reader.broken(),
                done == 0 || !fails_at_once(old(self).reader.broken(), all, len as int),
                forall|j: int| 0 <= j < done ==> (#[trigger] buf@[j]).bytes() == all[j],
                forall|j: int| done <= j < len ==> #[trigger] buf@[j] == old(buf)@[j],
            decreases len - done,
        {
            let want: usize = if len - done < BLOCK {
                len - done
            } else {
                BLOCK
            };
            proof {
                lemma_frames_skip(start, size, done as nat);
                lemma_after_frames_twice(start, size, done as nat, want as nat);
            }
            let ghost before = buf@;
            let block: Vec<Sample> = match self.read_block(want) {
                Some(block) => block,
                None => {
                    proof {
                        lemma_past_the_end(start, size, len as nat);
                        lemma_past_the_end(start, size, (done + want) as nat);
                    }
                    return if done == 0 {
                        None
                    } else {
                        Some(done)
                    };
                },
            };
            let n: usize = block.len();
            let mut k: usize = 0;
            while k < n
                invariant
                    k <= n,
                    n == block.len(),
                    done + n <= len,
                    done + n <= all.len(),
                    buf@.len() == len,
                    before.len() == len,
                    forall|j: int|
                        0 <= j < n ==> (#[trigger] block[j]).bytes() == all.skip(done as int)[j],
                    forall|j: int| 0 <= j < done ==> #[trigger] buf@[j] == before[j],
                    forall|j: int| done <= j < done + k ==> (#[trigger] buf@[j]).bytes() == all[j],
                    forall|j: int| done + k <= j < len ==> #[trigger] buf@[j] == before[j],
                decreases n - k,
            {
                assert(all.skip(done as int)[k as int] == all[done + k]);
                assert(block[k as int].bytes() == all[done + k]);
                let ghost previous = buf@;
                buf[done + k] = block[k];
                assert(buf@ =~= previous.update(done + k, block[k as int]));
                k = k + 1;
            }
            done = done + n;
            if n < want {
                proof {
                    lemma_past_the_end(start, size, len as nat);
                    lemma_past_the_end(start, size, (done - n + want) as nat);
                }
                return Some(done);
            }
        }
        Some(done)
    }
}

proof fn lemma_frames_skip_nothing(s: Seq<u8>, size: nat)
    ensures
        after_frames(s, size, 0) == s,
{
    assert(0 * size == 0) by (nonlinear_arith);
    assert(after_frames(s, size, 0) =~= s);
}

/// The bytes of `nsamples` frames, as far as the count can be held.
pub open spec fn bytes_of(nsamples: u64, size: nat) -> int {
    if nsamples * size > u64::MAX {
        u64::MAX as int
    } else {
        nsamples * size
    }
}

/// How far moving forward gets, of a stream with so many bytes left: by as many frames as are wanted and are
/// there. Behind where a stream fails that cannot be told.
pub open spec fn forwards(broken: bool, left: nat, size: nat, nsamples: u64, n: Option<u64>) -> bool {
    let nbytes = bytes_of(nsamples, size);
    &&& n matches Some(k) && at_most(nbytes, left) / size as int <= k <= nsamples
    &&& !broken || nbytes <= left ==> n == Some((at_most(nbytes, left) / size as int) as u64)
}

impl<Sample: Frame, R: Skip> FastForward for FormatReader<Sample, R> {
    open spec fn movable(&self) -> bool {
        true
    }

    fn fast_forward(&mut self, nsamples: u64) -> (n: Option<u64>)
        ensures
            ({
                let size = Sample::frame_size();
                let rest = old(self).reader.rest();
                let nbytes = bytes_of(nsamples, size);
                &&& forwards(old(self).reader.broken(), rest.len(), size, nsamples, n)
                &&& final(self).reader.rest() == back(rest, nbytes)
                &&& reaches(&old(self).reader, nbytes) ==> final(self).reader.broken() == old(
                    self,
                ).reader.broken()
            }),
    {
        let size: u64 = Sample::size() as u64;
        let nbytes: u64 = match nsamples.checked_mul(size) {
            Some(nbytes) => nbytes,
            None => u64::MAX,
        };
        let nskipped: u64 = self.reader.skip(nbytes);
        assert(nskipped / size <= nsamples) by (nonlinear_arith)
            requires
                size > 0,
                nskipped <= nsamples * size,
        ;
        proof {
            let least = at_most(nbytes as int, old(self).reader.rest().len());
            let z = size as int;
            assert(least / z <= nskipped as int / z) by (nonlinear_arith)
                requires
                    least <= nskipped,
                    z > 0,
            ;
        }
        Some(nskipped / size)
    }
}

/// A decoded PCM stream in one of the WAV sample formats, mono or stereo. Reads out as the
/// interleaved [`Stereo<PcmS16Le>`] the players consume: the native S16-stereo case is a direct
/// read, everything else converts per sample ([`ToS16`]), and mono is duplicated to both channels.
pub enum MultiReader<R> {
    MonoU8(FormatReader<PcmU8, R>),
    StereoU8(FormatReader<Stereo<PcmU8>, R>),
    MonoS16(FormatReader<PcmS16Le, R>),
    StereoS16(FormatReader<Stereo<PcmS16Le>, R>),
    MonoS24(FormatReader<PcmS24Le, R>),
    StereoS24(FormatReader<Stereo<PcmS24Le>, R>),
    MonoS32(FormatReader<PcmS32Le, R>),
    StereoS32(FormatReader<Stereo<PcmS32Le>, R>),
    MonoF32(FormatReader<PcmF32Le, R>),
    StereoF32(FormatReader<Stereo<PcmF32Le>, R>),
}

impl<R: Read> MultiReader<R> {
    pub open spec fn encoding(&self) -> Encoding {
        match self {
            MultiReader::MonoU8(_) => Encoding::U8,
            MultiReader::StereoU8(_) => Encoding::U8,
            MultiReader::MonoS16(_) => Encoding::S16,
            MultiReader::StereoS16(_) => Encoding::S16,
            MultiReader::MonoS24(_) => Encoding::S24,
            MultiReader::StereoS24(_) => Encoding::S24,
            MultiReader::MonoS32(_) => Encoding::S32,
            MultiReader::StereoS32(_) => Encoding::S32,
            MultiReader::MonoF32(_) => Encoding::F32,
            MultiReader::StereoF32(_) => Encoding::F32,
        }
    }

    pub open spec fn channels(&self) -> nat {
        match self {
            MultiReader::MonoU8(_) => 1,
            MultiReader::StereoU8(_) => 2,
            MultiReader::MonoS16(_) => 1,
            MultiReader::StereoS16(_) => 2,
            MultiReader::MonoS24(_) => 1,
            MultiReader::StereoS24(_) => 2,
            MultiReader::MonoS32(_) => 1,
            MultiReader::StereoS32(_) => 2,
            MultiReader::MonoF32(_) => 1,
            MultiReader::StereoF32(_) => 2,
        }
    }

    /// The bytes that are still to be read.
    pub open spec fn rest(&self) -> Seq<u8> {
        match self {
            MultiReader::MonoU8(r) => r.reader.rest(),
            MultiReader::StereoU8(r) => r.reader.rest(),
            MultiReader::MonoS16(r) => r.reader.rest(),
            MultiReader::StereoS16(r) => r.reader.rest(),
            MultiReader::MonoS24(r) => r.reader.rest(),
            MultiReader::StereoS24(r) => r.reader.rest(),
            MultiReader::MonoS32(r) => r.reader.rest(),
            MultiReader::StereoS32(r) => r.reader.rest(),
            MultiReader::MonoF32(r) => r.reader.rest(),
            MultiReader::StereoF32(r) => r.reader.rest(),
        }
    }

    /// Whether the stream fails behind those.
    pub open spec fn broken(&self) -> bool {
        match self {
            MultiReader::MonoU8(r) => r.reader.broken(),
            MultiReader::StereoU8(r) => r.reader.broken(),
            MultiReader::MonoS16(r) => r.reader.broken(),
            MultiReader::StereoS16(r) => r.reader.broken(),
            MultiReader::MonoS24(r) => r.reader.broken(),
            MultiReader::StereoS24(r) => r.reader.broken(),
            MultiReader::MonoS32(r) => r.reader.broken(),
            MultiReader::StereoS32(r) => r.reader.broken(),
            MultiReader::MonoF32(r) => r.reader.broken(),
            MultiReader::StereoF32(r) => r.reader.broken(),
        }
    }

    /// The bytes of one frame.
    pub open spec fn frame_bytes(&self) -> nat {
        if self.channels() == 2 {
            2 * width_of(self.encoding())
        } else {
            width_of(self.encoding())
        }
    }

    /// How many frames one read gives at most.
    pub open spec fn per_read(&self) -> int {
        if self.channels() == 2 && self.encoding() == Encoding::S16 {
            usize::MAX as int
        } else {
            BLOCK as int
        }
    }
}

/// The left channel of a frame, as a 16-bit sample.
pub open spec fn left_of(encoding: Encoding, frame: Seq<u8>) -> int {
    s16_of(encoding, frame.take(width_of(encoding) as int))
}

/// The right channel of a frame, as a 16-bit sample; a mono frame has the one channel on both sides.
pub open spec fn right_of(encoding: Encoding, channels: nat, frame: Seq<u8>) -> int {
    if channels == 2 {
        s16_of(encoding, frame.skip(width_of(encoding) as int))
    } else {
        left_of(encoding, frame)
    }
}

/// What a read of a PCM stream does: it fills the front of the buffer with the next frames, as many as
/// are wanted and are there, and leaves the rest of it. It fails where the stream does before there is one.
pub open spec fn pcm_read<R: Read>(
    before: MultiReader<R>,
    after: MultiReader<R>,
    old_buf: Seq<Stereo<PcmS16Le>>,
    new_buf: Seq<Stereo<PcmS16Le>>,
    n: Option<usize>,
) -> bool {
    let all = frames(before.rest(), before.frame_bytes());
    let want = at_most(before.per_read(), old_buf.len());
    let k = at_most(want, all.len());
    let encoding = before.encoding();
    &&& n == if fails_at_once(before.broken(), all, want) {
        None
    } else {
        Some(k as usize)
    }
    &&& after.broken() == before.broken()
    &&& new_buf.len() == old_buf.len()
    &&& forall|j: int|
        0 <= j < k ==> {
            &&& (#[trigger] new_buf[j]).left.value() == left_of(encoding, all[j])
            &&& new_buf[j].right.value() == right_of(encoding, before.channels(), all[j])
        }
    &&& forall|j: int| k <= j < old_buf.len() ==> #[trigger] new_buf[j] == old_buf[j]
    &&& after.rest() == after_frames(before.rest(), before.frame_bytes(), want as nat)
    &&& after.encoding() == encoding
    &&& after.channels() == before.channels()
}

/// What moving forward in a PCM stream does.
pub open spec fn pcm_forwarded<R: Read>(
    before: MultiReader<R>,
    after: MultiReader<R>,
    nsamples: u64,
    n: Option<u64>,
) -> bool {
    let size = before.frame_bytes();
    let nbytes = bytes_of(nsamples, size);
    &&& forwards(before.broken(), before.rest().len(), size, nsamples, n)
    &&& after.rest() == back(before.rest(), nbytes)
    &&& !before.broken() || nbytes <= before.rest().len() ==> after.broken() == before.broken()
    &&& after.encoding() == before.encoding()
    &&& after.channels() == before.channels()
}

impl<R: Read> Source<Stereo<PcmS16Le>> for MultiReader<R> {
    open spec fn readable(&self) -> bool {
        true
    }

    fn read_samples(&mut self, buf: &mut [Stereo<PcmS16Le>]) -> (n: Option<usize>)
        ensures
            pcm_read(*old(self), *final(self), old(buf)@, final(buf)@, n),
    {
        let len: usize = buf.len();
        assert(at_most(self.per_read(), buf@.len()) <= len);
        match self {
            MultiReader::MonoU8(r) => read_mono(r, buf),
            MultiReader::StereoU8(r) => read_stereo(r, buf),
            MultiReader::MonoS16(r) => read_mono(r, buf),
            MultiReader::StereoS16(r) => read_native(r, buf),
            MultiReader::MonoS24(r) => read_mono(r, buf),
            MultiReader::StereoS24(r) => read_stereo(r, buf),
            MultiReader::MonoS32(r) => read_mono(r, buf),
            MultiReader::StereoS32(r) => read_stereo(r, buf),
            MultiReader::MonoF32(r) => read_mono(r, buf),
            MultiReader::StereoF32(r) => read_stereo(r, buf),
        }
    }
}

/// Reads frames of the output type straight into the caller's buffer.
fn read_native<R: Read>(
    r: &mut FormatReader<Stereo<PcmS16Le>, R>,
    out: &mut [Stereo<PcmS16Le>],
) -> (n: Option<usize>)
    ensures
        ({
            let all = frames(old(r).reader.rest(), 4);
            let k = at_most(old(out)@.len() as int, all.len());
            &&& n == if fails_at_once(old(r).reader.broken(), all, old(out)@.len() as int) {
                None
            } else {
                Some(k as usize)
            }
            &&& final(r).reader.broken() == old(r).reader.broken()
            &&& final(out)@.len() == old(out)@.len()
            &&& forall|j: int|
                0 <= j < k ==> {
                    &&& (#[trigger] final(out)@[j]).left.value() == left_of(Encoding::S16, all[j])
                    &&& final(out)@[j].right.value() == right_of(Encoding::S16, 2, all[j])
                }
            &&& forall|j: int| k <= j < old(out)@.len() ==> #[trigger] final(out)@[j] == old(out)@[j]
            &&& final(r).reader.rest() == after_frames(old(r).reader.rest(), 4, old(out)@.len())
        }),
{
    let len: usize = out.len();
    let ghost all = frames(r.reader.rest(), 4);
    assert(at_most(len as int, all.len()) <= usize::MAX);
    match r.read_samples(out) {
        Some(n) => {
            assert forall|j: int| 0 <= j < n implies {
                &&& (#[trigger] out@[j]).left.value() == left_of(Encoding::S16, all[j])
                &&& out@[j].right.value() == right_of(Encoding::S16, 2, all[j])
            } by {
                let s = out@[j];
                assert(s.bytes() == all[j]);
                assert(all[j].take(2) =~= s.left.bytes());
                assert(all[j].skip(2) =~= s.right.bytes());
            }
            Some(n)
        },
        None => None,
    }
}

/// Reads a chunk of stereo frames of the native format and reduces each channel to S16.
fn read_stereo<X: ToS16, R: Read>(
    r: &mut FormatReader<Stereo<X>, R>,
    out: &mut [Stereo<PcmS16Le>],
) -> (n: Option<usize>)
    ensures
        ({
            let encoding = X::encoding();
            let all = frames(old(r).reader.rest(), 2 * width_of(encoding));
            let want = at_most(BLOCK as int, old(out)@.len());
            let k = at_most(want, all.len());
            &&& n == if fails_at_once(old(r).reader.broken(), all, want) {
                None
            } else {
                Some(k as usize)
            }
            &&& final(r).reader.broken() == old(r).reader.broken()
            &&& final(out)@.len() == old(out)@.len()
            &&& forall|j: int|
                0 <= j < k ==> {
                    &&& (#[trigger] final(out)@[j]).left.value() == left_of(encoding, all[j])
                    &&& final(out)@[j].right.value() == right_of(encoding, 2, all[j])
                }
            &&& forall|j: int| k <= j < old(out)@.len() ==> #[trigger] final(out)@[j] == old(out)@[j]
            &&& final(r).reader.rest() == after_frames(
                old(r).reader.rest(),
                2 * width_of(encoding),
                want as nat,
            )
        }),
{
    proof {
        X::lemma_width();
    }
    let want: usize = if out.len() < BLOCK {
        out.len()
    } else {
        BLOCK
    };
    let ghost all = frames(r.reader.rest(), 2 * width_of(X::encoding()));
    let block: Vec<Stereo<X>> = match r.read_block(want) {
        Some(block) => block,
        None => return None,
    };
    let n: usize = block.len();
    let mut k: usize = 0;
    while k < n
        invariant
            k <= n,
            n == block.len(),
            n <= out@.len(),
            out@.len() == old(out)@.len(),
            n <= all.len(),
            X::frame_size() == width_of(X::encoding()),
            forall|j: int| 0 <= j < n ==> (#[trigger] block[j]).bytes() == all[j],
            forall|j: int|
                0 <= j < k ==> {
                    &&& (#[trigger] out@[j]).left.value() == left_of(X::encoding(), all[j])
                    &&& out@[j].right.value() == right_of(X::encoding(), 2, all[j])
                },
            forall|j: int| k <= j < out@.len() ==> #[trigger] out@[j] == old(out)@[j],
        decreases n - k,
    {
        let s: Stereo<X> = block[k];
        let ghost previous = out@;
        proof {
            X::lemma_bytes(s.left);
            X::lemma_bytes(s.right);
            assert(s.bytes() == all[k as int]);
            assert(all[k as int].take(width_of(X::encoding()) as int) =~= s.left.bytes());
            assert(all[k as int].skip(width_of(X::encoding()) as int) =~= s.right.bytes());
        }
        out[k] = Stereo::new(s.left.to_s16(), s.right.to_s16());
        assert(out@ =~= previous.update(k as int, out@[k as int]));
        k = k + 1;
    }
    Some(n)
}

/// Reads a chunk of mono frames of the native format, reduces each to S16, and duplicates it to
/// both output channels.
fn read_mono<X: ToS16, R: Read>(r: &mut FormatReader<X, R>, out: &mut [Stereo<PcmS16Le>]) -> (n: Option<usize>)
    ensures
        ({
            let encoding = X::encoding();
            let all = frames(old(r).reader.rest(), width_of(encoding));
            let want = at_most(BLOCK as int, old(out)@.len());
            let k = at_most(want, all.len());
            &&& n == if fails_at_once(old(r).reader.broken(), all, want) {
                None
            } else {
                Some(k as usize)
            }
            &&& final(r).reader.broken() == old(r).reader.broken()
            &&& final(out)@.len() == old(out)@.len()
            &&& forall|j: int|
                0 <= j < k ==> {
                    &&& (#[trigger] final(out)@[j]).left.value() == left_of(encoding, all[j])
                    &&& final(out)@[j].right.value() == right_of(encoding, 1, all[j])
                }
            &&& forall|j: int| k <= j < old(out)@.len() ==> #[trigger] final(out)@[j] == old(out)@[j]
            &&& final(r).reader.rest() == after_frames(
                old(r).reader.rest(),
                width_of(encoding),
                want as nat,
            )
        }),
{
    proof {
        X::lemma_width();
    }
    let want: usize = if out.len() < BLOCK {
        out.len()
    } else {
        BLOCK
    };
    let ghost all = frames(r.reader.rest(), width_of(X::encoding()));
    let block: Vec<X> = match r.read_block(want) {
        Some(block) => block,
        None => return None,
    };
    let n: usize = block.len();
    let mut k: usize = 0;
    while k < n
        invariant
            k <= n,
            n == block.len(),
            n <= out@.len(),
            out@.len() == old(out)@.len(),
            n <= all.len(),
            X::frame_size() == width_of(X::encoding()),
            forall|j: int| 0 <= j < n ==> (#[trigger] block[j]).bytes() == all[j],
            forall|j: int|
                0 <= j < k ==> {
                    &&& (#[trigger] out@[j]).left.value() == left_of(X::encoding(), all[j])
                    &&& out@[j].right.value() == right_of(X::encoding(), 1, all[j])
                },
            forall|j: int| k <= j < out@.len() ==> #[trigger] out@[j] == old(out)@[j],
        decreases n - k,
    {
        let s: X = block[k];
        let ghost previous = out@;
        proof {
            X::lemma_bytes(s);
            assert(s.bytes() == all[k as int]);
            assert(all[k as int].take(width_of(X::encoding()) as int) =~= s.bytes());
        }
        let v: PcmS16Le = s.to_s16();
        out[k] = Stereo::new(v, v);
        assert(out@ =~= previous.update(k as int, out@[k as int]));
        k = k + 1;
    }
    Some(n)
}

impl<R: Skip> FastForward for MultiReader<R> {
    open spec fn movable(&self) -> bool {
        true
    }

    fn fast_forward(&mut self, nsamples: u64) -> (n: Option<u64>)
        ensures
            pcm_forwarded(*old(self), *final(self), nsamples, n),
    {
        // Each reader skips by its own frame size, so the frame count stays exact per format.
        match self {
            MultiReader::MonoU8(r) => r.fast_forward(nsamples),
            MultiReader::StereoU8(r) => r.fast_forward(nsamples),
            MultiReader::MonoS16(r) => r.fast_forward(nsamples),
            MultiReader::StereoS16(r) => r.fast_forward(nsamples),
            MultiReader::MonoS24(r) => r.fast_forward(nsamples),
            MultiReader::StereoS24(r) => r.fast_forward(nsamples),
            MultiReader::MonoS32(r) => r.fast_forward(nsamples),
            MultiReader::StereoS32(r) => r.fast_forward(nsamples),
            MultiReader::MonoF32(r) => r.fast_forward(nsamples),
            MultiReader::StereoF32(r) => r.fast_forward(nsamples),
        }
    }
}

/// `v` is the 16-bit sample that the bytes of `s` from `at` on stand for: 8 bits unsigned are taken from their
/// midpoint and widened, 16 bits are taken as they are, and of more bits the highest 16, rounding down.
pub open spec fn is_sample(encoding: Encoding, s: Seq<u8>, at: int, v: int) -> bool {
    &&& -32768 <= v <= 32767
    &&& match encoding {
        Encoding::U8 => v == 256 * s[at] - 32768,
        Encoding::S16 => (s[at] + 256 * s[at + 1] - v) % 65536 == 0,
        Encoding::S24 => {
            let u = s[at] + 256 * s[at + 1] + 65536 * s[at + 2];
            let n = if u >= 8388608 {
                u - 16777216
            } else {
                u
            };
            256 * v <= n < 256 * (v + 1)
        },
        Encoding::S32 => {
            let u = s[at] + 256 * s[at + 1] + 65536 * s[at + 2] + 16777216 * s[at + 3];
            let n = if u >= 2147483648 {
                u - 4294967296
            } else {
                u
            };
            65536 * v <= n < 65536 * (v + 1)
        },
        Encoding::F32 => {
            let bits = s[at] + 256 * s[at + 1] + 65536 * s[at + 2] + 16777216 * s[at + 3];
            is_scaled(bits, v)
        },
    }
}

/// `v` is the float with the given bits times 32767, cut off to an integer: up to what the product loses by
/// being held in 24 bits. Beyond 1 it is as for 1, below the smallest normal float and for no number nothing.
pub open spec fn is_scaled(bits: int, v: int) -> bool {
    let negative = bits >= 2147483648;
    let exponent = bits / 8388608 % 256;
    let fraction = bits % 8388608;
    let magnitude = if negative {
        -v
    } else {
        v
    };
    &&& exponent == 255 && fraction > 0 ==> v == 0
    &&& exponent == 255 && fraction == 0 ==> magnitude == 32767
    &&& 127 <= exponent < 255 ==> magnitude == 32767
    &&& exponent == 0 ==> v == 0
    &&& 0 < exponent < 127 ==> {
        let product = (8388608 + fraction) * 32767;
        let unit = pow2((150 - exponent) as nat) as int;
        &&& 0 <= magnitude
        &&& magnitude * unit <= product + 16384
        &&& (magnitude + 1) * unit > product - 16384
    }
}

proof fn lemma_scaled(e: int, m: int)
    requires
        0 < e < 127,
        0 <= m < 8388608,
    ensures
        ({
            let product = (8388608 + m) * 32767;
            let unit = pow2((150 - e) as nat) as int;
            let s = scaled(e, m);
            &&& 0 <= s <= 32767
            &&& s * unit <= product + 16384
            &&& (s + 1) * unit > product - 16384
        }),
{
    vstd::arithmetic::power2::lemma2_to64();
    let p = (8388608 + m) * 32767;
    let k: int = if p < 0x40_0000_0000 {
        14
    } else {
        15
    };
    let d = pow2(k as nat) as int;
    let sh = (150 - e - k) as nat;
    let d2 = pow2(sh) as int;
    let q = rounded(p, d);
    let s = q / d2;
    assert(d == 16384 || d == 32768);
    assert(p / d * d + p % d == p) by (nonlinear_arith)
        requires
            d > 0,
    ;
    assert(q * d - 16384 <= p <= q * d + 16384) by {
        assert((p / d + 1) * d == p / d * d + d) by (nonlinear_arith);
    }
    vstd::arithmetic::power2::lemma_pow2_pos(sh);
    assert(s * d2 <= q < (s + 1) * d2) by (nonlinear_arith)
        requires
            s == q / d2,
            d2 > 0,
    ;
    vstd::arithmetic::power2::lemma_pow2_adds(sh, k as nat);
    let unit = pow2((150 - e) as nat) as int;
    assert(unit == d2 * d);
    assert(s * unit <= q * d) by (nonlinear_arith)
        requires
            s * d2 <= q,
            unit == d2 * d,
            d > 0,
    ;
    assert((s + 1) * unit >= q * d + d) by (nonlinear_arith)
        requires
            q + 1 <= (s + 1) * d2,
            unit == d2 * d,
            d > 0,
    ;
    assert(p <= 16777215 * 32767);
    if sh == 9 {
        assert(d2 == 512);
        assert(q <= 0xFF_FE00);
        assert(s <= 32767) by (nonlinear_arith)
            requires
                s == q / d2,
                d2 == 512,
                0 <= q <= 0xFF_FE00,
        ;
    } else {
        assert(sh >= 9);
        if sh > 10 {
            lemma_pow2_strictly_increases(10, sh);
        }
        assert(q <= 0x100_0000);
        assert(s <= 0x4000) by (nonlinear_arith)
            requires
                s == q / d2,
                d2 >= 1024,
                0 <= q <= 0x100_0000,
        ;
    }
    assert(s >= 0) by (nonlinear_arith)
        requires
            s == q / d2,
            d2 > 0,
            q >= 0,
    ;
}

proof fn lemma_float_parts(b0: int, b1: int, b2: int, b3: int)
    requires
        0 <= b0 < 256,
        0 <= b1 < 256,
        0 <= b2 < 256,
        0 <= b3 < 256,
    ensures
        ({
            let bits = b0 + 256 * b1 + 65536 * b2 + 16777216 * b3;
            let e = 2 * (b3 % 0x80) + b2 / 0x80;
            let m = b0 + 0x100 * b1 + 0x1_0000 * (b2 % 0x80);
            &&& 0 <= e < 256
            &&& 0 <= m < 8388608
            &&& bits / 8388608 % 256 == e
            &&& bits % 8388608 == m
            &&& (bits >= 2147483648) == (b3 >= 0x80)
        }),
{
    let bits = b0 + 256 * b1 + 65536 * b2 + 16777216 * b3;
    let e = 2 * (b3 % 0x80) + b2 / 0x80;
    let m = b0 + 0x100 * b1 + 0x1_0000 * (b2 % 0x80);
    let high = e + 256 * (b3 / 0x80);
    assert(b2 == b2 % 0x80 + 0x80 * (b2 / 0x80));
    assert(b3 == b3 % 0x80 + 0x80 * (b3 / 0x80));
    assert(bits == m + 8388608 * high);
    assert(bits / 8388608 == high);
    assert(bits % 8388608 == m);
}

proof fn lemma_float(b: Seq<u8>)
    ensures
        -32767 <= float_s16(b) <= 32767,
        is_scaled(b[0] + 256 * b[1] + 65536 * b[2] + 16777216 * b[3], float_s16(b)),
{
    let e = 2 * (b[3] as int % 0x80) + b[2] as int / 0x80;
    let m = b[0] + 0x100 * b[1] + 0x1_0000 * (b[2] as int % 0x80);
    lemma_float_parts(b[0] as int, b[1] as int, b[2] as int, b[3] as int);
    if 0 < e < 127 {
        lemma_scaled(e, m);
    }
}

proof fn lemma_sample(encoding: Encoding, s: Seq<u8>, at: int, b: Seq<u8>)
    requires
        0 <= at,
        at + width_of(encoding) <= s.len(),
        b == s.subrange(at, at + width_of(encoding)),
    ensures
        is_sample(encoding, s, at, s16_of(encoding, b)),
{
    match encoding {
        Encoding::U8 => {
            assert(b[0] == s[at]);
        },
        Encoding::S16 => {
            assert(b[0] == s[at] && b[1] == s[at + 1]);
        },
        Encoding::S24 => {
            assert(b[0] == s[at] && b[1] == s[at + 1] && b[2] == s[at + 2]);
        },
        Encoding::S32 => {
            assert(b[0] == s[at] && b[1] == s[at + 1] && b[2] == s[at + 2] && b[3] == s[at + 3]);
        },
        Encoding::F32 => {
            assert(b[0] == s[at] && b[1] == s[at + 1] && b[2] == s[at + 2] && b[3] == s[at + 3]);
            lemma_float(b);
        },
    }
}

/// What is read of a PCM stream is what it holds, frame by frame: the left sample first and then the right one,
/// or the one sample on both sides.
pub proof fn law_pcm_is_read_as_it_is_held<R: Read>(
    before: MultiReader<R>,
    after: MultiReader<R>,
    old_buf: Seq<Stereo<PcmS16Le>>,
    new_buf: Seq<Stereo<PcmS16Le>>,
    n: usize,
    j: int,
)
    requires
        pcm_read(before, after, old_buf, new_buf, Some(n)),
        old_buf.len() <= usize::MAX,
        0 <= j < n,
    ensures
        ({
            let s = before.rest();
            let width = match before.encoding() {
                Encoding::U8 => 1int,
                Encoding::S16 => 2,
                Encoding::S24 => 3,
                Encoding::S32 => 4,
                Encoding::F32 => 4,
            };
            let left = new_buf[j].left.value();
            let right = new_buf[j].right.value();
            &&& before.channels() == 2 ==> {
                &&& 2 * width * (j + 1) <= s.len()
                &&& is_sample(before.encoding(), s, 2 * width * j, left)
                &&& is_sample(before.encoding(), s, 2 * width * j + width, right)
            }
            &&& before.channels() == 1 ==> {
                &&& width * (j + 1) <= s.len()
                &&& is_sample(before.encoding(), s, width * j, left)
                &&& right == left
            }
        }),
{
    let s = before.rest();
    let size = before.frame_bytes();
    let encoding = before.encoding();
    let w = width_of(encoding) as int;
    let all = frames(s, size);
    lemma_frame_at(s, size, j);
    let at = j * size;
    let frame = all[j];
    assert(size * (j + 1) == at + size) by (nonlinear_arith)
        requires
            at == j * size,
    ;
    assert(j * size == size * j) by (nonlinear_arith);
    assert(frame.take(w) =~= s.subrange(at, at + w));
    lemma_sample(encoding, s, at, frame.take(w));
    if before.channels() == 2 {
        assert(frame.skip(w) =~= s.subrange(at + w, at + w + w));
        lemma_sample(encoding, s, at + w, frame.skip(w));
    }
}

/// A read takes the frames off the stream that it gives: as many as fit into the buffer, where the samples need
/// no conversion; a part of a frame at the end is dropped.
pub proof fn law_pcm_is_read_in_turn<R: Read>(
    before: MultiReader<R>,
    after: MultiReader<R>,
    old_buf: Seq<Stereo<PcmS16Le>>,
    new_buf: Seq<Stereo<PcmS16Le>>,
    n: usize,
)
    requires
        pcm_read(before, after, old_buf, new_buf, Some(n)),
        0 < old_buf.len() <= usize::MAX,
    ensures
        ({
            let size = before.channels() * width_of(before.encoding());
            &&& before.rest().len() >= size ==> n > 0
            &&& n < old_buf.len() && before.encoding() == Encoding::S16 && before.channels() == 2
                ==> before.rest().len() - n * size < size
            &&& n > 0 && n * size <= before.rest().len() && after.rest().len() > 0 ==> after.rest()
                == before.rest().skip(n * size)
        }),
{
    let s = before.rest();
    let size = before.frame_bytes();
    lemma_frames_len(s, size);
    assert(size == before.channels() * width_of(before.encoding())) by (nonlinear_arith)
        requires
            size == if before.channels() == 2 {
                2 * width_of(before.encoding())
            } else {
                width_of(before.encoding())
            },
            before.channels() == 1 || before.channels() == 2,
    ;
    let want = at_most(before.per_read(), old_buf.len());
    let k = at_most(want, frames(s, size).len());
    let z = size as int;
    let l = s.len() as int;
    let q = l / z;
    assert(q * z <= l < (q + 1) * z) by (nonlinear_arith)
        requires
            q == l / z,
            z > 0,
    ;
    assert((q + 1) * z == q * z + z) by (nonlinear_arith);
    if l >= z {
        assert(q >= 1) by (nonlinear_arith)
            requires
                l < (q + 1) * z,
                l >= z,
                z > 0,
        ;
    }
    if n == want {
    } else {
        assert(n == q);
        assert(want * z >= (q + 1) * z) by (nonlinear_arith)
            requires
                want >= q + 1,
                z > 0,
        ;
        assert(after.rest().len() == 0);
    }
}

/// Moving forward in a PCM stream goes by whole frames, as many as are wanted and are there, and leaves what is
/// behind them.
pub proof fn law_moving_forward_goes_by_frames<R: Read>(
    before: MultiReader<R>,
    after: MultiReader<R>,
    nsamples: u64,
    n: u64,
)
    requires
        pcm_forwarded(before, after, nsamples, Some(n)),
        !before.broken(),
        nsamples * before.channels() * width_of(before.encoding()) <= u64::MAX,
    ensures
        ({
            let size = (before.channels() * width_of(before.encoding())) as int;
            let len = before.rest().len() as int;
            &&& nsamples * size <= len ==> n == nsamples && after.rest() == before.rest().skip(nsamples * size)
            &&& nsamples * size > len ==> n * size <= len < (n + 1) * size && after.rest().len() == 0
        }),
{
    let size = before.frame_bytes();
    let z = size as int;
    assert(size == before.channels() * width_of(before.encoding())) by (nonlinear_arith)
        requires
            size == if before.channels() == 2 {
                2 * width_of(before.encoding())
            } else {
                width_of(before.encoding())
            },
            before.channels() == 1 || before.channels() == 2,
    ;
    let w = width_of(before.encoding()) as int;
    let c = before.channels() as int;
    assert(nsamples * z == nsamples * c * w) by (nonlinear_arith)
        requires
            z == c * w,
    ;
    let len = before.rest().len() as int;
    let m = nsamples as int;
    assert(m * z / z == m) by (nonlinear_arith)
        requires
            z > 0,
    ;
    assert((len / z) * z <= len < (len / z + 1) * z) by (nonlinear_arith)
        requires
            z > 0,
            len >= 0,
    ;
    if m * z > len {
        assert(len / z <= m) by (nonlinear_arith)
            requires
                z > 0,
                len < m * z,
                (len / z) * z <= len,
        ;
        assert(len / z >= 0) by (nonlinear_arith)
            requires
                z > 0,
                len >= 0,
        ;
    }
}

} // verus!
