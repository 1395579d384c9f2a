//! Byte streams: what a parser reads from, and windows onto a part of it.

use vstd::prelude::*;

verus! {

/// The smaller of a requested count and what is there.
pub open spec fn at_most(n: int, available: nat) -> int {
    if n < available {
        n
    } else {
        available as int
    }
}

/// The first `n` bytes of `s`, or all of it where it is shorter.
pub open spec fn front(s: Seq<u8>, n: int) -> Seq<u8> {
    s.take(at_most(n, s.len()))
}

/// `s` without its first `n` bytes; nothing where it is shorter.
pub open spec fn back(s: Seq<u8>, n: int) -> Seq<u8> {
    s.skip(at_most(n, s.len()))
}

/// Dropping `m` bytes and then `n` more is dropping them all.
pub proof fn lemma_back_twice(s: Seq<u8>, m: int, n: int)
    requires
        0 <= m,
        0 <= n,
    ensures
        back(back(s, m), n) == back(s, m + n),
{
    assert(back(back(s, m), n) =~= back(s, m + n));
}

/// The little-endian number in the first two bytes of `s`.
pub open spec fn le16(s: Seq<u8>) -> int {
    s[0] + 0x100 * s[1]
}

/// The little-endian number in the first four bytes of `s`.
pub open spec fn le32(s: Seq<u8>) -> int {
    s[0] + 0x100 * s[1] + 0x1_0000 * s[2] + 0x100_0000 * s[3]
}

/// A stream of bytes. It ends, or it fails; where it fails, nothing behind can be read.
///
/// What a stream holds is said for proofs only. A stream of a program that is not itself verified, such as
/// one over a file, leaves that out; it still has to read as the contracts here say.
pub trait Read: Sized {
    /// The bytes that are still to come, up to the end or to where the stream fails.
    open spec fn rest(&self) -> Seq<u8> {
        Seq::empty()
    }

    /// Whether the stream fails behind those, where it does not end.
    open spec fn broken(&self) -> bool {
        false
    }

    /// The bytes behind the end of this stream, where it is a window onto another; then those behind the end
    /// of that one, where it is a window too, and so on.
    open spec fn beyond(&self) -> Seq<Seq<u8>> {
        Seq::empty()
    }

    /// Whether the streams that this one is a window onto fail, in the same order.
    open spec fn faults(&self) -> Seq<bool> {
        Seq::empty()
    }

    /// All bytes of the underlying stream that can be read, whatever the position.
    open spec fn whole(&self) -> Seq<u8> {
        Seq::empty()
    }

    /// The length that the underlying stream states. It is more than can be read where the stream fails.
    open spec fn extent(&self) -> nat {
        0
    }

    /// Reads the next `n` bytes, fewer only where the stream ends or fails before. `None` where it fails at
    /// once.
    fn read(&mut self, n: usize) -> (bytes: Option<Vec<u8>>)
        ensures
            match bytes {
                Some(bytes) => {
                    &&& bytes@ == front(old(self).rest(), n as int)
                    &&& n == 0 || bytes@.len() > 0 || !old(self).broken()
                },
                None => n > 0 && old(self).rest().len() == 0 && old(self).broken(),
            },
            final(self).rest() == back(old(self).rest(), n as int),
            final(self).broken() == old(self).broken(),
            final(self).beyond() == old(self).beyond(),
            final(self).faults() == old(self).faults(),
            final(self).whole() == old(self).whole(),
            final(self).extent() == old(self).extent(),
    ;
}

/// Whether the next `n` bytes lie before where a stream fails, or it does not fail.
pub open spec fn reaches<R: Read>(stream: &R, n: int) -> bool {
    !stream.broken() || n <= stream.rest().len()
}

/// Like [`Seek`], but forward from the current position only.
pub trait Skip: Read {
    /// Returns how many bytes were actually skipped.
    ///
    /// Skipping beyond the end of the stream is allowed. The returned count is then strictly less than
    /// the specified `nbytes`. So is skipping beyond where it fails: that shows when it is read on.
    fn skip(&mut self, nbytes: u64) -> (nskipped: u64)
        ensures
            at_most(nbytes as int, old(self).rest().len()) <= nskipped <= nbytes,
            reaches(old(self), nbytes as int) ==> {
                &&& nskipped == at_most(nbytes as int, old(self).rest().len())
                &&& final(self).broken() == old(self).broken()
                &&& final(self).faults() == old(self).faults()
            },
            final(self).rest() == back(old(self).rest(), nbytes as int),
            final(self).beyond() == old(self).beyond(),
            final(self).whole() == old(self).whole(),
            final(self).extent() == old(self).extent(),
    ;
}

/// A stream whose position can be set. A position past the end is allowed: nothing is read there.
pub trait Seek: Read {
    /// Where the next byte is read from.
    open spec fn position(&self) -> nat {
        0
    }

    fn stream_position(&mut self) -> (pos: u64)
        ensures
            pos == old(self).position(),
            *final(self) == *old(self),
            old(self).rest() == back(old(self).whole(), old(self).position() as int),
    ;

    /// The length that the stream states.
    fn stream_len(&mut self) -> (len: u64)
        ensures
            len == old(self).extent(),
            old(self).whole().len() <= len,
            old(self).broken() == (old(self).whole().len() < len),
            *final(self) == *old(self),
    ;

    /// Moves the position. Where nothing can be read there, that shows when it is read.
    fn seek(&mut self, pos: u64)
        ensures
            final(self).whole() == old(self).whole(),
            final(self).extent() == old(self).extent(),
            final(self).broken() == old(self).broken(),
            final(self).position() == pos,
            final(self).rest() == back(old(self).whole(), pos as int),
            final(self).beyond() == old(self).beyond(),
            final(self).faults() == old(self).faults(),
    ;
}

/// A stream over bytes in memory.
pub struct Cursor {
    data: Vec<u8>,
    pos: u64,
}

impl Cursor {
    pub fn new(data: Vec<u8>) -> (cursor: Cursor)
        ensures
            cursor.whole() == data@,
            cursor.position() == 0,
            cursor.rest() == data@,
            cursor.beyond() == Seq::<Seq<u8>>::empty(),
            !cursor.broken(),
            cursor.faults() == Seq::<bool>::empty(),
            cursor.extent() == data@.len(),
    {
        let cursor = Cursor { data, pos: 0 };
        assert(back(data@, 0) =~= data@);
        cursor
    }
}

impl Read for Cursor {
    closed spec fn rest(&self) -> Seq<u8> {
        back(self.data@, self.pos as int)
    }

    closed spec fn beyond(&self) -> Seq<Seq<u8>> {
        Seq::empty()
    }

    closed spec fn whole(&self) -> Seq<u8> {
        self.data@
    }

    closed spec fn extent(&self) -> nat {
        self.data@.len()
    }

    open spec fn faults(&self) -> Seq<bool> {
        Seq::empty()
    }

    open spec fn broken(&self) -> bool {
        false
    }

    fn read(&mut self, n: usize) -> (bytes: Option<Vec<u8>>) {
        let len: usize = self.data.len();
        let start: usize = if self.pos < len as u64 {
            self.pos as usize
        } else {
            len
        };
        let stop: usize = if n < len - start {
            start + n
        } else {
            len
        };
        let mut bytes: Vec<u8> = Vec::new();
        bytes.extend_from_slice(&self.data[start..stop]);
        assert(bytes@ =~= front(self.rest(), n as int));
        let ghost before = self.rest();
        if start < stop {
            self.pos = stop as u64;
        }
        assert(self.rest() =~= back(before, n as int));
        Some(bytes)
    }
}

impl Seek for Cursor {
    closed spec fn position(&self) -> nat {
        self.pos as nat
    }

    fn stream_position(&mut self) -> (pos: u64) {
        self.pos
    }

    fn stream_len(&mut self) -> (len: u64) {
        self.data.len() as u64
    }

    fn seek(&mut self, pos: u64) {
        self.pos = pos;
    }
}

/// A stream that is lent, and goes on from where it was left once it is back.
pub struct Lent<'a, R>(pub &'a mut R);

impl<'a, R: Read> Read for Lent<'a, R> {
    open spec fn rest(&self) -> Seq<u8> {
        (*self.0).rest()
    }

    open spec fn beyond(&self) -> Seq<Seq<u8>> {
        (*self.0).beyond()
    }

    open spec fn whole(&self) -> Seq<u8> {
        (*self.0).whole()
    }

    open spec fn extent(&self) -> nat {
        (*self.0).extent()
    }

    open spec fn faults(&self) -> Seq<bool> {
        (*self.0).faults()
    }

    open spec fn broken(&self) -> bool {
        (*self.0).broken()
    }

    fn read(&mut self, n: usize) -> (bytes: Option<Vec<u8>>) {
        self.0.read(n)
    }
}

/// Skips in a stream by moving its position.
pub struct Skippable<T>(pub T);

impl<T: Read> Read for Skippable<T> {
    open spec fn rest(&self) -> Seq<u8> {
        self.0.rest()
    }

    open spec fn beyond(&self) -> Seq<Seq<u8>> {
        self.0.beyond()
    }

    open spec fn whole(&self) -> Seq<u8> {
        self.0.whole()
    }

    open spec fn extent(&self) -> nat {
        self.0.extent()
    }

    open spec fn faults(&self) -> Seq<bool> {
        self.0.faults()
    }

    open spec fn broken(&self) -> bool {
        self.0.broken()
    }

    fn read(&mut self, n: usize) -> (bytes: Option<Vec<u8>>) {
        self.0.read(n)
    }
}

impl<T: Seek> Skip for Skippable<T> {
    fn skip(&mut self, nbytes: u64) -> (nskipped: u64) {
        let start: u64 = self.0.stream_position();
        let end: u64 = self.0.stream_len();
        if start >= end {
            assert(back(self.rest(), nbytes as int) =~= self.rest());
            return 0;
        }
        let n: u64 = if nbytes < end - start {
            nbytes
        } else {
            end - start
        };
        self.0.seek(start + n);
        assert(self.rest() =~= back(old(self).rest(), nbytes as int));
        n
    }
}

/// Numbers and windows read off any stream.
pub trait ReadExt: Read {
    /// The next `n` bytes, fewer only where the stream ends before. `None`, and nothing left, where it fails
    /// before.
    fn read_up_to(&mut self, n: usize) -> (bytes: Option<Vec<u8>>)
        ensures
            match bytes {
                Some(bytes) => bytes@ == front(old(self).rest(), n as int) && reaches(old(self), n as int),
                None => !reaches(old(self), n as int),
            },
            final(self).rest() == back(old(self).rest(), n as int),
            final(self).broken() == old(self).broken(),
            final(self).beyond() == old(self).beyond(),
            final(self).faults() == old(self).faults(),
            final(self).whole() == old(self).whole(),
            final(self).extent() == old(self).extent(),
    ;

    /// Exactly `n` bytes. `None`, and nothing left, where the stream ends or fails before.
    fn read_exact(&mut self, n: usize) -> (bytes: Option<Vec<u8>>)
        ensures
            match bytes {
                Some(bs) => bs@ == old(self).rest().take(n as int) && n <= old(self).rest().len(),
                None => old(self).rest().len() < n,
            },
            final(self).rest() == back(old(self).rest(), n as int),
            final(self).beyond() == old(self).beyond(),
            final(self).faults() == old(self).faults(),
            final(self).whole() == old(self).whole(),
            final(self).broken() == old(self).broken(),
            final(self).extent() == old(self).extent(),
    ;

    fn read_u16_le(&mut self) -> (v: Option<u16>)
        ensures
            match v {
                Some(x) => x == le16(old(self).rest()) && 2 <= old(self).rest().len(),
                None => old(self).rest().len() < 2,
            },
            final(self).rest() == back(old(self).rest(), 2),
            final(self).beyond() == old(self).beyond(),
            final(self).faults() == old(self).faults(),
            final(self).whole() == old(self).whole(),
            final(self).broken() == old(self).broken(),
            final(self).extent() == old(self).extent(),
    ;

    fn read_u32_le(&mut self) -> (v: Option<u32>)
        ensures
            match v {
                Some(x) => x == le32(old(self).rest()) && 4 <= old(self).rest().len(),
                None => old(self).rest().len() < 4,
            },
            final(self).rest() == back(old(self).rest(), 4),
            final(self).beyond() == old(self).beyond(),
            final(self).faults() == old(self).faults(),
            final(self).whole() == old(self).whole(),
            final(self).broken() == old(self).broken(),
            final(self).extent() == old(self).extent(),
    ;

    /// The first `count` bytes of the stream.
    fn take(self, count: u64) -> (t: Take<Self>)
        ensures
            t.rest() == front(self.rest(), count as int),
            t.beyond() == seq![back(self.rest(), count as int)] + self.beyond(),
            t.broken() == !reaches(&self, count as int),
            t.faults() == seq![self.broken()] + self.faults(),
    ;

    /// The first `count` bytes of the stream, to be used up with [`TakeExact::skip_rest`].
    fn take_exact(self, count: u64) -> (t: TakeExact<Self>)
        ensures
            t.rest() == front(self.rest(), count as int),
            t.beyond() == seq![back(self.rest(), count as int)] + self.beyond(),
            t.broken() == !reaches(&self, count as int),
            t.faults() == seq![self.broken()] + self.faults(),
    ;
}

impl<R: Read> ReadExt for R {
    fn read_up_to(&mut self, n: usize) -> (bytes: Option<Vec<u8>>) {
        let bytes: Vec<u8> = match self.read(n) {
            Some(bytes) => bytes,
            None => return None,
        };
        if bytes.len() < n {
            assert(self.rest() =~= back(self.rest(), 1));
            match self.read(1) {
                Some(_) => {},
                None => return None,
            }
        }
        Some(bytes)
    }

    fn read_exact(&mut self, n: usize) -> (bytes: Option<Vec<u8>>) {
        match self.read(n) {
            Some(bytes) => if bytes.len() == n {
                Some(bytes)
            } else {
                None
            },
            None => None,
        }
    }

    fn read_u16_le(&mut self) -> (v: Option<u16>) {
        match self.read_exact(2) {
            Some(bs) => Some(bs[0] as u16 + 0x100 * bs[1] as u16),
            None => None,
        }
    }

    fn read_u32_le(&mut self) -> (v: Option<u32>) {
        match self.read_exact(4) {
            Some(bs) => Some(
                bs[0] as u32 + 0x100 * bs[1] as u32 + 0x1_0000 * bs[2] as u32 + 0x100_0000
                    * bs[3] as u32,
            ),
            None => None,
        }
    }

    fn take(self, count: u64) -> (t: Take<Self>) {
        Take::new(count, self)
    }

    fn take_exact(self, count: u64) -> (t: TakeExact<Self>) {
        TakeExact::new(count, self)
    }
}

/// A window of `count` bytes, after which the stream goes on. Whoever opens one closes it with
/// [`TakeExact::skip_rest`], which hands back the stream positioned behind the window.
#[must_use]
pub struct TakeExact<R> {
    pub reader: R,
    pub count: u64,
}

impl<R> TakeExact<R> {
    pub fn new(count: u64, reader: R) -> (t: Self)
        ensures
            t.count == count,
            t.reader == reader,
    {
        TakeExact { reader, count }
    }
}

impl<R: Skip> TakeExact<R> {
    /// Skips what is left of the window. Returns how many bytes that was, and the stream behind it.
    pub fn skip_rest(self) -> (r: (u64, R))
        ensures
            !self.broken() ==> {
                &&& r.0 == self.rest().len()
                &&& r.1.broken() == self.faults()[0]
                &&& r.1.faults() == self.faults().skip(1)
            },
            self.rest().len() <= r.0 <= self.count,
            r.1.rest() == self.beyond()[0],
            r.1.beyond() == self.beyond().skip(1),
    {
        assert(self.beyond().skip(1) =~= self.reader.beyond());
        assert(self.faults().skip(1) =~= self.reader.faults());
        let mut reader = self.reader;
        let nskipped: u64 = reader.skip(self.count);
        (nskipped, reader)
    }
}

impl<R: Read> Read for TakeExact<R> {
    open spec fn rest(&self) -> Seq<u8> {
        front(self.reader.rest(), self.count as int)
    }

    open spec fn beyond(&self) -> Seq<Seq<u8>> {
        seq![back(self.reader.rest(), self.count as int)] + self.reader.beyond()
    }

    open spec fn whole(&self) -> Seq<u8> {
        self.reader.whole()
    }

    open spec fn extent(&self) -> nat {
        self.reader.extent()
    }

    open spec fn faults(&self) -> Seq<bool> {
        seq![self.reader.broken()] + self.reader.faults()
    }

    open spec fn broken(&self) -> bool {
        !reaches(&self.reader, self.count as int)
    }

    fn read(&mut self, n: usize) -> (bytes: Option<Vec<u8>>) {
        let max_n: usize = if self.count < n as u64 {
            self.count as usize
        } else {
            n
        };
        let bytes: Option<Vec<u8>> = self.reader.read(max_n);
        match &bytes {
            Some(bytes) => {
                self.count = self.count - bytes.len() as u64;
                assert(bytes@ =~= front(old(self).rest(), n as int));
            },
            None => {},
        }
        assert(self.rest() =~= back(old(self).rest(), n as int));
        assert(back(self.reader.rest(), self.count as int) =~= back(old(self).reader.rest(), old(self).count as int));
        bytes
    }
}

impl<R: Skip> Skip for TakeExact<R> {
    fn skip(&mut self, nbytes: u64) -> (nskipped: u64) {
        let max_n: u64 = if self.count < nbytes {
            self.count
        } else {
            nbytes
        };
        let nskipped: u64 = self.reader.skip(max_n);
        self.count = self.count - nskipped;
        assert(self.rest() =~= back(old(self).rest(), nbytes as int));
        assert(back(self.reader.rest(), self.count as int) =~= back(old(self).reader.rest(), old(self).count as int));
        nskipped
    }
}

/// A window of at most `count` bytes.
pub struct Take<R> {
    pub reader: R,
    pub count: u64,
}

impl<R> Take<R> {
    pub fn new(count: u64, reader: R) -> (t: Self)
        ensures
            t.count == count,
            t.reader == reader,
    {
        Take { reader, count }
    }
}

impl<R: Skip> Take<R> {
    /// Skips what is left of the window. Returns how many bytes that was.
    pub fn skip_rest(self) -> (nskipped: u64)
        ensures
            !self.broken() ==> nskipped == self.rest().len(),
            self.rest().len() <= nskipped <= self.count,
    {
        let mut reader = self.reader;
        reader.skip(self.count)
    }
}

impl<R: Read> Read for Take<R> {
    open spec fn rest(&self) -> Seq<u8> {
        front(self.reader.rest(), self.count as int)
    }

    open spec fn beyond(&self) -> Seq<Seq<u8>> {
        seq![back(self.reader.rest(), self.count as int)] + self.reader.beyond()
    }

    open spec fn whole(&self) -> Seq<u8> {
        self.reader.whole()
    }

    open spec fn extent(&self) -> nat {
        self.reader.extent()
    }

    open spec fn faults(&self) -> Seq<bool> {
        seq![self.reader.broken()] + self.reader.faults()
    }

    open spec fn broken(&self) -> bool {
        !reaches(&self.reader, self.count as int)
    }

    fn read(&mut self, n: usize) -> (bytes: Option<Vec<u8>>) {
        let max_n: usize = if self.count < n as u64 {
            self.count as usize
        } else {
            n
        };
        let bytes: Option<Vec<u8>> = self.reader.read(max_n);
        match &bytes {
            Some(bytes) => {
                self.count = self.count - bytes.len() as u64;
                assert(bytes@ =~= front(old(self).rest(), n as int));
            },
            None => {},
        }
        assert(self.rest() =~= back(old(self).rest(), n as int));
        assert(back(self.reader.rest(), self.count as int) =~= back(old(self).reader.rest(), old(self).count as int));
        bytes
    }
}

impl<R: Skip> Skip for Take<R> {
    fn skip(&mut self, nbytes: u64) -> (nskipped: u64) {
        let max_n: u64 = if self.count < nbytes {
            self.count
        } else {
            nbytes
        };
        let nskipped: u64 = self.reader.skip(max_n);
        self.count = self.count - nskipped;
        assert(self.rest() =~= back(old(self).rest(), nbytes as int));
        assert(back(self.reader.rest(), self.count as int) =~= back(old(self).reader.rest(), old(self).count as int));
        nskipped
    }
}

} // verus!
