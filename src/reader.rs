//! One byte source over plain or gzip-compressed file contents.
//!
//! A gzip file is decompressed once, when the reader is made; afterwards both
//! variants read the same way. Only seeking tells them apart: a compressed
//! stream is not randomly addressable, so the gzip variant skips forward only.

use vstd::prelude::*;
use byteorder::ByteOrder;
use std::io::Read;
use crate::util::{min, ends_with, has_suffix};

verus! {

/// The 32-bit value of the four bytes of `s` from `at`, least significant first.
pub open spec fn le_word(s: Seq<u8>, at: int) -> u32 {
    (s[at] as int + s[at + 1] as int * 256 + s[at + 2] as int * 65536 + s[at + 3] as int
        * 16777216) as u32
}

/// The first `n` little-endian 32-bit words of `s`.
pub open spec fn le_words(s: Seq<u8>, n: nat) -> Seq<u32> {
    Seq::new(n, |k: int| le_word(s, 4 * k))
}

/// Relies on byteorder's `LittleEndian::read_u32`, given `b[at..]`: the value
/// of its first four bytes, least significant first (`u32::from_le_bytes`);
/// it panics on fewer than four.
#[verifier::external_body]
fn read_le_u32(b: &[u8], at: usize) -> (r: u32)
    requires
        at + 4 <= b@.len(),
    ensures
        r == le_word(b@, at as int),
{
    byteorder::LittleEndian::read_u32(&b[at..])
}

/// What a gzip stream decompresses to, or `None` where it is corrupt.
pub uninterp spec fn gunzip_of(compressed: Seq<u8>) -> Option<Seq<u8>>;

/// Relies on flate2's `read::GzDecoder`, read to its end: the decompressed
/// bytes, or an error where the stream is corrupt. Reading from a byte slice,
/// the outcome depends on those bytes alone.
#[verifier::external_body]
fn gunzip(compressed: &[u8]) -> (r: Option<Vec<u8>>)
    ensures
        r is None <==> gunzip_of(compressed@) is None,
        r matches Some(v) ==> gunzip_of(compressed@) == Some(v@),
{
    let mut out: Vec<u8> = Vec::new();
    match flate2::read::GzDecoder::new(compressed).read_to_end(&mut out) {
        Ok(_) => Some(out),
        Err(_) => None,
    }
}

/// Why a read or a seek failed.
#[derive(Debug, Clone, Copy, PartialEq, Eq, Structural)]
pub enum ReadError {
    /// Fewer bytes remain than were asked for.
    UnexpectedEof,
    /// The gzip stream could not be decompressed.
    CorruptStream,
    /// Absolute, backward or end-relative seek on a compressed source.
    UnsupportedSeek,
    /// The seek target is negative or does not fit in 64 bits.
    InvalidSeek,
}

/// A seek target, as in `std::io::SeekFrom`.
#[derive(Debug, Clone, Copy, PartialEq, Eq, Structural)]
pub enum SeekFrom {
    Start(u64),
    End(i64),
    Current(i64),
}

/// Bytes in memory and a read position, which may lie past their end.
pub struct Source {
    bytes: Vec<u8>,
    pos: u64,
}

impl Source {
    pub closed spec fn content(&self) -> Seq<u8> {
        self.bytes@
    }

    pub closed spec fn position(&self) -> nat {
        self.pos as nat
    }

    /// The bytes not read yet.
    pub open spec fn rest(&self) -> Seq<u8> {
        if self.position() < self.content().len() {
            self.content().subrange(self.position() as int, self.content().len() as int)
        } else {
            Seq::empty()
        }
    }

    pub fn new(bytes: Vec<u8>) -> (r: Source)
        ensures
            r.content() == bytes@,
            r.position() == 0,
    {
        Source { bytes, pos: 0 }
    }

    /// Number of bytes not read yet.
    fn remaining(&self) -> (r: usize)
        ensures
            r == self.rest().len(),
            r <= self.bytes@.len(),
            self.bytes@.len() <= usize::MAX,
            r > 0 ==> self.pos + r == self.bytes@.len(),
    {
        if self.pos < self.bytes.len() as u64 {
            self.bytes.len() - self.pos as usize
        } else {
            0
        }
    }

    /// Fills the front of `buf` with as many bytes as remain, and returns how many.
    pub fn read(&mut self, buf: &mut [u8]) -> (r: usize)
        ensures
            r == min_nat(old(buf)@.len(), old(self).rest().len()),
            final(buf)@ == old(self).rest().subrange(0, r as int) + old(buf)@.subrange(
                r as int,
                old(buf)@.len() as int,
            ),
            final(self).content() == old(self).content(),
            final(self).position() == old(self).position() + r,
    {
        let rem = self.remaining();
        let n = min(buf.len(), rem);
        let start: usize = self.bytes.len() - rem;
        let ghost rest = self.rest();
        let mut i: usize = 0;
        while i < n
            invariant
                n <= buf@.len(),
                n <= rest.len(),
                rest == old(self).rest(),
                start + n <= self.bytes.len(),
                n > 0 ==> start == self.pos,
                *self == *old(self),
                i <= n,
                buf@.len() == old(buf)@.len(),
                forall|j: int| 0 <= j < i ==> buf@[j] == rest[j],
                forall|j: int| i <= j < buf@.len() ==> buf@[j] == old(buf)@[j],
            decreases n - i,
        {
            buf[i] = self.bytes[start + i];
            i = i + 1;
        }
        self.pos = self.pos + n as u64;
        assert(buf@ =~= rest.subrange(0, n as int) + old(buf)@.subrange(
            n as int,
            old(buf)@.len() as int,
        ));
        n
    }

    /// Reads one little-endian 32-bit word; fails, moving nothing, where
    /// fewer than four bytes remain.
    pub fn read_word(&mut self) -> (r: Result<u32, ReadError>)
        ensures
            r is Ok <==> 4 <= old(self).rest().len(),
            r matches Ok(w) ==> w == le_word(old(self).rest(), 0) && final(self).position()
                == old(self).position() + 4,
            r is Err ==> r == Err::<u32, ReadError>(ReadError::UnexpectedEof) && *final(self)
                == *old(self),
            final(self).content() == old(self).content(),
    {
        let rem = self.remaining();
        if rem < 4 {
            return Err(ReadError::UnexpectedEof);
        }
        let start: usize = self.bytes.len() - rem;
        let w = read_le_u32(self.bytes.as_slice(), start);
        self.pos = self.pos + 4;
        Ok(w)
    }

    /// Reads `size` little-endian 32-bit words into a new vector; fails,
    /// moving nothing, where fewer than `4 * size` bytes remain.
    pub fn read_into_vector(&mut self, size: usize) -> (r: Result<Vec<u32>, ReadError>)
        ensures
            r is Ok <==> 4 * size <= old(self).rest().len(),
            r matches Ok(v) ==> v@ == le_words(old(self).rest(), size as nat)
                && final(self).position() == old(self).position() + 4 * size,
            r is Err ==> r == Err::<Vec<u32>, ReadError>(ReadError::UnexpectedEof) && *final(self)
                == *old(self),
            final(self).content() == old(self).content(),
    {
        let rem = self.remaining();
        if size > rem / 4 {
            assert(4 * size > rem) by (nonlinear_arith)
                requires
                    size > rem / 4,
            ;
            return Err(ReadError::UnexpectedEof);
        }
        assert(4 * size <= rem) by (nonlinear_arith)
            requires
                size <= rem / 4,
        ;
        let start: usize = self.bytes.len() - rem;
        let ghost rest = self.rest();
        let mut v: Vec<u32> = Vec::with_capacity(size);
        let mut k: usize = 0;
        while k < size
            invariant
                *self == *old(self),
                rest == old(self).rest(),
                start + rem == self.bytes@.len(),
                rem == rest.len(),
                self.bytes@.len() <= usize::MAX,
                4 * size <= rem,
                k <= size,
                forall|j: int| 0 <= j < rem ==> rest[j] == self.bytes@[start + j],
                v@ == le_words(rest, k as nat),
            decreases size - k,
        {
            assert(4 * k + 4 <= 4 * size) by (nonlinear_arith)
                requires
                    k < size,
            ;
            let w = read_le_u32(self.bytes.as_slice(), start + 4 * k);
            v.push(w);
            k = k + 1;
            assert(v@ =~= le_words(rest, k as nat));
        }
        self.pos = self.pos + (4 * size) as u64;
        Ok(v)
    }

    /// Moves the read position as `std::io::Seek` does on an in-memory
    /// source; positions past the end are allowed.
    pub fn seek(&mut self, from: SeekFrom) -> (r: Result<u64, ReadError>)
        ensures
            r is Ok <==> 0 <= seek_target(old(self).position(), old(self).content().len(), from)
                <= u64::MAX,
            r matches Ok(p) ==> p == seek_target(
                old(self).position(),
                old(self).content().len(),
                from,
            ) && final(self).position() == p,
            r is Err ==> r == Err::<u64, ReadError>(ReadError::InvalidSeek) && *final(self)
                == *old(self),
            final(self).content() == old(self).content(),
    {
        let target: i128 = match from {
            SeekFrom::Start(n) => n as i128,
            SeekFrom::End(o) => self.bytes.len() as i128 + o as i128,
            SeekFrom::Current(o) => self.pos as i128 + o as i128,
        };
        if target < 0 || target > u64::MAX as i128 {
            return Err(ReadError::InvalidSeek);
        }
        self.pos = target as u64;
        Ok(self.pos)
    }

    /// Skips up to `n` bytes, stopping at the end of the content, and
    /// returns the new position.
    pub fn skip_forward(&mut self, n: u64) -> (r: u64)
        ensures
            final(self).content() == old(self).content(),
            final(self).position() == old(self).position() + min_nat(
                n as nat,
                old(self).rest().len(),
            ),
            r == final(self).position(),
    {
        let rem = self.remaining();
        let step: u64 = if (rem as u64) < n {
            rem as u64
        } else {
            n
        };
        assert(step > 0 ==> self.pos + step <= self.bytes@.len());
        self.pos = self.pos + step;
        self.pos
    }
}

/// Reading `k` bytes leaves the rest without its first `k` bytes.
pub proof fn lemma_rest_after_read(a: Source, b: Source, k: nat)
    requires
        a.content() == b.content(),
        b.position() == a.position() + k,
        k <= a.rest().len(),
    ensures
        b.rest() == a.rest().skip(k as int),
{
    assert(b.rest() =~= a.rest().skip(k as int));
}

/// Where a seek asks to go, whether or not that is a valid position.
pub open spec fn seek_target(pos: nat, len: nat, from: SeekFrom) -> int {
    match from {
        SeekFrom::Start(n) => n as int,
        SeekFrom::End(o) => len + o,
        SeekFrom::Current(o) => pos + o,
    }
}

pub open spec fn min_nat(a: nat, b: nat) -> nat {
    if a < b {
        a
    } else {
        b
    }
}

/// The bytes that a file named `file_name` holding `file_bytes` reads as:
/// decompressed where the name ends in `.gz`.
pub open spec fn decompressed(file_name: Seq<char>, file_bytes: Seq<u8>) -> Option<Seq<u8>> {
    if has_suffix(file_name, ".gz"@) {
        gunzip_of(file_bytes)
    } else {
        Some(file_bytes)
    }
}

/// A byte source over file contents, plain or gzip-compressed.
pub enum Reader {
    Plain(Source),
    Gzip(Source),
}

impl Reader {
    /// The source that either variant reads from.
    pub open spec fn source(&self) -> Source {
        match self {
            Reader::Plain(s) => *s,
            Reader::Gzip(s) => *s,
        }
    }

    pub open spec fn is_gzip(&self) -> bool {
        self is Gzip
    }

    /// The decompressed bytes not read yet.
    pub open spec fn rest(&self) -> Seq<u8> {
        self.source().rest()
    }

    /// Reads `file_bytes` as they are.
    pub fn plain(file_bytes: Vec<u8>) -> (r: Reader)
        ensures
            r is Plain,
            r.source().content() == file_bytes@,
            r.source().position() == 0,
    {
        Reader::Plain(Source::new(file_bytes))
    }

    /// Reads what the gzip stream `compressed` decompresses to.
    pub fn gzip(compressed: &[u8]) -> (r: Result<Reader, ReadError>)
        ensures
            r is Ok <==> gunzip_of(compressed@) is Some,
            r is Err ==> r == Err::<Reader, ReadError>(ReadError::CorruptStream),
            r matches Ok(rd) ==> rd is Gzip && Some(rd.source().content()) == gunzip_of(
                compressed@,
            ) && rd.source().position() == 0,
    {
        match gunzip(compressed) {
            Some(bytes) => Ok(Reader::Gzip(Source::new(bytes))),
            None => Err(ReadError::CorruptStream),
        }
    }

    /// Chooses the variant by the file name: a name ending in `.gz` is
    /// decompressed, any other is read as it is.
    pub fn open(file_name: &str, file_bytes: Vec<u8>) -> (r: Result<Reader, ReadError>)
        ensures
            r is Ok <==> decompressed(file_name@, file_bytes@) is Some,
            r is Err ==> r == Err::<Reader, ReadError>(ReadError::CorruptStream),
            r matches Ok(rd) ==> Some(rd.source().content()) == decompressed(
                file_name@,
                file_bytes@,
            ) && rd.source().position() == 0 && (rd is Gzip <==> has_suffix(
                file_name@,
                ".gz"@,
            )),
    {
        if ends_with(file_name, ".gz") {
            Reader::gzip(file_bytes.as_slice())
        } else {
            Ok(Reader::plain(file_bytes))
        }
    }
    /// Number of bytes not read yet.
    pub fn remaining(&self) -> (r: usize)
        ensures
            r == self.rest().len(),
    {
        match self {
            Reader::Plain(s) => s.remaining(),
            Reader::Gzip(s) => s.remaining(),
        }
    }

    /// Fills the front of `buf` with as many bytes as remain, and returns
    /// how many; 0 at the end of the stream.
    pub fn read(&mut self, buf: &mut [u8]) -> (r: usize)
        ensures
            r == min_nat(old(buf)@.len(), old(self).rest().len()),
            final(buf)@ == old(self).rest().subrange(0, r as int) + old(buf)@.subrange(
                r as int,
                old(buf)@.len() as int,
            ),
            final(self).is_gzip() == old(self).is_gzip(),
            final(self).source().content() == old(self).source().content(),
            final(self).source().position() == old(self).source().position() + r,
    {
        match self {
            Reader::Plain(s) => s.read(buf),
            Reader::Gzip(s) => s.read(buf),
        }
    }

    /// Reads one little-endian 32-bit word.
    pub fn read_u32(&mut self) -> (r: Result<u32, ReadError>)
        ensures
            r is Ok <==> 4 <= old(self).rest().len(),
            r matches Ok(w) ==> w == le_word(old(self).rest(), 0)
                && final(self).source().position() == old(self).source().position() + 4,
            r is Err ==> r == Err::<u32, ReadError>(ReadError::UnexpectedEof) && *final(self)
                == *old(self),
            final(self).is_gzip() == old(self).is_gzip(),
            final(self).source().content() == old(self).source().content(),
    {
        match self {
            Reader::Plain(s) => s.read_word(),
            Reader::Gzip(s) => s.read_word(),
        }
    }

    /// Reads `size` little-endian 32-bit words into a new vector, all of
    /// them or, where fewer than `4 * size` bytes remain, none.
    pub fn read_into_vector(&mut self, size: usize) -> (r: Result<Vec<u32>, ReadError>)
        ensures
            r is Ok <==> 4 * size <= old(self).rest().len(),
            r matches Ok(v) ==> v@ == le_words(old(self).rest(), size as nat)
                && final(self).source().position() == old(self).source().position() + 4 * size,
            r is Err ==> r == Err::<Vec<u32>, ReadError>(ReadError::UnexpectedEof) && *final(
                self) == *old(self),
            final(self).is_gzip() == old(self).is_gzip(),
            final(self).source().content() == old(self).source().content(),
    {
        match self {
            Reader::Plain(s) => s.read_into_vector(size),
            Reader::Gzip(s) => s.read_into_vector(size),
        }
    }

    /// Moves the read position. A plain source seeks as `std::io::Seek`
    /// does. A compressed one only skips forward from where it stands,
    /// stopping at the end of the stream; any other seek on it fails.
    /// Returns the new position.
    pub fn seek(&mut self, from: SeekFrom) -> (r: Result<u64, ReadError>)
        ensures
            final(self).is_gzip() == old(self).is_gzip(),
            final(self).source().content() == old(self).source().content(),
            !old(self).is_gzip() ==> r == seek_outcome(
                old(self).source().position(),
                old(self).source().content().len(),
                from,
            ),
            old(self).is_gzip() ==> r == skip_outcome(
                old(self).source().position(),
                old(self).rest().len(),
                from,
            ),
            r matches Ok(p) ==> final(self).source().position() == p,
            r is Err ==> *final(self) == *old(self),
    {
        match self {
            Reader::Plain(s) => s.seek(from),
            Reader::Gzip(s) => match from {
                SeekFrom::Current(n) => {
                    if n < 0 {
                        Err(ReadError::UnsupportedSeek)
                    } else {
                        Ok(s.skip_forward(n as u64))
                    }
                },
                _ => Err(ReadError::UnsupportedSeek),
            },
        }
    }
}

/// What a seek on a plain source returns.
pub open spec fn seek_outcome(pos: nat, len: nat, from: SeekFrom) -> Result<u64, ReadError> {
    let t = seek_target(pos, len, from);
    if 0 <= t <= u64::MAX {
        Ok(t as u64)
    } else {
        Err(ReadError::InvalidSeek)
    }
}

/// What a seek on a compressed source returns, with `left` bytes unread.
pub open spec fn skip_outcome(pos: nat, left: nat, from: SeekFrom) -> Result<u64, ReadError> {
    match from {
        SeekFrom::Current(n) => if n >= 0 {
            Ok((pos + min_nat(n as nat, left)) as u64)
        } else {
            Err(ReadError::UnsupportedSeek)
        },
        _ => Err(ReadError::UnsupportedSeek),
    }
}

} // verus!
