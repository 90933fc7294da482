//! Facts about decoding that hold for every input.

use vstd::prelude::*;
use crate::matrix::{decode_emme, file_len, MatrixError, MAGIC};
use crate::reader::{decompressed, gunzip_of, le_word};
use crate::util::has_suffix;

verus! {

/// Two byte sequences that agree on four bytes read the same word there.
proof fn lemma_same_bytes_same_word(s: Seq<u8>, t: Seq<u8>, at: int)
    requires
        0 <= at,
        at + 4 <= s.len(),
        at + 4 <= t.len(),
        forall|j: int| at <= j < at + 4 ==> s[j] == t[j],
    ensures
        le_word(s, at) == le_word(t, at),
{
}

/// A word equal to the magic number fixes its four bytes.
proof fn lemma_magic_bytes(s: Seq<u8>)
    requires
        4 <= s.len(),
        le_word(s, 0) == MAGIC,
    ensures
        s[0] == 0xB2,
        s[1] == 0xF1,
        s[2] == 0xD4,
        s[3] == 0xC4,
{
    let v = s[0] as int + s[1] as int * 256 + s[2] as int * 65536 + s[3] as int * 16777216;
    assert(0 <= v < 0x1_0000_0000);
    assert(v == MAGIC);
}

/// A decoded matrix has exactly one payload value per cell, and its two
/// label arrays give its numbers of columns and rows.
pub proof fn lemma_decoded_shape(s: Seq<u8>)
    requires
        decode_emme(s) is Ok,
    ensures
        decode_emme(s)->Ok_0.wf(),
        decode_emme(s)->Ok_0.data.len() == decode_emme(s)->Ok_0.rows * decode_emme(s)->Ok_0.cols,
        decode_emme(s)->Ok_0.cols == le_word(s, 16),
        decode_emme(s)->Ok_0.rows == le_word(s, 20),
{
    let m = le_word(s, 16) as nat;
    let n = le_word(s, 20) as nat;
    assert(m * n == n * m) by (nonlinear_arith);
}

/// Changing any of the first four bytes of a decodable file makes it fail
/// with an invalid header.
pub proof fn lemma_magic_mutation(s: Seq<u8>, i: int, b: u8)
    requires
        decode_emme(s) is Ok,
        0 <= i < 4,
        b != s[i],
    ensures
        decode_emme(s.update(i, b)) == Err::<crate::matrix::MatrixModel, MatrixError>(
            MatrixError::InvalidHeader,
        ),
{
    let t = s.update(i, b);
    lemma_magic_bytes(s);
    if le_word(t, 0) == MAGIC {
        lemma_magic_bytes(t);
    }
}

/// Setting the dimension count of a decodable file to anything but 2 makes
/// it fail with invalid dimensions.
pub proof fn lemma_dimension_mutation(s: Seq<u8>, t: Seq<u8>)
    requires
        decode_emme(s) is Ok,
        t.len() == s.len(),
        forall|j: int| 0 <= j < t.len() && !(12 <= j < 16) ==> t[j] == s[j],
        le_word(t, 12) != 2,
    ensures
        decode_emme(t) == Err::<crate::matrix::MatrixModel, MatrixError>(
            MatrixError::InvalidDimensions,
        ),
{
    lemma_same_bytes_same_word(s, t, 0);
}

/// A file exactly as long as its layout asks for fails to decode, as
/// truncated, once any suffix of it is removed.
pub proof fn lemma_truncation(s: Seq<u8>, k: nat)
    requires
        decode_emme(s) is Ok,
        s.len() == file_len(decode_emme(s)->Ok_0.cols, decode_emme(s)->Ok_0.rows),
        k < s.len(),
    ensures
        decode_emme(s.take(k as int)) == Err::<crate::matrix::MatrixModel, MatrixError>(
            MatrixError::Truncated,
        ),
{
    let t = s.take(k as int);
    if k >= 4 {
        lemma_same_bytes_same_word(s, t, 0);
    }
    if k >= 16 {
        lemma_same_bytes_same_word(s, t, 12);
    }
    if k >= 24 {
        lemma_same_bytes_same_word(s, t, 16);
        lemma_same_bytes_same_word(s, t, 20);
    }
}

/// A gzip file and the plain file it decompresses to read as the same
/// bytes, so they decode to the same matrix.
pub proof fn lemma_gzip_matches_plain(
    gz_name: Seq<char>,
    plain_name: Seq<char>,
    compressed: Seq<u8>,
    plain: Seq<u8>,
)
    requires
        has_suffix(gz_name, ".gz"@),
        !has_suffix(plain_name, ".gz"@),
        gunzip_of(compressed) == Some(plain),
    ensures
        decompressed(gz_name, compressed) == decompressed(plain_name, plain),
        decompressed(gz_name, compressed) == Some(plain),
{
}

} // verus!
