//! Small helpers on integers and names.

use vstd::prelude::*;

verus! {

/// The smaller of two sizes.
pub fn min(a: usize, b: usize) -> (r: usize)
    ensures
        r <= a,
        r <= b,
        r == a || r == b,
{
    if a < b {
        a
    } else {
        b
    }
}

/// `name` ends with `suffix`, compared character by character.
pub open spec fn has_suffix(name: Seq<char>, suffix: Seq<char>) -> bool {
    suffix.len() <= name.len() && name.subrange(name.len() - suffix.len(), name.len() as int)
        == suffix
}

/// Whether `file_name` ends with `suffix`.
pub fn ends_with(file_name: &str, suffix: &str) -> (r: bool)
    ensures
        r == has_suffix(file_name@, suffix@),
{
    let n = file_name.unicode_len();
    let k = suffix.unicode_len();
    if k > n {
        return false;
    }
    let start = n - k;
    let mut i: usize = 0;
    while i < k
        invariant
            n == file_name@.len(),
            k == suffix@.len(),
            start == n - k,
            i <= k,
            forall|j: int| 0 <= j < i ==> file_name@[start + j] == suffix@[j],
        decreases k - i,
    {
        if file_name.get_char(start + i) != suffix.get_char(i) {
            assert(file_name@.subrange(start as int, n as int)[i as int] != suffix@[i as int]);
            return false;
        }
        i = i + 1;
    }
    assert(file_name@.subrange(start as int, n as int) =~= suffix@);
    true
}

/// Whether a file named `name` holds a matrix by its name: its extension is
/// `mtx`, or it is `gz` after a stem that ends in `mtx`. A name that starts
/// with its only dot has no extension.
pub open spec fn names_matrix_file(name: Seq<char>) -> bool {
    (has_suffix(name, ".mtx"@) && name.len() > 4) || has_suffix(name, "mtx.gz"@)
}

/// Whether the file name `name` (the last component of a path) is that of
/// a matrix file, plain or compressed.
pub fn is_matrix_file_name(name: &str) -> (r: bool)
    ensures
        r == names_matrix_file(name@),
{
    if ends_with(name, ".mtx") && name.unicode_len() > 4 {
        return true;
    }
    ends_with(name, "mtx.gz")
}

} // verus!
