//! Line counting over the bytes of a file.
use vstd::prelude::*;

verus! {

/// The newline byte.
pub const NEWLINE: u8 = 10;

/// Number of newline bytes in `b`.
pub open spec fn newline_count(b: Seq<u8>) -> nat
    decreases b.len(),
{
    if b.len() == 0 {
        0
    } else {
        newline_count(b.drop_last()) + if b.last() == NEWLINE { 1nat } else { 0nat }
    }
}

/// Number of lines in `b`: every maximal run of bytes not holding a newline,
/// whether or not a newline ends it. An empty input has no lines; a final
/// newline does not open a new, empty line.
pub open spec fn line_total(b: Seq<u8>) -> nat {
    if b.len() > 0 && b.last() != NEWLINE {
        newline_count(b) + 1
    } else {
        newline_count(b)
    }
}

/// Counts the lines of a file's contents, as `line_total` defines them.
pub fn count_lines(bytes: &[u8]) -> (r: usize)
    ensures
        r as nat == line_total(bytes@),
{
    let n = bytes.len();
    let mut count: usize = 0;
    let mut i: usize = 0;
    while i < n
        invariant
            n == bytes@.len(),
            i <= n,
            count <= i,
            i > 0 && bytes@[i - 1] != NEWLINE ==> count < i,
            count as nat == newline_count(bytes@.subrange(0, i as int)),
        decreases n - i,
    {
        assert(bytes@.subrange(0, i as int + 1).drop_last() =~= bytes@.subrange(0, i as int));
        if bytes[i] == NEWLINE {
            count = count + 1;
        }
        i = i + 1;
    }
    assert(bytes@.subrange(0, n as int) =~= bytes@);
    if n > 0 && bytes[n - 1] != NEWLINE {
        count + 1
    } else {
        count
    }
}

} // verus!
