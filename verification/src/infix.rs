//! Contiguous occurrence of one sequence inside another, and the search for
//! it on the bytes of two strings.

use vstd::prelude::*;

verus! {

/// `needle` stands in `haystack` at position `at`.
pub open spec fn occurs_at<T>(needle: Seq<T>, haystack: Seq<T>, at: int) -> bool {
    &&& 0 <= at
    &&& at + needle.len() <= haystack.len()
    &&& haystack.subrange(at, at + needle.len()) == needle
}

/// `needle` stands somewhere in `haystack` as a contiguous run.
pub open spec fn is_infix<T>(needle: Seq<T>, haystack: Seq<T>) -> bool {
    exists|at: int| occurs_at(needle, haystack, at)
}

/// Compares `needle` with the bytes of `haystack` that start at `at`.
fn bytes_occur_at(needle: &[u8], haystack: &[u8], at: usize) -> (found: bool)
    requires
        at + needle@.len() <= haystack@.len(),
    ensures
        found == occurs_at(needle@, haystack@, at as int),
{
    let m: usize = needle.len();
    let n: usize = haystack.len();
    let mut k: usize = 0;
    while k < m
        invariant
            m == needle@.len(),
            n == haystack@.len(),
            at + m <= n,
            k <= m,
            forall|j: int| 0 <= j < k ==> haystack@[at + j] == needle@[j],
        decreases m - k,
    {
        if haystack[at + k] != needle[k] {
            proof {
                assert(haystack@.subrange(at as int, at + m)[k as int] == haystack@[at + k]);
            }
            return false;
        }
        k += 1;
    }
    proof {
        assert(haystack@.subrange(at as int, at + m) =~= needle@);
    }
    true
}

/// Whether `needle` occurs in `haystack`, found by trying each position in
/// turn.
pub fn bytes_contain(haystack: &[u8], needle: &[u8]) -> (found: bool)
    ensures
        found == is_infix(needle@, haystack@),
{
    let n: usize = haystack.len();
    let m: usize = needle.len();
    if m > n {
        return false;
    }
    let last: usize = n - m;
    let mut at: usize = 0;
    loop
        invariant
            n == haystack@.len(),
            m == needle@.len(),
            last == n - m,
            at <= last,
            forall|j: int| 0 <= j < at ==> !occurs_at(needle@, haystack@, j),
        decreases last - at,
    {
        if bytes_occur_at(needle, haystack, at) {
            return true;
        }
        if at == last {
            return false;
        }
        at += 1;
    }
}

} // verus!
