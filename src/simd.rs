use vstd::prelude::*;

use crate::util::{is_ident, spec_is_ident, spec_lower, to_lower};

verus! {

/// `i` is the first position of `h` whose byte is `needle`.
pub open spec fn first_of(h: Seq<u8>, needle: u8, r: Option<usize>) -> bool {
    match r {
        Some(i) => i < h.len() && h[i as int] == needle && forall|j: int|
            0 <= j < i ==> h[j] != needle,
        None => forall|j: int| 0 <= j < h.len() ==> h[j] != needle,
    }
}

/// Whether `c` is one of the four bytes of `n`.
pub open spec fn one_of4(c: u8, n: Seq<u8>) -> bool {
    c == n[0] || c == n[1] || c == n[2] || c == n[3]
}

/// Finds the first position of `needle` in `haystack`.
pub fn find(haystack: &[u8], needle: u8) -> (r: Option<usize>)
    ensures
        first_of(haystack@, needle, r),
{
    let mut i: usize = 0;
    while i < haystack.len()
        invariant
            i <= haystack@.len(),
            forall|j: int| 0 <= j < i ==> haystack@[j] != needle,
        decreases haystack@.len() - i,
    {
        if haystack[i] == needle {
            return Some(i);
        }
        i += 1;
    }
    None
}

/// Finds the first position in `haystack` that holds any of the four bytes of `needle`.
pub fn find4(haystack: &[u8], needle: [u8; 4]) -> (r: Option<usize>)
    ensures
        match r {
            Some(i) => i < haystack@.len() && one_of4(haystack@[i as int], needle@) && forall|j: int|
                0 <= j < i ==> !one_of4(#[trigger] haystack@[j], needle@),
            None => forall|j: int| 0 <= j < haystack@.len() ==> !one_of4(#[trigger] haystack@[j], needle@),
        },
{
    let mut i: usize = 0;
    while i < haystack.len()
        invariant
            i <= haystack@.len(),
            forall|j: int| 0 <= j < i ==> !one_of4(#[trigger] haystack@[j], needle@),
        decreases haystack@.len() - i,
    {
        let c = haystack[i];
        if c == needle[0] || c == needle[1] || c == needle[2] || c == needle[3] {
            return Some(i);
        }
        i += 1;
    }
    None
}

/// Finds the first position in `haystack` whose byte is not an identifier byte.
pub fn search_non_ident(haystack: &[u8]) -> (r: Option<usize>)
    ensures
        match r {
            Some(i) => i < haystack@.len() && !spec_is_ident(haystack@[i as int]) && forall|j: int|
                0 <= j < i ==> spec_is_ident(#[trigger] haystack@[j]),
            None => forall|j: int| 0 <= j < haystack@.len() ==> spec_is_ident(#[trigger] haystack@[j]),
        },
{
    let mut i: usize = 0;
    while i < haystack.len()
        invariant
            i <= haystack@.len(),
            forall|j: int| 0 <= j < i ==> spec_is_ident(#[trigger] haystack@[j]),
        decreases haystack@.len() - i,
    {
        if !is_ident(haystack[i]) {
            return Some(i);
        }
        i += 1;
    }
    None
}

/// Returns whether `input` has exactly the length of `fixed` and equals it once both are
/// ASCII lower-cased.
pub fn matches_case_insensitive<const N: usize>(input: &[u8], fixed: [u8; N]) -> (r: bool)
    ensures
        r == (input@.len() == N && forall|i: int|
            0 <= i < N ==> spec_lower(#[trigger] input@[i]) == spec_lower(fixed@[i])),
{
    if input.len() != N {
        return false;
    }
    let mut i: usize = 0;
    while i < N
        invariant
            input@.len() == N,
            fixed@.len() == N,
            i <= N,
            forall|k: int| 0 <= k < i ==> spec_lower(#[trigger] input@[k]) == spec_lower(fixed@[k]),
        decreases N - i,
    {
        if to_lower(input[i]) != to_lower(fixed[i]) {
            return false;
        }
        i += 1;
    }
    true
}

} // verus!
