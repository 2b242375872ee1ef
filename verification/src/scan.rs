//! Byte searches of the `memchr` crate, with their contracts.

use vstd::prelude::*;

verus! {

/// The offsets of every byte of `haystack` that equals `first` or `second`.
///
/// Trusted: `memchr::memchr2_iter` yields exactly those offsets, in ascending
/// order.
#[verifier::external_body]
pub(crate) fn memchr2_positions(first: u8, second: u8, haystack: &[u8]) -> (positions: Vec<usize>)
    ensures
        forall|i: int, j: int|
            0 <= i < j < positions@.len() ==> positions@[i] < positions@[j],
        forall|i: int|
            0 <= i < positions@.len() ==> (#[trigger] positions@[i]) < haystack@.len() && (
            haystack@[positions@[i] as int] == first || haystack@[positions@[i] as int] == second),
        forall|k: int|
            0 <= k < haystack@.len() && (#[trigger] haystack@[k] == first || haystack@[k]
                == second) ==> positions@.contains(k as usize),
{
    memchr::memchr2_iter(first, second, haystack).collect()
}

/// `needle` stands in `haystack` at offset `i`.
pub open spec fn occurs_at(haystack: Seq<u8>, needle: Seq<u8>, i: int) -> bool {
    0 <= i && i + needle.len() <= haystack.len() && haystack.subrange(i, i + needle.len())
        == needle
}

/// The first occurrence of `needle` in `haystack`.
///
/// Trusted: `memchr::memmem::Finder::find` returns the offset of the first
/// occurrence, or none where there is no occurrence.
#[verifier::external_body]
pub(crate) fn memmem_find(needle: &[u8], haystack: &[u8]) -> (found: Option<usize>)
    ensures
        found matches Some(i) ==> occurs_at(haystack@, needle@, i as int) && forall|j: int|
            0 <= j < i ==> !#[trigger] occurs_at(haystack@, needle@, j),
        found is None ==> forall|j: int| !#[trigger] occurs_at(haystack@, needle@, j),
{
    memchr::memmem::Finder::new(needle).find(haystack)
}

/// The first byte of `haystack` that equals `needle`.
///
/// Trusted: `memchr::memchr` returns its offset, or none.
#[verifier::external_body]
pub(crate) fn memchr_find(needle: u8, haystack: &[u8]) -> (found: Option<usize>)
    ensures
        found matches Some(i) ==> i < haystack@.len() && haystack@[i as int] == needle
            && forall|j: int| 0 <= j < i ==> #[trigger] haystack@[j] != needle,
        found is None ==> forall|j: int|
            0 <= j < haystack@.len() ==> #[trigger] haystack@[j] != needle,
{
    memchr::memchr(needle, haystack)
}

/// The first byte of `haystack` that equals `first` or `second`.
///
/// Trusted: `memchr::memchr2` returns its offset, or none.
#[verifier::external_body]
pub(crate) fn memchr2_find(first: u8, second: u8, haystack: &[u8]) -> (found: Option<usize>)
    ensures
        found matches Some(i) ==> i < haystack@.len() && (haystack@[i as int] == first
            || haystack@[i as int] == second) && forall|j: int|
            0 <= j < i ==> #[trigger] haystack@[j] != first && haystack@[j] != second,
        found is None ==> forall|j: int|
            0 <= j < haystack@.len() ==> #[trigger] haystack@[j] != first && haystack@[j]
                != second,
{
    memchr::memchr2(first, second, haystack)
}

} // verus!
