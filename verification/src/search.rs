//! Searching a document for text, chunk by chunk.

use crate::document::Document;
use crate::piece_table::{chunk_views, joined, lemma_joined_concat};
use crate::scan::{memchr2_find, memchr_find, memmem_find, occurs_at};
use std::ops::Range;
use vstd::prelude::*;
use vstd::slice::slice_subrange;
use vstd::utf8::encode_utf8;

verus! {

// ---------------------------------------------------------------------------
// Model
// ---------------------------------------------------------------------------

/// An ASCII letter in lower case; other bytes as they are.
pub open spec fn lower(byte: u8) -> u8 {
    if 65 <= byte <= 90 {
        (byte + 32) as u8
    } else {
        byte
    }
}

pub open spec fn upper(byte: u8) -> u8 {
    if 97 <= byte <= 122 {
        (byte - 32) as u8
    } else {
        byte
    }
}

/// A byte as it is compared.
pub open spec fn folded(byte: u8, match_case: bool) -> u8 {
    if match_case {
        byte
    } else {
        lower(byte)
    }
}

pub open spec fn folded_seq(bytes: Seq<u8>, match_case: bool) -> Seq<u8> {
    Seq::new(bytes.len(), |i: int| folded(bytes[i], match_case))
}

/// What is searched for.
pub open spec fn needle_of(query: Seq<char>, match_case: bool) -> Seq<u8> {
    folded_seq(encode_utf8(query), match_case)
}

/// `needle` matches the bytes at offset `i`.
pub open spec fn matches_at(bytes: Seq<u8>, needle: Seq<u8>, match_case: bool, i: int) -> bool {
    0 <= i && i + needle.len() <= bytes.len() && folded_seq(
        bytes.subrange(i, i + needle.len()),
        match_case,
    ) == needle
}

/// The first match at or after `from`.
pub open spec fn first_match(bytes: Seq<u8>, needle: Seq<u8>, match_case: bool, from: int) -> Option<
    int,
>
    decreases bytes.len() - from + 1,
{
    if from + needle.len() > bytes.len() {
        None
    } else if matches_at(bytes, needle, match_case, from) {
        Some(from)
    } else {
        first_match(bytes, needle, match_case, from + 1)
    }
}

/// The last match before `before`.
pub open spec fn last_match(bytes: Seq<u8>, needle: Seq<u8>, match_case: bool, before: int) -> Option<
    int,
>
    decreases before,
{
    if before <= 0 {
        None
    } else if matches_at(bytes, needle, match_case, before - 1) {
        Some(before - 1)
    } else {
        last_match(bytes, needle, match_case, before - 1)
    }
}

/// Matches from the front, each behind the one before.
pub open spec fn greedy_matches(
    bytes: Seq<u8>,
    needle: Seq<u8>,
    match_case: bool,
    from: int,
) -> Seq<int>
    decreases bytes.len() - from,
{
    if from < 0 || needle.len() == 0 || first_match(bytes, needle, match_case, from) is None {
        Seq::empty()
    } else {
        let i = first_match(bytes, needle, match_case, from)->0;
        if i < from || i + needle.len() > bytes.len() {
            Seq::empty()
        } else {
            seq![i] + greedy_matches(bytes, needle, match_case, i + needle.len())
        }
    }
}

pub open spec fn suffix(s: Seq<u8>, k: int) -> Seq<u8> {
    if s.len() <= k {
        s
    } else {
        s.skip(s.len() - k)
    }
}

pub open spec fn prefix(s: Seq<u8>, k: int) -> Seq<u8> {
    if s.len() <= k {
        s
    } else {
        s.take(k)
    }
}

pub open spec fn moved(s: Seq<int>, by: int) -> Seq<int> {
    Seq::new(s.len(), |i: int| s[i] + by)
}

/// Where the next match may begin, after a search from `from` on.
pub open spec fn next_start(found: Seq<int>, len: int, from: int) -> int {
    if found.len() == 0 {
        from
    } else {
        found.last() + len
    }
}

// ---------------------------------------------------------------------------
// Lemmas
// ---------------------------------------------------------------------------

pub proof fn lemma_first_match(bytes: Seq<u8>, needle: Seq<u8>, match_case: bool, from: int)
    requires
        from >= 0,
    ensures
        first_match(bytes, needle, match_case, from) matches Some(i) ==> from <= i && matches_at(
            bytes,
            needle,
            match_case,
            i,
        ) && forall|j: int| from <= j < i ==> !#[trigger] matches_at(bytes, needle, match_case, j),
        first_match(bytes, needle, match_case, from) is None ==> forall|j: int|
            from <= j ==> !#[trigger] matches_at(bytes, needle, match_case, j),
    decreases bytes.len() - from + 1,
{
    if from + needle.len() <= bytes.len() && !matches_at(bytes, needle, match_case, from) {
        lemma_first_match(bytes, needle, match_case, from + 1);
    }
}

/// The first match is the one before which there is none.
pub proof fn lemma_first_match_is(
    bytes: Seq<u8>,
    needle: Seq<u8>,
    match_case: bool,
    from: int,
    found: Option<int>,
)
    requires
        from >= 0,
        found matches Some(i) ==> from <= i && matches_at(bytes, needle, match_case, i)
            && forall|j: int| from <= j < i ==> !#[trigger] matches_at(
            bytes,
            needle,
            match_case,
            j,
        ),
        found is None ==> forall|j: int|
            from <= j ==> !#[trigger] matches_at(bytes, needle, match_case, j),
    ensures
        first_match(bytes, needle, match_case, from) == found,
{
    lemma_first_match(bytes, needle, match_case, from);
    match (first_match(bytes, needle, match_case, from), found) {
        (Some(a), Some(b)) => {
            if a < b {
                assert(matches_at(bytes, needle, match_case, a));
            }
            if b < a {
                assert(matches_at(bytes, needle, match_case, b));
            }
        },
        (Some(a), None) => {
            assert(matches_at(bytes, needle, match_case, a));
        },
        (None, Some(b)) => {
            assert(matches_at(bytes, needle, match_case, b));
        },
        (None, None) => {},
    }
}

pub proof fn lemma_last_match(bytes: Seq<u8>, needle: Seq<u8>, match_case: bool, before: int)
    ensures
        last_match(bytes, needle, match_case, before) matches Some(i) ==> 0 <= i < before
            && matches_at(bytes, needle, match_case, i) && forall|j: int|
            i < j < before ==> !#[trigger] matches_at(bytes, needle, match_case, j),
        last_match(bytes, needle, match_case, before) is None ==> forall|j: int|
            j < before ==> !#[trigger] matches_at(bytes, needle, match_case, j),
    decreases before,
{
    if before > 0 && !matches_at(bytes, needle, match_case, before - 1) {
        lemma_last_match(bytes, needle, match_case, before - 1);
    }
}

pub proof fn lemma_last_match_is(
    bytes: Seq<u8>,
    needle: Seq<u8>,
    match_case: bool,
    before: int,
    found: Option<int>,
)
    requires
        found matches Some(i) ==> 0 <= i < before && matches_at(bytes, needle, match_case, i)
            && forall|j: int| i < j < before ==> !#[trigger] matches_at(
            bytes,
            needle,
            match_case,
            j,
        ),
        found is None ==> forall|j: int|
            j < before ==> !#[trigger] matches_at(bytes, needle, match_case, j),
    ensures
        last_match(bytes, needle, match_case, before) == found,
{
    lemma_last_match(bytes, needle, match_case, before);
    match (last_match(bytes, needle, match_case, before), found) {
        (Some(a), Some(b)) => {
            if a < b {
                assert(matches_at(bytes, needle, match_case, b));
            }
            if b < a {
                assert(matches_at(bytes, needle, match_case, a));
            }
        },
        (Some(a), None) => {
            assert(matches_at(bytes, needle, match_case, a));
        },
        (None, Some(b)) => {
            assert(matches_at(bytes, needle, match_case, b));
        },
        (None, None) => {},
    }
}

/// A part of the text has the matches of the text that lie within it.
pub proof fn lemma_matches_in_part(
    bytes: Seq<u8>,
    needle: Seq<u8>,
    match_case: bool,
    from: int,
    to: int,
    i: int,
)
    requires
        0 <= from <= to <= bytes.len(),
        0 <= i,
        i + needle.len() <= to - from,
    ensures
        matches_at(bytes.subrange(from, to), needle, match_case, i) == matches_at(
            bytes,
            needle,
            match_case,
            from + i,
        ),
{
    assert(bytes.subrange(from, to).subrange(i, i + needle.len()) =~= bytes.subrange(
        from + i,
        from + i + needle.len(),
    ));
}

pub proof fn lemma_suffix_step(a: Seq<u8>, b: Seq<u8>, k: int)
    requires
        k >= 0,
    ensures
        suffix(suffix(a, k) + b, k) == suffix(a + b, k),
{
    assert(suffix(suffix(a, k) + b, k) =~= suffix(a + b, k));
}

pub proof fn lemma_prefix_step(a: Seq<u8>, b: Seq<u8>, k: int)
    requires
        k >= 0,
    ensures
        prefix(a + prefix(b, k), k) == prefix(a + b, k),
{
    assert(prefix(a + prefix(b, k), k) =~= prefix(a + b, k));
}

// ---------------------------------------------------------------------------
// Searching one slice
// ---------------------------------------------------------------------------

pub fn to_lower(byte: u8) -> (folded: u8)
    ensures
        folded == lower(byte),
{
    if 65 <= byte && byte <= 90 {
        byte + 32
    } else {
        byte
    }
}

fn to_upper(byte: u8) -> (folded: u8)
    ensures
        folded == upper(byte),
{
    if 97 <= byte && byte <= 122 {
        byte - 32
    } else {
        byte
    }
}

/// What is searched for: the bytes of the query, in lower case unless case
/// matters.
pub fn search_needle(query: &str, match_case: bool) -> (needle: Vec<u8>)
    ensures
        needle@ == needle_of(query@, match_case),
{
    let bytes = query.as_bytes();
    let mut needle: Vec<u8> = Vec::new();
    let mut i: usize = 0;
    while i < bytes.len()
        invariant
            i <= bytes@.len(),
            bytes@ == encode_utf8(query@),
            needle@ == needle_of(query@, match_case).take(i as int),
        decreases bytes@.len() - i,
    {
        if match_case {
            needle.push(bytes[i]);
        } else {
            needle.push(to_lower(bytes[i]));
        }
        i += 1;
        assert(needle@ =~= needle_of(query@, match_case).take(i as int));
    }
    assert(needle@ =~= needle_of(query@, match_case));
    needle
}

/// Whether the needle stands at `index`, which leaves room for it.
fn matches_here(bytes: &[u8], needle: &[u8], index: usize) -> (matches: bool)
    requires
        index + needle@.len() <= bytes@.len(),
    ensures
        matches == matches_at(bytes@, needle@, false, index as int),
{
    let ghost part = bytes@.subrange(index as int, index + needle@.len());
    let len: usize = bytes.len();
    let mut k: usize = 0;
    while k < needle.len()
        invariant
            k <= needle@.len(),
            index + needle@.len() <= bytes@.len() <= usize::MAX,
            part == bytes@.subrange(index as int, index + needle@.len()),
            forall|j: int| 0 <= j < k ==> lower(#[trigger] part[j]) == needle@[j],
        decreases needle@.len() - k,
    {
        assert(part[k as int] == bytes@[index + k]);
        if to_lower(bytes[index + k]) != needle[k] {
            proof {
                if folded_seq(part, false) == needle@ {
                    assert(folded_seq(part, false)[k as int] == needle@[k as int]);
                }
            }
            return false;
        }
        k += 1;
    }
    assert(folded_seq(part, false) =~= needle@);
    true
}

fn find_ascii_case_insensitive_from(bytes: &[u8], needle: &[u8], start_at: usize) -> (found: Option<
    usize,
>)
    requires
        needle@.len() > 0,
        forall|i: int| 0 <= i < needle@.len() ==> lower(#[trigger] needle@[i]) == needle@[i],
    ensures
        opt_int(found) == first_match(bytes@, needle@, false, start_at as int),
{
    if needle.len() > bytes.len() {
        return None;
    }
    let max_start: usize = bytes.len() - needle.len();
    let first: u8 = needle[0];
    let first_upper: u8 = to_upper(first);
    let mut offset: usize = start_at;
    let len: usize = bytes.len();
    while offset <= max_start
        invariant
            0 < needle@.len() <= bytes@.len(),
            len == bytes@.len(),
            max_start == bytes@.len() - needle@.len(),
            first == needle@[0],
            lower(first) == first,
            first_upper == upper(first),
            start_at <= offset,
            forall|j: int|
                start_at <= j < offset ==> !#[trigger] matches_at(bytes@, needle@, false, j),
        decreases max_start + 1 - offset,
    {
        let rest = slice_subrange(bytes, offset, bytes.len());
        let relative = if first == first_upper {
            memchr_find(first, rest)
        } else {
            memchr2_find(first, first_upper, rest)
        };
        proof {
            // A match begins with the first byte in either case.
            assert forall|j: int| matches_at(bytes@, needle@, false, j) implies bytes@[j] == first
                || bytes@[j] == first_upper by {
                let part = bytes@.subrange(j, j + needle@.len());
                assert(folded_seq(part, false)[0] == needle@[0]);
                assert(part[0] == bytes@[j]);
            }
        }
        let index: usize = match relative {
            Some(relative) => offset + relative,
            None => {
                proof {
                    assert forall|j: int| start_at <= j implies !#[trigger] matches_at(
                        bytes@,
                        needle@,
                        false,
                        j,
                    ) by {
                        if matches_at(bytes@, needle@, false, j) && j >= offset {
                            assert(rest@[j - offset] == bytes@[j]);
                        }
                    }
                    lemma_first_match_is(bytes@, needle@, false, start_at as int, None);
                }
                return None;
            },
        };
        proof {
            assert forall|j: int| start_at <= j < index implies !#[trigger] matches_at(
                bytes@,
                needle@,
                false,
                j,
            ) by {
                if matches_at(bytes@, needle@, false, j) && j >= offset {
                    assert(rest@[j - offset] == bytes@[j]);
                }
            }
        }
        if index > max_start {
            proof {
                assert forall|j: int| start_at <= j implies !#[trigger] matches_at(
                    bytes@,
                    needle@,
                    false,
                    j,
                ) by {}
                lemma_first_match_is(bytes@, needle@, false, start_at as int, None);
            }
            return None;
        }
        if matches_here(bytes, needle, index) {
            proof {
                lemma_first_match_is(
                    bytes@,
                    needle@,
                    false,
                    start_at as int,
                    Some(index as int),
                );
            }
            return Some(index);
        }
        offset = index + 1;
    }
    proof {
        assert forall|j: int| start_at <= j implies !#[trigger] matches_at(
            bytes@,
            needle@,
            false,
            j,
        ) by {}
        lemma_first_match_is(bytes@, needle@, false, start_at as int, None);
    }
    None
}

pub open spec fn opt_int(value: Option<usize>) -> Option<int> {
    match value {
        Some(value) => Some(value as int),
        None => None,
    }
}

/// A needle as [`search_needle`] makes it.
pub open spec fn is_needle(needle: Seq<u8>, match_case: bool) -> bool {
    needle.len() > 0 && (match_case || forall|i: int|
        0 <= i < needle.len() ==> lower(#[trigger] needle[i]) == needle[i])
}

/// The first match of `needle` at or after `start_at`.
pub fn find_bytes_from(bytes: &[u8], needle: &[u8], match_case: bool, start_at: usize) -> (found:
    Option<usize>)
    requires
        is_needle(needle@, match_case),
    ensures
        opt_int(found) == first_match(bytes@, needle@, match_case, start_at as int),
        found matches Some(i) ==> i + needle@.len() <= bytes@.len(),
{
    proof {
        lemma_first_match(bytes@, needle@, match_case, start_at as int);
    }
    if needle.len() > bytes.len() || start_at > bytes.len() - needle.len() {
        return None;
    }
    if match_case {
        let rest = slice_subrange(bytes, start_at, bytes.len());
        let found = memmem_find(needle, rest);
        let ghost len = bytes@.len() as int;
        proof {
            assert forall|j: int| start_at <= j implies #[trigger] matches_at(
                bytes@,
                needle@,
                true,
                j,
            ) == occurs_at(rest@, needle@, j - start_at) by {
                if j + needle@.len() <= len {
                    let part = bytes@.subrange(j, j + needle@.len());
                    assert(folded_seq(part, true) =~= part);
                    assert(rest@.subrange(j - start_at, j - start_at + needle@.len()) =~= part);
                }
            }
        }
        match found {
            Some(relative) => {
                proof {
                    let i = start_at + relative;
                    assert(matches_at(bytes@, needle@, true, i) == occurs_at(
                        rest@,
                        needle@,
                        i - start_at,
                    ));
                    assert forall|j: int| start_at <= j < i implies !#[trigger] matches_at(
                        bytes@,
                        needle@,
                        true,
                        j,
                    ) by {
                        assert(!occurs_at(rest@, needle@, j - start_at));
                    }
                    lemma_first_match_is(bytes@, needle@, true, start_at as int, Some(i));
                }
                Some(start_at + relative)
            },
            None => {
                proof {
                    assert forall|j: int| start_at <= j implies !#[trigger] matches_at(
                        bytes@,
                        needle@,
                        true,
                        j,
                    ) by {
                        assert(!occurs_at(rest@, needle@, j - start_at));
                    }
                    lemma_first_match_is(bytes@, needle@, true, start_at as int, None);
                }
                None
            },
        }
    } else {
        find_ascii_case_insensitive_from(bytes, needle, start_at)
    }
}

/// The last match of `needle` that begins before `before_relative`.
pub fn find_last_bytes_before(
    bytes: &[u8],
    needle: &[u8],
    match_case: bool,
    before_relative: usize,
) -> (found: Option<usize>)
    requires
        is_needle(needle@, match_case),
    ensures
        opt_int(found) == last_match(bytes@, needle@, match_case, before_relative as int),
        found matches Some(i) ==> i + needle@.len() <= bytes@.len(),
{
    let mut last: Option<usize> = None;
    let mut offset: usize = 0;
    let len: usize = bytes.len();
    while offset < before_relative
        invariant
            is_needle(needle@, match_case),
            len == bytes@.len(),
            last matches Some(i) ==> i < before_relative && i + 1 == offset && matches_at(
                bytes@,
                needle@,
                match_case,
                i as int,
            ),
            last is None ==> offset == 0,
        decreases before_relative - offset,
    {
        proof {
            lemma_first_match(bytes@, needle@, match_case, offset as int);
        }
        let ghost from = offset as int;
        let ghost earlier = last;
        match find_bytes_from(bytes, needle, match_case, offset) {
            Some(index) => {
                if index >= before_relative {
                    proof {
                        lemma_last_match_from(
                            bytes@,
                            needle@,
                            match_case,
                            before_relative as int,
                            from,
                            opt_int(earlier),
                        );
                    }
                    return last;
                }
                last = Some(index);
                offset = index + 1;
            },
            None => {
                proof {
                    lemma_last_match_from(
                        bytes@,
                        needle@,
                        match_case,
                        before_relative as int,
                        from,
                        opt_int(earlier),
                    );
                }
                return last;
            },
        }
    }
    proof {
        lemma_last_match_from(
            bytes@,
            needle@,
            match_case,
            before_relative as int,
            offset as int,
            opt_int(last),
        );
    }
    last
}

proof fn lemma_last_match_from(
    bytes: Seq<u8>,
    needle: Seq<u8>,
    match_case: bool,
    before: int,
    from: int,
    found: Option<int>,
)
    requires
        forall|j: int| from <= j < before ==> !#[trigger] matches_at(bytes, needle, match_case, j),
        found matches Some(i) ==> 0 <= i < before && i + 1 == from && matches_at(
            bytes,
            needle,
            match_case,
            i,
        ),
        found is None ==> from == 0,
    ensures
        last_match(bytes, needle, match_case, before) == found,
{
    match found {
        Some(i) => {
            assert forall|j: int| i < j < before implies !#[trigger] matches_at(
                bytes,
                needle,
                match_case,
                j,
            ) by {}
        },
        None => {},
    }
    lemma_last_match_is(bytes, needle, match_case, before, found);
}

// ---------------------------------------------------------------------------
// Searching chunk by chunk
// ---------------------------------------------------------------------------

/// Keeps the last `overlap` bytes of what has been read.
fn update_tail(tail: &mut Vec<u8>, chunk: &[u8], overlap: usize)
    requires
        old(tail)@.len() <= overlap,
    ensures
        final(tail)@ == suffix(old(tail)@ + chunk@, overlap as int),
        final(tail)@.len() <= overlap,
{
    let len: usize = chunk.len();
    if len >= overlap {
        let part = slice_subrange(chunk, len - overlap, len);
        let ghost before = tail@;
        let mut next: Vec<u8> = Vec::new();
        next.extend_from_slice(part);
        *tail = next;
        assert(tail@ =~= suffix(before + chunk@, overlap as int));
    } else {
        let ghost before = tail@;
        let room: usize = overlap - len;
        let held: usize = tail.len();
        let skip: usize = if held > room {
            held - room
        } else {
            0
        };
        let mut next: Vec<u8> = Vec::new();
        next.extend_from_slice(slice_subrange(tail.as_slice(), skip, held));
        next.extend_from_slice(chunk);
        *tail = next;
        assert(tail@ =~= suffix(before + chunk@, overlap as int));
    }
}

/// Keeps the first `overlap` bytes of what follows.
fn update_head(head: &mut Vec<u8>, chunk: &[u8], overlap: usize)
    requires
        old(head)@.len() <= overlap,
    ensures
        final(head)@ == prefix(chunk@ + old(head)@, overlap as int),
        final(head)@.len() <= overlap,
{
    let len: usize = chunk.len();
    let ghost before = head@;
    let mut next: Vec<u8> = Vec::new();
    if len >= overlap {
        next.extend_from_slice(slice_subrange(chunk, 0, overlap));
    } else {
        let room: usize = overlap - len;
        let keep: usize = if head.len() < room {
            head.len()
        } else {
            room
        };
        next.extend_from_slice(chunk);
        next.extend_from_slice(slice_subrange(head.as_slice(), 0, keep));
    }
    *head = next;
    assert(head@ =~= prefix(chunk@ + before, overlap as int));
}

/// The bytes on both sides of the border between what was read and `chunk`, as
/// far as a match across it can reach.
fn boundary_after(tail: &Vec<u8>, chunk: &[u8], overlap: usize) -> (boundary: Vec<u8>)
    ensures
        boundary@ == tail@ + prefix(chunk@, overlap as int),
{
    let len: usize = if overlap < chunk.len() {
        overlap
    } else {
        chunk.len()
    };
    let mut boundary: Vec<u8> = Vec::new();
    boundary.extend_from_slice(tail.as_slice());
    boundary.extend_from_slice(slice_subrange(chunk, 0, len));
    assert(boundary@ =~= tail@ + prefix(chunk@, overlap as int));
    boundary
}

fn boundary_before(chunk: &[u8], head: &Vec<u8>, overlap: usize) -> (boundary: Vec<u8>)
    ensures
        boundary@ == suffix(chunk@, overlap as int) + head@,
{
    let start: usize = if overlap < chunk.len() {
        chunk.len() - overlap
    } else {
        0
    };
    let mut boundary: Vec<u8> = Vec::new();
    boundary.extend_from_slice(slice_subrange(chunk, start, chunk.len()));
    boundary.extend_from_slice(head.as_slice());
    assert(boundary@ =~= suffix(chunk@, overlap as int) + head@);
    boundary
}

/// The matches across the border between `done` and `chunk` are those of the
/// bytes around it.
proof fn lemma_boundary_matches(
    bytes: Seq<u8>,
    done: Seq<u8>,
    chunk: Seq<u8>,
    needle: Seq<u8>,
    match_case: bool,
    i: int,
)
    requires
        needle.len() > 0,
        done.len() + chunk.len() <= bytes.len(),
        bytes.take((done.len() + chunk.len()) as int) == done + chunk,
        0 <= i,
    ensures
        ({
            let tail = suffix(done, needle.len() - 1);
            let part = tail + prefix(chunk, needle.len() - 1);
            let start = done.len() - tail.len();
            &&& i < done.len() < i + needle.len() <= done.len() + chunk.len() && matches_at(
                bytes,
                needle,
                match_case,
                i,
            ) ==> i >= start && matches_at(part, needle, match_case, i - start)
            &&& i >= start && matches_at(part, needle, match_case, i - start) ==> matches_at(
                bytes,
                needle,
                match_case,
                i,
            ) && i < done.len() && i + needle.len() <= done.len() + chunk.len()
        }),
{
    let n = needle.len() as int;
    let tail = suffix(done, n - 1);
    let part = tail + prefix(chunk, n - 1);
    let start = done.len() - tail.len();
    let both = done + chunk;
    assert(part =~= both.subrange(start, start + part.len()));
    assert(bytes.subrange(start, start + part.len()) =~= part) by {
        assert forall|k: int| 0 <= k < part.len() implies bytes.subrange(
            start,
            start + part.len(),
        )[k] == part[k] by {
            assert(bytes[start + k] == both[start + k]);
        }
    }
    if i >= start && i - start + n <= part.len() {
        lemma_matches_in_part(bytes, needle, match_case, start, start + part.len(), i - start);
    }
}

proof fn lemma_chunk_matches(
    bytes: Seq<u8>,
    done: Seq<u8>,
    chunk: Seq<u8>,
    needle: Seq<u8>,
    match_case: bool,
    i: int,
)
    requires
        done.len() + chunk.len() <= bytes.len(),
        bytes.take((done.len() + chunk.len()) as int) == done + chunk,
        done.len() <= i,
        i + needle.len() <= done.len() + chunk.len(),
    ensures
        matches_at(chunk, needle, match_case, i - done.len()) == matches_at(
            bytes,
            needle,
            match_case,
            i,
        ),
{
    let both = done + chunk;
    let to = (done.len() + chunk.len()) as int;
    assert(chunk =~= bytes.subrange(done.len() as int, to)) by {
        assert forall|k: int| 0 <= k < chunk.len() implies bytes.subrange(
            done.len() as int,
            to,
        )[k] == chunk[k] by {
            assert(bytes.take(to)[done.len() + k] == both[done.len() + k]);
        }
    }
    lemma_matches_in_part(bytes, needle, match_case, done.len() as int, to, i - done.len());
}

/// What has been read, and the next chunk, are the front of the whole text.
proof fn lemma_chunk_front(chunks: Seq<Seq<u8>>, i: int)
    requires
        0 <= i < chunks.len(),
    ensures
        ({
            let done = joined(chunks.take(i));
            let bytes = joined(chunks);
            &&& joined(chunks.take(i + 1)) == done + chunks[i]
            &&& done.len() + chunks[i].len() <= bytes.len()
            &&& bytes.take((done.len() + chunks[i].len()) as int) == done + chunks[i]
        }),
{
    assert(chunks.take(i + 1).drop_last() =~= chunks.take(i));
    assert(chunks =~= chunks.take(i + 1) + chunks.skip(i + 1));
    lemma_joined_concat(chunks.take(i + 1), chunks.skip(i + 1));
    let done = joined(chunks.take(i));
    assert(joined(chunks).take((done.len() + chunks[i].len()) as int) =~= done + chunks[i]);
}

/// The first match of `query` in the document, at or after `start_offset`.
pub fn find_streaming_forward(
    document: &Document,
    query: &str,
    start_offset: usize,
    match_case: bool,
) -> (found: Option<Range<usize>>)
    requires
        document.wf(),
    ensures
        is_range_of(
            found,
            if query@.len() == 0 {
                None
            } else {
                first_match(
                    document@.bytes,
                    needle_of(query@, match_case),
                    match_case,
                    start_offset as int,
                )
            },
            needle_of(query@, match_case).len() as int,
        ),
{
    let needle = search_needle(query, match_case);
    proof {
        lemma_needle(query@, match_case);
    }
    if needle.len() == 0 {
        return None;
    }
    let ghost bytes = document@.bytes;
    let total: usize = document.len();
    let chunks = document.chunks();
    let ghost views = document.chunk_seq();
    let overlap: usize = needle.len() - 1;
    let mut tail: Vec<u8> = Vec::new();
    let mut position: usize = 0;
    let mut i: usize = 0;
    assert(views.take(0) =~= Seq::<Seq<u8>>::empty());
    assert(suffix(joined(views.take(0)), overlap as int) =~= Seq::<u8>::empty());
    while i < chunks.len()
        invariant
            i <= chunks@.len(),
            chunk_views(chunks@) == views,
            bytes == joined(views),
            total == bytes.len(),
            is_needle(needle@, match_case),
            overlap == needle@.len() - 1,
            position == joined(views.take(i as int)).len(),
            position <= total,
            tail@ == suffix(joined(views.take(i as int)), overlap as int),
            tail@.len() <= overlap,
            forall|j: int|
                start_offset <= j && j + needle@.len() <= position ==> !#[trigger] matches_at(
                    bytes,
                    needle@,
                    match_case,
                    j,
                ),
            needle@ == needle_of(query@, match_case),
            query@.len() > 0,
            bytes == document@.bytes,
        decreases chunks@.len() - i,
    {
        let chunk = chunks[i];
        let ghost done = joined(views.take(i as int));
        proof {
            assert(views[i as int] == chunk_views(chunks@)[i as int]);
            lemma_chunk_front(views, i as int);
        }
        let boundary = boundary_after(&tail, chunk, overlap);
        let boundary_start: usize = position - tail.len();
        let ghost start = done.len() - tail@.len();
        let boundary_found = find_bytes_from(
            boundary.as_slice(),
            needle.as_slice(),
            match_case,
            start_offset.saturating_sub(boundary_start),
        );
        let chunk_found = find_bytes_from(
            chunk,
            needle.as_slice(),
            match_case,
            start_offset.saturating_sub(position),
        );
        proof {
            lemma_forward_step(
                bytes,
                done,
                chunk@,
                needle@,
                match_case,
                start_offset as int,
                opt_int(boundary_found),
                opt_int(chunk_found),
            );
        }
        match (boundary_found, chunk_found) {
            (Some(relative), _) => {
                let found: usize = boundary_start + relative;
                return Some(found..found + needle.len());
            },
            (None, Some(relative)) => {
                let found: usize = position + relative;
                return Some(found..found + needle.len());
            },
            (None, None) => {},
        }
        proof {
            lemma_suffix_step(done, chunk@, overlap as int);
        }
        update_tail(&mut tail, chunk, overlap);
        position = position + chunk.len();
        i += 1;
    }
    proof {
        assert(views.take(i as int) =~= views);
        assert forall|j: int| start_offset <= j implies !#[trigger] matches_at(
            bytes,
            needle@,
            match_case,
            j,
        ) by {}
        lemma_first_match_is(bytes, needle@, match_case, start_offset as int, None);
    }
    None
}

pub open spec fn is_range_of(range: Option<Range<usize>>, start: Option<int>, len: int) -> bool {
    match (range, start) {
        (Some(range), Some(start)) => range.start == start && range.end == start + len,
        (None, None) => true,
        _ => false,
    }
}

pub proof fn lemma_needle(query: Seq<char>, match_case: bool)
    ensures
        query.len() == 0 <==> needle_of(query, match_case).len() == 0,
        query.len() > 0 ==> is_needle(needle_of(query, match_case), match_case),
{
    if query.len() > 0 {
        vstd::utf8::encode_utf8_first_scalar(query);
    }
}

proof fn lemma_forward_step(
    bytes: Seq<u8>,
    done: Seq<u8>,
    chunk: Seq<u8>,
    needle: Seq<u8>,
    match_case: bool,
    from: int,
    across: Option<int>,
    within: Option<int>,
)
    requires
        needle.len() > 0,
        from >= 0,
        done.len() + chunk.len() <= bytes.len(),
        bytes.take((done.len() + chunk.len()) as int) == done + chunk,
        forall|j: int|
            from <= j && j + needle.len() <= done.len() ==> !#[trigger] matches_at(
                bytes,
                needle,
                match_case,
                j,
            ),
        ({
            let tail = suffix(done, needle.len() - 1);
            let start = done.len() - tail.len();
            &&& across == first_match(
                tail + prefix(chunk, needle.len() - 1),
                needle,
                match_case,
                if from > start {
                    from - start
                } else {
                    0
                },
            )
            &&& within == first_match(
                chunk,
                needle,
                match_case,
                if from > done.len() {
                    from - done.len()
                } else {
                    0
                },
            )
        }),
    ensures
        across matches Some(r) ==> first_match(bytes, needle, match_case, from) == Some(
            done.len() - suffix(done, needle.len() - 1).len() + r,
        ),
        across is None ==> (within matches Some(r) ==> first_match(bytes, needle, match_case, from)
            == Some((done.len() + r) as int)),
        across is None && within is None ==> forall|j: int|
            from <= j && j + needle.len() <= done.len() + chunk.len() ==> !#[trigger] matches_at(
                bytes,
                needle,
                match_case,
                j,
            ),
{
    let n = needle.len() as int;
    let tail = suffix(done, n - 1);
    let start = done.len() - tail.len();
    let part = tail + prefix(chunk, n - 1);
    let from_part = if from > start {
        from - start
    } else {
        0
    };
    let from_chunk = if from > done.len() {
        from - done.len()
    } else {
        0
    };
    lemma_first_match(part, needle, match_case, from_part);
    lemma_first_match(chunk, needle, match_case, from_chunk);
    // A match that ends within the chunk either crosses the border or lies in it.
    assert forall|j: int|
        from <= j && j + n <= done.len() + chunk.len() && #[trigger] matches_at(
            bytes,
            needle,
            match_case,
            j,
        ) implies (j < done.len() && j >= start && matches_at(part, needle, match_case, j - start))
        || (j >= done.len() && matches_at(chunk, needle, match_case, j - done.len())) by {
        if j < done.len() {
            lemma_boundary_matches(bytes, done, chunk, needle, match_case, j);
        } else {
            lemma_chunk_matches(bytes, done, chunk, needle, match_case, j);
        }
    }
    match across {
        Some(r) => {
            let i = start + r;
            lemma_boundary_matches(bytes, done, chunk, needle, match_case, i);
            assert forall|j: int| from <= j < i implies !#[trigger] matches_at(
                bytes,
                needle,
                match_case,
                j,
            ) by {
                if matches_at(bytes, needle, match_case, j) {
                    assert(j < done.len());
                    assert(matches_at(part, needle, match_case, j - start));
                }
            }
            lemma_first_match_is(bytes, needle, match_case, from, Some(i));
        },
        None => {
            match within {
                Some(r) => {
                    let i = done.len() + r;
                    lemma_chunk_matches(bytes, done, chunk, needle, match_case, i);
                    assert forall|j: int| from <= j < i implies !#[trigger] matches_at(
                        bytes,
                        needle,
                        match_case,
                        j,
                    ) by {
                        if matches_at(bytes, needle, match_case, j) {
                            if j < done.len() {
                                assert(matches_at(part, needle, match_case, j - start));
                            } else {
                                assert(matches_at(chunk, needle, match_case, j - done.len()));
                            }
                        }
                    }
                    lemma_first_match_is(bytes, needle, match_case, from, Some(i));
                },
                None => {},
            }
        },
    }
}

/// The last match of `query` in the document that begins before `before_offset`.
pub fn find_streaming_backward(
    document: &Document,
    query: &str,
    before_offset: usize,
    match_case: bool,
) -> (found: Option<Range<usize>>)
    requires
        document.wf(),
    ensures
        is_range_of(
            found,
            if query@.len() == 0 {
                None
            } else {
                last_match(
                    document@.bytes,
                    needle_of(query@, match_case),
                    match_case,
                    before_offset as int,
                )
            },
            needle_of(query@, match_case).len() as int,
        ),
{
    if before_offset == 0 {
        return None;
    }
    let needle = search_needle(query, match_case);
    proof {
        lemma_needle(query@, match_case);
    }
    if needle.len() == 0 {
        return None;
    }
    let found = if before_offset <= document.len() / 2 {
        find_streaming_backward_from_start(document, &needle, before_offset, match_case)
    } else {
        find_streaming_backward_from_end(document, &needle, before_offset, match_case)
    };
    match found {
        Some(start) => {
            let len: usize = document.len();
            Some(start..start + needle.len())
        },
        None => None,
    }
}

/// The last match, searched for from the front.
pub fn find_streaming_backward_from_start(
    document: &Document,
    needle: &Vec<u8>,
    before_offset: usize,
    match_case: bool,
) -> (found: Option<usize>)
    requires
        document.wf(),
        is_needle(needle@, match_case),
    ensures
        opt_int(found) == last_match(document@.bytes, needle@, match_case, before_offset as int),
        found matches Some(i) ==> i + needle@.len() <= document@.bytes.len(),
{
    let ghost bytes = document@.bytes;
    let total: usize = document.len();
    let chunks = document.chunks();
    let ghost views = document.chunk_seq();
    let overlap: usize = needle.len() - 1;
    let mut tail: Vec<u8> = Vec::new();
    let mut position: usize = 0;
    let mut last: Option<usize> = None;
    let mut i: usize = 0;
    let ghost n = needle@.len() as int;
    proof {
        assert(views.take(0) =~= Seq::<Seq<u8>>::empty());
        assert(suffix(joined(views.take(0)), overlap as int) =~= Seq::<u8>::empty());
    }
    while i < chunks.len() && position - tail.len() < before_offset
        invariant
            i <= chunks@.len(),
            chunk_views(chunks@) == views,
            bytes == joined(views),
            total == bytes.len(),
            n == needle@.len(),
            is_needle(needle@, match_case),
            overlap == needle@.len() - 1,
            position == joined(views.take(i as int)).len(),
            position <= total,
            tail@ == suffix(joined(views.take(i as int)), overlap as int),
            tail@.len() <= overlap,
            opt_int(last) == last_match(
                bytes,
                needle@,
                match_case,
                least(before_offset as int, position - n + 1),
            ),
            last matches Some(at) ==> at + n <= position,
        decreases chunks@.len() - i,
    {
        let chunk = chunks[i];
        let ghost done = joined(views.take(i as int));
        proof {
            assert(views[i as int] == chunk_views(chunks@)[i as int]);
            lemma_chunk_front(views, i as int);
        }
        let boundary = boundary_after(&tail, chunk, overlap);
        let boundary_start: usize = position - tail.len();
        let across = find_last_bytes_before(
            boundary.as_slice(),
            needle.as_slice(),
            match_case,
            before_offset.saturating_sub(boundary_start),
        );
        let within = find_last_bytes_before(
            chunk,
            needle.as_slice(),
            match_case,
            before_offset.saturating_sub(position),
        );
        proof {
            lemma_backward_step(
                bytes,
                done,
                chunk@,
                needle@,
                match_case,
                before_offset as int,
                opt_int(across),
                opt_int(within),
            );
        }
        match (across, within) {
            (_, Some(relative)) => {
                last = Some(position + relative);
            },
            (Some(relative), None) => {
                last = Some(boundary_start + relative);
            },
            (None, None) => {},
        }
        proof {
            lemma_suffix_step(done, chunk@, overlap as int);
        }
        update_tail(&mut tail, chunk, overlap);
        position = position + chunk.len();
        i += 1;
    }
    proof {
        if i == chunks@.len() {
            assert(views.take(i as int) =~= views);
        }
        if i < chunks@.len() {
            // No match across the border can begin before the kept bytes.
            assert(position - tail@.len() >= before_offset);
            if tail@.len() == overlap {
                assert(least(before_offset as int, position - n + 1) == before_offset);
            } else {
                assert(before_offset == 0);
            }
        } else {
            lemma_last_match(bytes, needle@, match_case, before_offset as int);
            lemma_last_match(
                bytes,
                needle@,
                match_case,
                least(before_offset as int, position - n + 1),
            );
            lemma_last_match_is(
                bytes,
                needle@,
                match_case,
                before_offset as int,
                opt_int(last),
            );
        }
    }
    last
}

pub open spec fn least(a: int, b: int) -> int {
    if a <= b {
        a
    } else {
        b
    }
}

proof fn lemma_backward_step(
    bytes: Seq<u8>,
    done: Seq<u8>,
    chunk: Seq<u8>,
    needle: Seq<u8>,
    match_case: bool,
    before: int,
    across: Option<int>,
    within: Option<int>,
)
    requires
        needle.len() > 0,
        before >= 0,
        done.len() + chunk.len() <= bytes.len(),
        bytes.take((done.len() + chunk.len()) as int) == done + chunk,
        ({
            let tail = suffix(done, needle.len() - 1);
            let start = done.len() - tail.len();
            &&& across == last_match(
                tail + prefix(chunk, needle.len() - 1),
                needle,
                match_case,
                if before > start {
                    before - start
                } else {
                    0
                },
            )
            &&& within == last_match(
                chunk,
                needle,
                match_case,
                if before > done.len() {
                    before - done.len()
                } else {
                    0
                },
            )
        }),
    ensures
        last_match(
            bytes,
            needle,
            match_case,
            least(before, done.len() + chunk.len() - needle.len() + 1),
        ) == (match (across, within) {
            (_, Some(r)) => Some((done.len() + r) as int),
            (Some(r), None) => Some(done.len() - suffix(done, needle.len() - 1).len() + r),
            (None, None) => last_match(
                bytes,
                needle,
                match_case,
                least(before, done.len() - needle.len() + 1),
            ),
        }),
        within matches Some(r) ==> r + needle.len() <= chunk.len(),
        across matches Some(r) ==> done.len() - suffix(done, needle.len() - 1).len() + r
            + needle.len() <= done.len() + chunk.len(),
{
    let n = needle.len() as int;
    let tail = suffix(done, n - 1);
    let start = done.len() - tail.len();
    let part = tail + prefix(chunk, n - 1);
    let before_part = if before > start {
        before - start
    } else {
        0
    };
    let before_chunk = if before > done.len() {
        before - done.len()
    } else {
        0
    };
    let old_limit = least(before, done.len() - n + 1);
    let limit = least(before, done.len() + chunk.len() - n + 1);
    lemma_last_match(part, needle, match_case, before_part);
    lemma_last_match(chunk, needle, match_case, before_chunk);
    lemma_last_match(bytes, needle, match_case, old_limit);
    assert forall|j: int|
        old_limit <= j < limit && #[trigger] matches_at(
            bytes,
            needle,
            match_case,
            j,
        ) implies (j < done.len() && j >= start && matches_at(part, needle, match_case, j - start))
        || (j >= done.len() && matches_at(chunk, needle, match_case, j - done.len())) by {
        if j < done.len() {
            lemma_boundary_matches(bytes, done, chunk, needle, match_case, j);
        } else {
            lemma_chunk_matches(bytes, done, chunk, needle, match_case, j);
        }
    }
    let found: Option<int> = match (across, within) {
        (_, Some(r)) => Some((done.len() + r) as int),
        (Some(r), None) => Some(start + r),
        (None, None) => last_match(bytes, needle, match_case, old_limit),
    };
    match (across, within) {
        (_, Some(r)) => {
            let i = done.len() + r;
            lemma_chunk_matches(bytes, done, chunk, needle, match_case, i);
            assert forall|j: int| i < j < limit implies !#[trigger] matches_at(
                bytes,
                needle,
                match_case,
                j,
            ) by {
                if matches_at(bytes, needle, match_case, j) {
                    assert(matches_at(chunk, needle, match_case, j - done.len()));
                }
            }
        },
        (Some(r), None) => {
            let i = start + r;
            lemma_boundary_matches(bytes, done, chunk, needle, match_case, i);
            assert forall|j: int| i < j < limit implies !#[trigger] matches_at(
                bytes,
                needle,
                match_case,
                j,
            ) by {
                if matches_at(bytes, needle, match_case, j) {
                    if j < done.len() {
                        assert(matches_at(part, needle, match_case, j - start));
                    } else {
                        assert(matches_at(chunk, needle, match_case, j - done.len()));
                    }
                }
            }
        },
        (None, None) => {
            assert forall|j: int| old_limit <= j < limit implies !#[trigger] matches_at(
                bytes,
                needle,
                match_case,
                j,
            ) by {
                if matches_at(bytes, needle, match_case, j) {
                    if j < done.len() {
                        assert(matches_at(part, needle, match_case, j - start));
                    } else {
                        assert(matches_at(chunk, needle, match_case, j - done.len()));
                    }
                }
            }
        },
    }
    lemma_last_match_is(bytes, needle, match_case, limit, found);
}

/// The last match, searched for from the end.
pub fn find_streaming_backward_from_end(
    document: &Document,
    needle: &Vec<u8>,
    before_offset: usize,
    match_case: bool,
) -> (found: Option<usize>)
    requires
        document.wf(),
        is_needle(needle@, match_case),
    ensures
        opt_int(found) == last_match(document@.bytes, needle@, match_case, before_offset as int),
        found matches Some(i) ==> i + needle@.len() <= document@.bytes.len(),
{
    let ghost bytes = document@.bytes;
    let total: usize = document.len();
    let chunks = document.chunks();
    let ghost views = document.chunk_seq();
    let overlap: usize = needle.len() - 1;
    let mut head: Vec<u8> = Vec::new();
    let mut position: usize = total;
    let mut i: usize = chunks.len();
    let ghost n = needle@.len() as int;
    proof {
        assert(views.take(i as int) =~= views);
        assert(bytes.skip(total as int) =~= Seq::<u8>::empty());
        assert(prefix(bytes.skip(total as int), overlap as int) =~= Seq::<u8>::empty());
    }
    while i > 0
        invariant
            i <= chunks@.len(),
            chunk_views(chunks@) == views,
            bytes == joined(views),
            total == bytes.len(),
            n == needle@.len(),
            is_needle(needle@, match_case),
            overlap == needle@.len() - 1,
            position == joined(views.take(i as int)).len(),
            position <= total,
            head@ == prefix(bytes.skip(position as int), overlap as int),
            head@.len() <= overlap,
            bytes == document@.bytes,
            forall|j: int|
                position <= j < before_offset ==> !#[trigger] matches_at(
                    bytes,
                    needle@,
                    match_case,
                    j,
                ),
        decreases i,
    {
        let chunk = chunks[i - 1];
        let ghost before_chunk = joined(views.take(i - 1));
        proof {
            assert(views[i - 1] == chunk_views(chunks@)[i - 1]);
            lemma_chunk_front(views, i - 1);
        }
        let chunk_start: usize = position - chunk.len();
        let suffix_len: usize = if overlap < chunk.len() {
            overlap
        } else {
            chunk.len()
        };
        let boundary = boundary_before(chunk, &head, overlap);
        let boundary_start: usize = position - suffix_len;
        let across = find_last_bytes_before(
            boundary.as_slice(),
            needle.as_slice(),
            match_case,
            before_offset.saturating_sub(boundary_start),
        );
        let within = find_last_bytes_before(
            chunk,
            needle.as_slice(),
            match_case,
            before_offset.saturating_sub(chunk_start),
        );
        proof {
            assert(chunk@ =~= bytes.subrange(chunk_start as int, position as int)) by {
                assert forall|k: int| 0 <= k < chunk@.len() implies bytes.subrange(
                    chunk_start as int,
                    position as int,
                )[k] == chunk@[k] by {
                    assert(bytes.take(position as int)[chunk_start + k] == (before_chunk
                        + chunk@)[chunk_start + k]);
                }
            }
            lemma_reverse_step(
                bytes,
                chunk_start as int,
                position as int,
                needle@,
                match_case,
                before_offset as int,
                opt_int(across),
                opt_int(within),
            );
        }
        match (across, within) {
            (Some(relative), _) => {
                return Some(boundary_start + relative);
            },
            (None, Some(relative)) => {
                return Some(chunk_start + relative);
            },
            (None, None) => {},
        }
        proof {
            lemma_prefix_step(chunk@, bytes.skip(position as int), overlap as int);
            assert(chunk@ + bytes.skip(position as int) =~= bytes.skip(chunk_start as int));
        }
        update_head(&mut head, chunk, overlap);
        position = chunk_start;
        i -= 1;
    }
    proof {
        assert(views.take(0) =~= Seq::<Seq<u8>>::empty());
        lemma_last_match_is(bytes, needle@, match_case, before_offset as int, None);
    }
    None
}

proof fn lemma_reverse_step(
    bytes: Seq<u8>,
    from: int,
    to: int,
    needle: Seq<u8>,
    match_case: bool,
    before: int,
    across: Option<int>,
    within: Option<int>,
)
    requires
        needle.len() > 0,
        before >= 0,
        0 <= from <= to <= bytes.len(),
        forall|j: int| to <= j < before ==> !#[trigger] matches_at(bytes, needle, match_case, j),
        ({
            let chunk = bytes.subrange(from, to);
            let edge = suffix(chunk, needle.len() - 1);
            let start = to - edge.len();
            &&& across == last_match(
                edge + prefix(bytes.skip(to), needle.len() - 1),
                needle,
                match_case,
                if before > start {
                    before - start
                } else {
                    0
                },
            )
            &&& within == last_match(
                chunk,
                needle,
                match_case,
                if before > from {
                    before - from
                } else {
                    0
                },
            )
        }),
    ensures
        across matches Some(r) ==> last_match(bytes, needle, match_case, before) == Some(
            to - suffix(bytes.subrange(from, to), needle.len() - 1).len() + r,
        ) && to - suffix(bytes.subrange(from, to), needle.len() - 1).len() + r + needle.len()
            <= bytes.len(),
        across is None ==> (within matches Some(r) ==> last_match(
            bytes,
            needle,
            match_case,
            before,
        ) == Some(from + r) && from + r + needle.len() <= bytes.len()),
        across is None && within is None ==> forall|j: int|
            from <= j < before ==> !#[trigger] matches_at(bytes, needle, match_case, j),
{
    let n = needle.len() as int;
    let chunk = bytes.subrange(from, to);
    let edge = suffix(chunk, n - 1);
    let start = to - edge.len();
    let part = edge + prefix(bytes.skip(to), n - 1);
    let before_part = if before > start {
        before - start
    } else {
        0
    };
    let before_chunk = if before > from {
        before - from
    } else {
        0
    };
    lemma_last_match(part, needle, match_case, before_part);
    lemma_last_match(chunk, needle, match_case, before_chunk);
    assert(part =~= bytes.subrange(start, start + part.len()));
    // A match that begins in the chunk either ends in it or crosses its end.
    assert forall|j: int|
        from <= j < to && #[trigger] matches_at(bytes, needle, match_case, j) implies (j + n
        <= to && matches_at(chunk, needle, match_case, j - from)) || (j + n > to && j >= start
        && matches_at(part, needle, match_case, j - start)) by {
        if j + n <= to {
            lemma_matches_in_part(bytes, needle, match_case, from, to, j - from);
        } else {
            lemma_matches_in_part(
                bytes,
                needle,
                match_case,
                start,
                start + part.len(),
                j - start,
            );
        }
    }
    match across {
        Some(r) => {
            let i = start + r;
            lemma_matches_in_part(bytes, needle, match_case, start, start + part.len(), r);
            assert forall|j: int| i < j < before implies !#[trigger] matches_at(
                bytes,
                needle,
                match_case,
                j,
            ) by {
                if matches_at(bytes, needle, match_case, j) && j < to {
                    assert(j + n > to);
                    assert(matches_at(part, needle, match_case, j - start));
                }
            }
            lemma_last_match_is(bytes, needle, match_case, before, Some(i));
        },
        None => {
            match within {
                Some(r) => {
                    let i = from + r;
                    lemma_matches_in_part(bytes, needle, match_case, from, to, r);
                    assert forall|j: int| i < j < before implies !#[trigger] matches_at(
                        bytes,
                        needle,
                        match_case,
                        j,
                    ) by {
                        if matches_at(bytes, needle, match_case, j) && j < to {
                            if j + n <= to {
                                assert(matches_at(chunk, needle, match_case, j - from));
                            } else {
                                assert(matches_at(part, needle, match_case, j - start));
                            }
                        }
                    }
                    lemma_last_match_is(bytes, needle, match_case, before, Some(i));
                },
                None => {
                    assert forall|j: int| from <= j < before implies !#[trigger] matches_at(
                        bytes,
                        needle,
                        match_case,
                        j,
                    ) by {
                        if matches_at(bytes, needle, match_case, j) && j < to {
                            if j + n <= to {
                                assert(matches_at(chunk, needle, match_case, j - from));
                            } else {
                                assert(matches_at(part, needle, match_case, j - start));
                            }
                        }
                    }
                },
            }
        },
    }
}

// ---------------------------------------------------------------------------
// All matches
// ---------------------------------------------------------------------------

/// The matches in `bytes` from `from` on, each behind the one before.
pub fn find_all_bytes(bytes: &[u8], needle: &Vec<u8>, match_case: bool, from: usize) -> (found: Vec<
    usize,
>)
    requires
        is_needle(needle@, match_case),
        from <= bytes@.len(),
    ensures
        crate::line_index::ints(found@) == greedy_matches(
            bytes@,
            needle@,
            match_case,
            from as int,
        ),
{
    let mut found: Vec<usize> = Vec::new();
    let mut offset: usize = from;
    let len: usize = bytes.len();
    assert(crate::line_index::ints(found@) + greedy_matches(
        bytes@,
        needle@,
        match_case,
        from as int,
    ) =~= greedy_matches(bytes@, needle@, match_case, from as int));
    loop
        invariant_except_break
            is_needle(needle@, match_case),
            len == bytes@.len(),
            offset <= len,
            crate::line_index::ints(found@) + greedy_matches(
                bytes@,
                needle@,
                match_case,
                offset as int,
            ) == greedy_matches(bytes@, needle@, match_case, from as int),
        ensures
            crate::line_index::ints(found@) == greedy_matches(
                bytes@,
                needle@,
                match_case,
                from as int,
            ),
        decreases len - offset,
    {
        match find_bytes_from(bytes, needle.as_slice(), match_case, offset) {
            Some(index) => {
                proof {
                    lemma_first_match(bytes@, needle@, match_case, offset as int);
                }
                let ghost held = found@;
                found.push(index);
                proof {
                    let rest = greedy_matches(bytes@, needle@, match_case, index + needle@.len());
                    assert(crate::line_index::ints(found@) =~= crate::line_index::ints(
                        held,
                    ).push(index as int));
                    assert(crate::line_index::ints(found@) + rest =~= crate::line_index::ints(
                        held,
                    ) + (seq![index as int] + rest));
                }
                offset = index + needle.len();
            },
            None => {
                assert(crate::line_index::ints(found@) + Seq::<int>::empty()
                    =~= crate::line_index::ints(found@));
                break ;
            },
        }
    }
    found
}

pub open spec fn range_starts(ranges: Seq<Range<usize>>) -> Seq<int> {
    Seq::new(ranges.len(), |i: int| ranges[i].start as int)
}

/// The matches of a longer text begin with those of a part from its front.
proof fn lemma_greedy_extends(
    bytes: Seq<u8>,
    done: Seq<u8>,
    needle: Seq<u8>,
    match_case: bool,
    from: int,
)
    requires
        needle.len() > 0,
        0 <= from,
        done.len() <= bytes.len(),
        bytes.take(done.len() as int) == done,
    ensures
        ({
            let found = greedy_matches(done, needle, match_case, from);
            let next = next_start(found, needle.len() as int, from);
            &&& greedy_matches(bytes, needle, match_case, from) == found + greedy_matches(
                bytes,
                needle,
                match_case,
                next,
            )
            &&& next >= from
            &&& found.len() > 0 ==> next <= done.len()
            &&& first_match(done, needle, match_case, next) is None
        }),
    decreases done.len() - from,
{
    let found = greedy_matches(done, needle, match_case, from);
    let rest_of = greedy_matches(bytes, needle, match_case, from);
    lemma_first_match(done, needle, match_case, from);
    if first_match(done, needle, match_case, from) is Some {
        let i = first_match(done, needle, match_case, from)->0;
        assert(done =~= bytes.subrange(0, done.len() as int));
        assert forall|j: int| from <= j <= i implies matches_at(bytes, needle, match_case, j)
            == #[trigger] matches_at(done, needle, match_case, j) by {
            lemma_matches_in_part(bytes, needle, match_case, 0, done.len() as int, j);
        }
        assert(matches_at(done, needle, match_case, i));
        assert forall|j: int| from <= j < i implies !#[trigger] matches_at(
            bytes,
            needle,
            match_case,
            j,
        ) by {
            assert(!matches_at(done, needle, match_case, j));
        }
        lemma_first_match_is(bytes, needle, match_case, from, Some(i));
        lemma_greedy_extends(bytes, done, needle, match_case, i + needle.len());
        let later = greedy_matches(done, needle, match_case, i + needle.len());
        let next = next_start(later, needle.len() as int, i + needle.len());
        assert(found == seq![i] + later);
        assert(rest_of =~= found + greedy_matches(bytes, needle, match_case, next));
    } else {
        assert(rest_of =~= found + rest_of);
    }
}

/// Where no match begins, the search can begin later.
proof fn lemma_greedy_skips(
    bytes: Seq<u8>,
    needle: Seq<u8>,
    match_case: bool,
    from: int,
    to: int,
)
    requires
        0 <= from <= to,
        forall|j: int| from <= j < to ==> !#[trigger] matches_at(bytes, needle, match_case, j),
    ensures
        greedy_matches(bytes, needle, match_case, from) == greedy_matches(
            bytes,
            needle,
            match_case,
            to,
        ),
{
    lemma_first_match(bytes, needle, match_case, to);
    let found = first_match(bytes, needle, match_case, to);
    lemma_first_match_is(bytes, needle, match_case, from, found);
}

/// The matches behind `base` are those of the rest of the text.
proof fn lemma_greedy_shifts(
    bytes: Seq<u8>,
    needle: Seq<u8>,
    match_case: bool,
    base: int,
    from: int,
)
    requires
        needle.len() > 0,
        0 <= base <= from,
        base <= bytes.len(),
    ensures
        greedy_matches(bytes, needle, match_case, from) == moved(
            greedy_matches(bytes.skip(base), needle, match_case, from - base),
            base,
        ),
    decreases bytes.len() - from,
{
    let rest = bytes.skip(base);
    let all = greedy_matches(bytes, needle, match_case, from);
    let part = greedy_matches(rest, needle, match_case, from - base);
    lemma_first_match(bytes, needle, match_case, from);
    assert forall|j: int| from - base <= j implies #[trigger] matches_at(rest, needle, match_case, j)
        == matches_at(bytes, needle, match_case, base + j) by {
        if j + needle.len() <= rest.len() {
            assert(rest =~= bytes.subrange(base, bytes.len() as int));
            lemma_matches_in_part(bytes, needle, match_case, base, bytes.len() as int, j);
        }
    }
    match first_match(bytes, needle, match_case, from) {
        Some(i) => {
            assert(matches_at(rest, needle, match_case, i - base));
            lemma_first_match_is(rest, needle, match_case, from - base, Some(i - base));
            lemma_greedy_shifts(bytes, needle, match_case, base, i + needle.len());
            let later = greedy_matches(rest, needle, match_case, i - base + needle.len());
            assert(i + needle.len() - base == i - base + needle.len());
            assert(part == seq![i - base] + later);
            assert(all =~= moved(part, base));
        },
        None => {
            lemma_first_match_is(rest, needle, match_case, from - base, None);
            assert(all =~= moved(part, base));
        },
    }
}

/// One chunk more: what is still to be found begins behind the last match and
/// in the bytes before the chunk that a match may begin in.
proof fn lemma_greedy_step(done: Seq<u8>, chunk: Seq<u8>, needle: Seq<u8>, match_case: bool)
    requires
        needle.len() > 0,
    ensures
        ({
            let found = greedy_matches(done, needle, match_case, 0);
            let tail = suffix(done, needle.len() - 1);
            let base = done.len() - tail.len();
            let next = next_start(found, needle.len() as int, 0);
            let from = if next > base {
                next - base
            } else {
                0
            };
            &&& greedy_matches(done + chunk, needle, match_case, 0) == found + moved(
                greedy_matches(tail + chunk, needle, match_case, from),
                base,
            )
            &&& 0 <= from <= tail.len()
        }),
{
    let bytes = done + chunk;
    let found = greedy_matches(done, needle, match_case, 0);
    let tail = suffix(done, needle.len() - 1);
    let base = done.len() - tail.len();
    let next = next_start(found, needle.len() as int, 0);
    let from = if next > base {
        next
    } else {
        base
    };
    assert(bytes.take(done.len() as int) =~= done);
    lemma_greedy_extends(bytes, done, needle, match_case, 0);
    lemma_first_match(done, needle, match_case, next);
    assert forall|j: int| next <= j < from implies !#[trigger] matches_at(
        bytes,
        needle,
        match_case,
        j,
    ) by {
        assert(j + needle.len() <= done.len());
        assert(done =~= bytes.subrange(0, done.len() as int));
        lemma_matches_in_part(bytes, needle, match_case, 0, done.len() as int, j);
        assert(!matches_at(done, needle, match_case, j));
    }
    lemma_greedy_skips(bytes, needle, match_case, next, from);
    lemma_greedy_shifts(bytes, needle, match_case, base, from);
    assert(bytes.skip(base) =~= tail + chunk);
}

/// The ranges of the matches of `query` from the front, each behind the one
/// before.
pub fn find_all_document_ranges(document: &Document, query: &str, match_case: bool) -> (ranges: Vec<
    Range<usize>,
>)
    requires
        document.wf(),
    ensures
        range_starts(ranges@) == greedy_matches(
            document@.bytes,
            needle_of(query@, match_case),
            match_case,
            0,
        ),
        forall|i: int|
            0 <= i < ranges@.len() ==> (#[trigger] ranges@[i]).end == ranges@[i].start + needle_of(
                query@,
                match_case,
            ).len() && ranges@[i].end <= document@.bytes.len(),
{
    let needle = search_needle(query, match_case);
    proof {
        lemma_needle(query@, match_case);
    }
    let mut ranges: Vec<Range<usize>> = Vec::new();
    if needle.len() == 0 {
        assert(range_starts(ranges@) =~= Seq::<int>::empty());
        return ranges;
    }
    let ghost bytes = document@.bytes;
    let total: usize = document.len();
    let chunks = document.chunks();
    let ghost views = document.chunk_seq();
    let overlap: usize = needle.len() - 1;
    let mut tail: Vec<u8> = Vec::new();
    let mut position: usize = 0;
    let mut next_allowed: usize = 0;
    let mut i: usize = 0;
    proof {
        assert(views.take(0) =~= Seq::<Seq<u8>>::empty());
        assert(suffix(joined(views.take(0)), overlap as int) =~= Seq::<u8>::empty());
        lemma_first_match(joined(views.take(0)), needle@, match_case, 0);
        assert(range_starts(ranges@) =~= greedy_matches(
            joined(views.take(0)),
            needle@,
            match_case,
            0,
        ));
    }
    while i < chunks.len()
        invariant
            i <= chunks@.len(),
            chunk_views(chunks@) == views,
            bytes == joined(views),
            total == bytes.len(),
            total < usize::MAX,
            is_needle(needle@, match_case),
            overlap == needle@.len() - 1,
            position == joined(views.take(i as int)).len(),
            position <= total,
            tail@ == suffix(joined(views.take(i as int)), overlap as int),
            tail@.len() <= overlap,
            next_allowed == next_start(range_starts(ranges@), needle@.len() as int, 0),
            range_starts(ranges@) == greedy_matches(
                joined(views.take(i as int)),
                needle@,
                match_case,
                0,
            ),
            forall|k: int|
                0 <= k < ranges@.len() ==> (#[trigger] ranges@[k]).end == ranges@[k].start
                    + needle@.len() && ranges@[k].end <= total,
        decreases chunks@.len() - i,
    {
        let chunk = chunks[i];
        let ghost done = joined(views.take(i as int));
        proof {
            assert(views[i as int] == chunk_views(chunks@)[i as int]);
            lemma_chunk_front(views, i as int);
            assert(views.take(i + 1).drop_last() =~= views.take(i as int));
            lemma_greedy_step(done, chunk@, needle@, match_case);
        }
        let mut searchable: Vec<u8> = Vec::new();
        searchable.extend_from_slice(tail.as_slice());
        searchable.extend_from_slice(chunk);
        assert(searchable@ =~= tail@ + chunk@);
        let base: usize = position - tail.len();
        let from: usize = if next_allowed > base {
            next_allowed - base
        } else {
            0
        };
        let candidates = find_all_bytes(searchable.as_slice(), &needle, match_case, from);
        let ghost listed = crate::line_index::ints(candidates@);
        let ghost held = range_starts(ranges@);
        proof {
            lemma_greedy_bounds(searchable@, needle@, match_case, from as int);
            assert forall|j: int| 0 <= j < candidates@.len() implies (#[trigger] candidates@[j])
                + needle@.len() <= searchable@.len() by {
                assert(matches_at(searchable@, needle@, match_case, listed[j]));
            }
        }
        let mut k: usize = 0;
        assert(held + moved(listed.take(0), base as int) =~= range_starts(ranges@));
        while k < candidates.len()
            invariant
                k <= candidates@.len(),
                is_needle(needle@, match_case),
                base + searchable@.len() <= total,
                total < usize::MAX,
                listed == crate::line_index::ints(candidates@),
                forall|j: int|
                    0 <= j < candidates@.len() ==> (#[trigger] candidates@[j]) + needle@.len()
                        <= searchable@.len(),
                next_allowed == next_start(range_starts(ranges@), needle@.len() as int, 0),
                range_starts(ranges@) == held + moved(listed.take(k as int), base as int),
                forall|j: int|
                    0 <= j < ranges@.len() ==> (#[trigger] ranges@[j]).end == ranges@[j].start
                        + needle@.len() && ranges@[j].end <= total,
            decreases candidates@.len() - k,
        {
            let start: usize = base + candidates[k];
            let end: usize = start + needle.len();
            let ghost before = ranges@;
            ranges.push(start..end);
            next_allowed = end;
            k += 1;
            proof {
                assert(range_starts(ranges@) =~= range_starts(before).push(start as int));
                assert(moved(listed.take(k as int), base as int) =~= moved(
                    listed.take(k - 1),
                    base as int,
                ).push(start as int));
                assert(range_starts(ranges@) =~= held + moved(listed.take(k as int), base as int));
            }
        }
        proof {
            assert(listed.take(k as int) =~= listed);
            lemma_suffix_step(done, chunk@, overlap as int);
        }
        update_tail(&mut tail, chunk, overlap);
        position = position + chunk.len();
        i += 1;
    }
    assert(views.take(i as int) =~= views);
    ranges
}

pub proof fn lemma_greedy_bounds(bytes: Seq<u8>, needle: Seq<u8>, match_case: bool, from: int)
    requires
        needle.len() > 0,
        from >= 0,
    ensures
        forall|i: int|
            0 <= i < greedy_matches(bytes, needle, match_case, from).len() ==> {
                let at = #[trigger] greedy_matches(bytes, needle, match_case, from)[i];
                from <= at && matches_at(bytes, needle, match_case, at)
            },
        forall|i: int, j: int|
            0 <= i < j < greedy_matches(bytes, needle, match_case, from).len() ==> greedy_matches(
                bytes,
                needle,
                match_case,
                from,
            )[i] + needle.len() <= greedy_matches(bytes, needle, match_case, from)[j],
    decreases bytes.len() - from + 1,
{
    let all = greedy_matches(bytes, needle, match_case, from);
    lemma_first_match(bytes, needle, match_case, from);
    if first_match(bytes, needle, match_case, from) is Some {
        let at = first_match(bytes, needle, match_case, from)->0;
        let next = at + needle.len();
        let rest = greedy_matches(bytes, needle, match_case, next);
        lemma_greedy_bounds(bytes, needle, match_case, next);
        assert(all == seq![at] + rest);
        assert forall|i: int| 0 <= i < all.len() implies ({
            let at = #[trigger] all[i];
            from <= at && matches_at(bytes, needle, match_case, at)
        }) by {
            if i > 0 {
                assert(all[i] == rest[i - 1]);
            }
        }
        assert forall|i: int, j: int| 0 <= i < j < all.len() implies all[i] + needle.len()
            <= all[j] by {
            assert(all[j] == rest[j - 1]);
            if i > 0 {
                assert(all[i] == rest[i - 1]);
            }
        }
    }
}

// ---------------------------------------------------------------------------
// Laws
// ---------------------------------------------------------------------------

/// The matches that are found from the front are matches, do not overlap, and
/// leave none out: every match overlaps one that was found.
pub proof fn law_all_matches_are_found(
    bytes: Seq<u8>,
    needle: Seq<u8>,
    match_case: bool,
    from: int,
    at: int,
)
    requires
        needle.len() > 0,
        0 <= from <= at,
        matches_at(bytes, needle, match_case, at),
    ensures
        ({
            let found = greedy_matches(bytes, needle, match_case, from);
            &&& forall|i: int|
                0 <= i < found.len() ==> matches_at(bytes, needle, match_case, #[trigger] found[i])
            &&& forall|i: int, j: int|
                0 <= i < j < found.len() ==> found[i] + needle.len() <= found[j]
            &&& exists|i: int|
                0 <= i < found.len() && (#[trigger] found[i]) <= at < found[i] + needle.len()
        }),
    decreases bytes.len() - from,
{
    let found = greedy_matches(bytes, needle, match_case, from);
    lemma_greedy_bounds(bytes, needle, match_case, from);
    lemma_first_match(bytes, needle, match_case, from);
    let first = first_match(bytes, needle, match_case, from)->0;
    let next = first + needle.len();
    assert(found[0] == first);
    if at >= next {
        law_all_matches_are_found(bytes, needle, match_case, next, at);
        let later = greedy_matches(bytes, needle, match_case, next);
        let i = choose|i: int|
            0 <= i < later.len() && (#[trigger] later[i]) <= at < later[i] + needle.len();
        assert(found[i + 1] == later[i]);
    }
}

} // verus!
