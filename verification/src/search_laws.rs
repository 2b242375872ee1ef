//! What searching and replacing do, told in terms of the bytes of the text.

use crate::app::{
    all_replaced, next_replaced, replacing_edits, searched, selected_chars, selection_matches,
    AppModel,
};
use crate::app_laws::{
    law_replace_all_replaces_every_match, law_search_succeeds, lemma_match_on_boundaries,
};
use crate::document::document_valid;
use crate::search::{
    folded_seq, greedy_matches, lemma_first_match, lemma_last_match, lemma_needle, matches_at,
    needle_of,
};
use crate::text::{lemma_boundary, on_boundary};
use crate::undo_laws::{lemma_subrange_is_text, replaced_together};
use vstd::prelude::*;
use vstd::utf8::*;

verus! {

/// Two bytes are taken for one another: they are the same or, where case does not
/// matter, the two cases of one ASCII letter.
pub open spec fn alike(a: u8, b: u8, match_case: bool) -> bool {
    a == b || (!match_case && ((65 <= a <= 90 && b == a + 32) || (65 <= b <= 90 && a == b + 32)))
}

/// The query stands in the text at `i`.
pub open spec fn occurs(bytes: Seq<u8>, query: Seq<char>, match_case: bool, i: int) -> bool {
    let wanted = encode_utf8(query);
    &&& 0 <= i
    &&& i + wanted.len() <= bytes.len()
    &&& forall|k: int| 0 <= k < wanted.len() ==> alike(bytes[i + k], #[trigger] wanted[k], match_case)
}

/// A match is a place at which the query stands in the text.
pub proof fn law_match_is_the_searched_text(
    bytes: Seq<u8>,
    query: Seq<char>,
    match_case: bool,
    i: int,
)
    ensures
        matches_at(bytes, needle_of(query, match_case), match_case, i) == occurs(
            bytes,
            query,
            match_case,
            i,
        ),
        needle_of(query, match_case).len() == encode_utf8(query).len(),
{
    let wanted = encode_utf8(query);
    let needle = needle_of(query, match_case);
    if 0 <= i && i + wanted.len() <= bytes.len() {
        let part = bytes.subrange(i, i + wanted.len());
        let shown = folded_seq(part, match_case);
        assert forall|k: int| 0 <= k < wanted.len() implies (shown[k] == needle[k]) == alike(
            bytes[i + k],
            #[trigger] wanted[k],
            match_case,
        ) by {
            assert(part[k] == bytes[i + k]);
        }
        if shown == needle {
            assert forall|k: int| 0 <= k < wanted.len() implies alike(
                bytes[i + k],
                #[trigger] wanted[k],
                match_case,
            ) by {
                assert(shown[k] == needle[k]);
            }
        }
        if occurs(bytes, query, match_case, i) {
            assert forall|k: int| 0 <= k < wanted.len() implies shown[k] == needle[k] by {
                assert(alike(bytes[i + k], wanted[k], match_case));
            }
            assert(shown =~= needle);
        }
    }
}

proof fn lemma_matches_occur(bytes: Seq<u8>, query: Seq<char>, match_case: bool)
    ensures
        forall|i: int|
            #[trigger] matches_at(bytes, needle_of(query, match_case), match_case, i) == occurs(
                bytes,
                query,
                match_case,
                i,
            ),
        forall|i: int|
            #[trigger] occurs(bytes, query, match_case, i) == matches_at(
                bytes,
                needle_of(query, match_case),
                match_case,
                i,
            ),
        needle_of(query, match_case).len() == encode_utf8(query).len(),
{
    assert forall|i: int|
        #[trigger] matches_at(bytes, needle_of(query, match_case), match_case, i) == occurs(
            bytes,
            query,
            match_case,
            i,
        ) by {
        law_match_is_the_searched_text(bytes, query, match_case, i);
    }
    assert forall|i: int|
        #[trigger] occurs(bytes, query, match_case, i) == matches_at(
            bytes,
            needle_of(query, match_case),
            match_case,
            i,
        ) by {
        law_match_is_the_searched_text(bytes, query, match_case, i);
    }
    law_match_is_the_searched_text(bytes, query, match_case, 0);
}

/// The text at `start` is selected, as much of it as was searched for, with the
/// caret at its end; nothing else has changed.
pub open spec fn match_is_selected(
    m: AppModel,
    after: AppModel,
    query: Seq<char>,
    start: int,
) -> bool {
    after == AppModel {
        caret: start + encode_utf8(query).len(),
        selection: Some((start, start + encode_utf8(query).len())),
        ..m
    }
}

/// A search forward selects the first occurrence that starts at or behind the
/// caret or, where there is none and the search wraps around, the first of all.
/// Where there is none at all, nothing changes.
pub proof fn law_forward_search_finds_the_next_occurrence(
    m: AppModel,
    query: Seq<char>,
    match_case: bool,
    wrap_around: bool,
)
    requires
        document_valid(m.document),
        valid_utf8(m.document.bytes),
        0 <= m.caret,
        m.selection matches Some(range) ==> 0 <= range.0,
        query.len() > 0,
    ensures
        ({
            let bytes = m.document.bytes;
            let (after, found, error) = searched(m, query, match_case, true, wrap_around);
            let start = after.caret - encode_utf8(query).len();
            let ahead = exists|i: int| m.caret <= i && #[trigger] occurs(bytes, query, match_case, i);
            let anywhere = exists|i: int| #[trigger] occurs(bytes, query, match_case, i);
            &&& error is None
            &&& found == (ahead || (wrap_around && anywhere))
            &&& !found ==> after == m
            &&& found ==> {
                &&& match_is_selected(m, after, query, start)
                &&& occurs(bytes, query, match_case, start)
                &&& ahead ==> m.caret <= start && forall|i: int|
                    m.caret <= i < start ==> !#[trigger] occurs(bytes, query, match_case, i)
                &&& !ahead ==> forall|i: int|
                    i < start ==> !#[trigger] occurs(bytes, query, match_case, i)
            }
        }),
{
    let bytes = m.document.bytes;
    let needle = needle_of(query, match_case);
    law_search_succeeds(m, query, match_case, true, wrap_around);
    lemma_matches_occur(bytes, query, match_case);
    lemma_first_match(bytes, needle, match_case, 0);
    lemma_first_match(bytes, needle, match_case, m.caret);
    if exists|i: int| m.caret <= i && #[trigger] occurs(bytes, query, match_case, i) {
        let i = choose|i: int| m.caret <= i && #[trigger] occurs(bytes, query, match_case, i);
        assert(matches_at(bytes, needle, match_case, i));
    }
    if exists|i: int| #[trigger] occurs(bytes, query, match_case, i) {
        let i = choose|i: int| #[trigger] occurs(bytes, query, match_case, i);
        assert(matches_at(bytes, needle, match_case, i));
    }
}

/// Where a search backward begins: before the selection or, without one, at the
/// caret.
pub open spec fn backward_from(m: AppModel) -> int {
    match m.selection {
        Some((start, end)) => start,
        None => m.caret,
    }
}

/// A search backward selects the last occurrence that starts before the place
/// where it begins or, where there is none and the search wraps around, the last
/// of all. Where there is none at all, nothing changes.
pub proof fn law_backward_search_finds_the_previous_occurrence(
    m: AppModel,
    query: Seq<char>,
    match_case: bool,
    wrap_around: bool,
)
    requires
        document_valid(m.document),
        valid_utf8(m.document.bytes),
        0 <= m.caret,
        m.selection matches Some(range) ==> 0 <= range.0,
        query.len() > 0,
    ensures
        ({
            let bytes = m.document.bytes;
            let from = backward_from(m);
            let (after, found, error) = searched(m, query, match_case, false, wrap_around);
            let start = after.caret - encode_utf8(query).len();
            let behind = exists|i: int| i < from && #[trigger] occurs(bytes, query, match_case, i);
            let anywhere = exists|i: int| #[trigger] occurs(bytes, query, match_case, i);
            &&& error is None
            &&& found == (behind || (wrap_around && anywhere))
            &&& !found ==> after == m
            &&& found ==> {
                &&& match_is_selected(m, after, query, start)
                &&& occurs(bytes, query, match_case, start)
                &&& behind ==> start < from && forall|i: int|
                    start < i < from ==> !#[trigger] occurs(bytes, query, match_case, i)
                &&& !behind ==> forall|i: int|
                    start < i ==> !#[trigger] occurs(bytes, query, match_case, i)
            }
        }),
{
    let bytes = m.document.bytes;
    let needle = needle_of(query, match_case);
    let from = backward_from(m);
    law_search_succeeds(m, query, match_case, false, wrap_around);
    lemma_matches_occur(bytes, query, match_case);
    lemma_needle(query, match_case);
    lemma_last_match(bytes, needle, match_case, from);
    lemma_last_match(bytes, needle, match_case, bytes.len() as int);
    if exists|i: int| i < from && #[trigger] occurs(bytes, query, match_case, i) {
        let i = choose|i: int| i < from && #[trigger] occurs(bytes, query, match_case, i);
        assert(matches_at(bytes, needle, match_case, i));
    }
    if exists|i: int| #[trigger] occurs(bytes, query, match_case, i) {
        let i = choose|i: int| #[trigger] occurs(bytes, query, match_case, i);
        assert(matches_at(bytes, needle, match_case, i));
    }
    let (after, found, error) = searched(m, query, match_case, false, wrap_around);
    let start = after.caret - encode_utf8(query).len();
    if found {
        assert forall|i: int| bytes.len() <= i implies !#[trigger] occurs(
            bytes,
            query,
            match_case,
            i,
        ) by {}
    }
}

/// A search for nothing finds nothing.
pub proof fn law_nothing_is_not_found(m: AppModel, match_case: bool, forward: bool, wrap: bool)
    ensures
        searched(m, Seq::empty(), match_case, forward, wrap) == (
            m,
            false,
            None::<crate::error::ErrorModel>,
        ),
{
}

/// What is selected is an occurrence of the query.
pub open spec fn selection_is_occurrence(m: AppModel, query: Seq<char>, match_case: bool) -> bool {
    m.selection matches Some((start, end)) && end == start + encode_utf8(query).len() && occurs(
        m.document.bytes,
        query,
        match_case,
        start,
    )
}

proof fn lemma_selection_matches(m: AppModel, query: Seq<char>, match_case: bool)
    requires
        valid_utf8(m.document.bytes),
        m.selection matches Some((start, end)) ==> 0 <= start <= end <= m.document.bytes.len()
            && is_char_boundary(m.document.bytes, start) && is_char_boundary(
            m.document.bytes,
            end,
        ),
    ensures
        selection_matches(m, query, match_case) == selection_is_occurrence(m, query, match_case),
{
    let bytes = m.document.bytes;
    lemma_matches_occur(bytes, query, match_case);
    if let Some((start, end)) = m.selection {
        lemma_boundary(bytes, start);
        lemma_boundary(bytes, end);
        lemma_subrange_is_text(bytes, start, end);
        let part = bytes.subrange(start, end);
        decode_utf8_encode_utf8(part);
        assert(selected_chars(m) == Some(decode_utf8(part)));
        assert(needle_of(decode_utf8(part), match_case) == folded_seq(part, match_case));
        assert(folded_seq(part, match_case).len() == end - start);
        if end == start + encode_utf8(query).len() {
            assert(matches_at(bytes, needle_of(query, match_case), match_case, start)
                == selection_matches(m, query, match_case));
        }
    }
}

/// The occurrence at `start` has been replaced, and nothing else; the caret
/// stands behind what has come in its place.
pub open spec fn occurrence_replaced(
    m: AppModel,
    after: AppModel,
    query: Seq<char>,
    replacement: Seq<char>,
    start: int,
) -> bool {
    let bytes = m.document.bytes;
    &&& after.document.bytes == bytes.take(start) + encode_utf8(replacement) + bytes.skip(
        start + encode_utf8(query).len(),
    )
    &&& after.caret == start + encode_utf8(replacement).len()
    &&& after.selection is None
    &&& after.settings == m.settings
}

/// Replace takes the selection where that is an occurrence, and else the one that
/// a search forward leads to; that one is replaced, and nothing else. Where there
/// is none, nothing changes.
pub proof fn law_replace_replaces_one_occurrence(
    m: AppModel,
    query: Seq<char>,
    replacement: Seq<char>,
    match_case: bool,
)
    requires
        document_valid(m.document),
        valid_utf8(m.document.bytes),
        0 <= m.caret,
        m.selection matches Some((start, end)) ==> 0 <= start <= end <= m.document.bytes.len()
            && is_char_boundary(m.document.bytes, start) && is_char_boundary(
            m.document.bytes,
            end,
        ),
        query.len() > 0,
    ensures
        ({
            let bytes = m.document.bytes;
            let (after, replaced, error) = next_replaced(m, query, replacement, match_case);
            let start = after.caret - encode_utf8(replacement).len();
            let anywhere = exists|i: int| #[trigger] occurs(bytes, query, match_case, i);
            let ahead = exists|i: int| m.caret <= i && #[trigger] occurs(bytes, query, match_case, i);
            &&& error is None
            &&& replaced == anywhere
            &&& !replaced ==> after == m
            &&& replaced ==> {
                &&& occurs(bytes, query, match_case, start)
                &&& occurrence_replaced(m, after, query, replacement, start)
                &&& selection_is_occurrence(m, query, match_case) ==> start == (m.selection->0).0
                &&& !selection_is_occurrence(m, query, match_case) && ahead ==> m.caret <= start
                    && forall|i: int|
                    m.caret <= i < start ==> !#[trigger] occurs(bytes, query, match_case, i)
                &&& !selection_is_occurrence(m, query, match_case) && !ahead ==> forall|i: int|
                    i < start ==> !#[trigger] occurs(bytes, query, match_case, i)
            }
        }),
{
    let bytes = m.document.bytes;
    let len = encode_utf8(query).len();
    lemma_selection_matches(m, query, match_case);
    lemma_matches_occur(bytes, query, match_case);
    lemma_needle(query, match_case);
    if selection_matches(m, query, match_case) {
        let start = (m.selection->0).0;
        assert(occurs(bytes, query, match_case, start));
        lemma_replacing_goes_through(m, query, match_case, start);
    } else {
        law_forward_search_finds_the_next_occurrence(m, query, match_case, true);
        let (after, found, error) = searched(m, query, match_case, true, true);
        if found {
            let start = after.caret - len;
            assert(occurs(bytes, query, match_case, start));
            lemma_replacing_goes_through(m, query, match_case, start);
        }
    }
}

/// The place of an occurrence can be edited.
proof fn lemma_replacing_goes_through(m: AppModel, query: Seq<char>, match_case: bool, start: int)
    requires
        valid_utf8(m.document.bytes),
        query.len() > 0,
        occurs(m.document.bytes, query, match_case, start),
    ensures
        on_boundary(m.document.bytes, start),
        on_boundary(m.document.bytes, start + encode_utf8(query).len()),
        start < start + encode_utf8(query).len() <= m.document.bytes.len(),
        valid_utf8(m.document.bytes.subrange(start, start + encode_utf8(query).len())),
{
    let bytes = m.document.bytes;
    law_match_is_the_searched_text(bytes, query, match_case, start);
    lemma_match_on_boundaries(bytes, query, match_case, start);
    lemma_subrange_is_text(bytes, start, start + encode_utf8(query).len());
}

/// The places that Replace All works on: they are occurrences, none overlaps the
/// one before, and none is passed over in between.
pub proof fn law_replace_all_takes_every_occurrence_in_turn(
    bytes: Seq<u8>,
    query: Seq<char>,
    match_case: bool,
)
    requires
        query.len() > 0,
    ensures
        ({
            let len = encode_utf8(query).len() as int;
            let starts = greedy_matches(bytes, needle_of(query, match_case), match_case, 0);
            &&& len > 0
            &&& forall|k: int|
                0 <= k < starts.len() ==> occurs(bytes, query, match_case, #[trigger] starts[k])
            &&& forall|k: int, i: int|
                0 <= k < starts.len() && (if k == 0 {
                    0
                } else {
                    starts[k - 1] + len
                }) <= i < #[trigger] starts[k] ==> !#[trigger] occurs(bytes, query, match_case, i)
            &&& forall|k: int, j: int|
                0 <= k < j < starts.len() ==> #[trigger] starts[k] + len <= #[trigger] starts[j]
            &&& forall|i: int|
                (if starts.len() == 0 {
                    0
                } else {
                    starts.last() + len
                }) <= i ==> !#[trigger] occurs(bytes, query, match_case, i)
        }),
{
    lemma_matches_occur(bytes, query, match_case);
    lemma_needle(query, match_case);
    lemma_greedy_in_turn(bytes, query, match_case, 0);
}

proof fn lemma_greedy_in_turn(bytes: Seq<u8>, query: Seq<char>, match_case: bool, from: int)
    requires
        query.len() > 0,
        0 <= from,
    ensures
        ({
            let len = encode_utf8(query).len() as int;
            let starts = greedy_matches(bytes, needle_of(query, match_case), match_case, from);
            &&& len > 0
            &&& forall|k: int|
                0 <= k < starts.len() ==> from <= #[trigger] starts[k] && occurs(
                    bytes,
                    query,
                    match_case,
                    starts[k],
                )
            &&& forall|k: int, i: int|
                0 <= k < starts.len() && (if k == 0 {
                    from
                } else {
                    starts[k - 1] + len
                }) <= i < #[trigger] starts[k] ==> !#[trigger] occurs(bytes, query, match_case, i)
            &&& forall|k: int, j: int|
                0 <= k < j < starts.len() ==> #[trigger] starts[k] + len <= #[trigger] starts[j]
            &&& forall|i: int|
                (if starts.len() == 0 {
                    from
                } else {
                    starts.last() + len
                }) <= i ==> !#[trigger] occurs(bytes, query, match_case, i)
        }),
    decreases bytes.len() - from,
{
    let needle = needle_of(query, match_case);
    let len = encode_utf8(query).len() as int;
    let starts = greedy_matches(bytes, needle, match_case, from);
    lemma_matches_occur(bytes, query, match_case);
    lemma_needle(query, match_case);
    lemma_first_match(bytes, needle, match_case, from);
    if let Some(first) = crate::search::first_match(bytes, needle, match_case, from) {
        assert(matches_at(bytes, needle, match_case, first));
        lemma_greedy_in_turn(bytes, query, match_case, first + len);
        let later = greedy_matches(bytes, needle, match_case, first + len);
        assert(starts =~= seq![first] + later);
        assert forall|k: int| 0 <= k < starts.len() implies from <= #[trigger] starts[k] && occurs(
            bytes,
            query,
            match_case,
            starts[k],
        ) by {
            if k > 0 {
                assert(starts[k] == later[k - 1]);
            }
        }
        assert forall|k: int, i: int|
            0 <= k < starts.len() && (if k == 0 {
                from
            } else {
                starts[k - 1] + len
            }) <= i < #[trigger] starts[k] implies !#[trigger] occurs(
            bytes,
            query,
            match_case,
            i,
        ) by {
            if k > 0 {
                assert(starts[k] == later[k - 1]);
                if k > 1 {
                    assert(starts[k - 1] == later[k - 2]);
                }
            } else {
                assert(!matches_at(bytes, needle, match_case, i));
            }
        }
        assert forall|k: int, j: int| 0 <= k < j < starts.len() implies #[trigger] starts[k] + len
            <= #[trigger] starts[j] by {
            assert(starts[j] == later[j - 1]);
            if k > 0 {
                assert(starts[k] == later[k - 1]);
            }
        }
        if later.len() > 0 {
            assert(starts.last() == later.last());
        }
    } else {
        assert forall|i: int| from <= i implies !#[trigger] occurs(
            bytes,
            query,
            match_case,
            i,
        ) by {
            assert(!matches_at(bytes, needle, match_case, i));
        }
    }
}

/// What Replace All makes of the text between the places that it works on, which
/// begin at `starts[k]`, `starts[k + 1]` and so on: it stays, and the replacement
/// stands in each of the places.
pub open spec fn pieced_together(
    bytes: Seq<u8>,
    starts: Seq<int>,
    len: int,
    put_in: Seq<u8>,
    k: int,
    from: int,
) -> Seq<u8>
    decreases starts.len() - k,
{
    if k < 0 || k >= starts.len() {
        bytes.skip(from)
    } else {
        bytes.subrange(from, starts[k]) + put_in + pieced_together(
            bytes,
            starts,
            len,
            put_in,
            k + 1,
            starts[k] + len,
        )
    }
}

/// Replace All puts the replacement in the place of each of the occurrences and
/// leaves what lies between them as it was.
pub proof fn law_replace_all_leaves_the_rest(
    m: AppModel,
    query: Seq<char>,
    replacement: Seq<char>,
    match_case: bool,
)
    requires
        valid_utf8(m.document.bytes),
        m.document.bytes.len() <= usize::MAX,
        query.len() > 0,
    ensures
        ({
            let len = encode_utf8(query).len() as int;
            let starts = greedy_matches(
                m.document.bytes,
                needle_of(query, match_case),
                match_case,
                0,
            );
            let (after, error) = all_replaced(m, starts, len, replacement);
            &&& error is None
            &&& after.document.bytes == pieced_together(
                m.document.bytes,
                starts,
                len,
                encode_utf8(replacement),
                0,
                0,
            )
            &&& after.selection is None
            &&& after.settings == m.settings
            &&& after.caret == (if m.caret <= after.document.bytes.len() {
                m.caret
            } else {
                after.document.bytes.len() as int
            })
        }),
{
    let bytes = m.document.bytes;
    let len = encode_utf8(query).len() as int;
    let needle = needle_of(query, match_case);
    let starts = greedy_matches(bytes, needle, match_case, 0);
    law_match_is_the_searched_text(bytes, query, match_case, 0);
    law_replace_all_replaces_every_match(m, query, replacement, match_case);
    lemma_pieced(bytes, starts, len, replacement, 0, 0);
}

proof fn lemma_pieced(
    bytes: Seq<u8>,
    starts: Seq<int>,
    len: int,
    replacement: Seq<char>,
    k: int,
    from: int,
)
    requires
        0 <= k <= starts.len(),
    ensures
        replaced_together(bytes, replacing_edits(starts, len, replacement), k, from)
            == pieced_together(bytes, starts, len, encode_utf8(replacement), k, from),
    decreases starts.len() - k,
{
    if k < starts.len() {
        lemma_pieced(bytes, starts, len, replacement, k + 1, starts[k] + len);
    }
}

} // verus!
