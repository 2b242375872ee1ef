//! What holds of the editor's operations together.

use crate::app::{
    all_replaced, all_selected, caret_set, deleted_backward, deleted_forward, edit_undone,
    found_start, moved_left, moved_line_end, moved_line_start, moved_right, moved_vertically,
    next_replaced, range_selected, replacing_edits, search_offset, searched, selected,
    selected_chars, selection_cut, selection_deleted, selection_matches, step_above, step_below,
    typed, zoom_steps, zoomed_in, zoomed_out, AppModel,
};
use crate::document::{
    boundary_error, caret_column, caret_error, char_column, column_offset, content_end,
    document_valid, floor_boundary, leading_width, lemma_line_span, next_error, previous_error,
    text_range_error, undone, DocumentModel,
};
use crate::line_index::{is_newline_byte, lemma_line_at, line_at, line_end, min};
use crate::piece_table::spliced;
use crate::search::{
    first_match, folded, folded_seq, greedy_matches, lemma_first_match, lemma_greedy_bounds,
    lemma_last_match, lemma_needle, matches_at, needle_of,
};
use crate::text::{lemma_boundary, lemma_encode_one, on_boundary, shown_text};
use crate::undo_laws::{
    edits_apart, law_edits_replace_all_at_once, law_undo_restores_edit, law_undo_restores_edits,
    lemma_same_order, lemma_sorted_apart, lemma_splice_is_text, lemma_subrange_is_text,
    replaced_together, restores,
};
use vstd::prelude::*;
use vstd::utf8::*;

verus! {

/// Bytes that are the same up to the case of ASCII letters are UTF-8 together.
proof fn lemma_folding_keeps_utf8(a: Seq<u8>, b: Seq<u8>, match_case: bool)
    requires
        folded_seq(a, match_case) == folded_seq(b, match_case),
        valid_utf8(b),
    ensures
        valid_utf8(a),
    decreases b.len(),
{
    assert(a.len() == folded_seq(a, match_case).len());
    assert(b.len() == folded_seq(b, match_case).len());
    assert forall|i: int| 0 <= i < a.len() implies folded(a[i], match_case) == folded(
        b[i],
        match_case,
    ) by {
        assert(folded_seq(a, match_case)[i] == folded(a[i], match_case));
        assert(folded_seq(b, match_case)[i] == folded(b[i], match_case));
    }
    if b.len() > 0 {
        let k = length_of_first_scalar(b);
        assert(valid_first_scalar(b));
        if is_leading_byte_width_1(b[0]) {
            assert(a[0] <= 0x7f);
            let first = a[0];
            assert(first & 0x7f <= 0x7f) by (bit_vector);
            assert(codepoint_width_1(a[0]) <= 0x7f);
        } else {
            assert forall|i: int| 0 <= i < k implies a[i] == b[i] by {
                assert(b[i] >= 0x80);
            }
        }
        assert(valid_first_scalar(a));
        assert(length_of_first_scalar(a) == k);
        assert(folded_seq(pop_first_scalar(a), match_case) =~= folded_seq(a, match_case).subrange(
            k,
            a.len() as int,
        ));
        assert(folded_seq(pop_first_scalar(b), match_case) =~= folded_seq(b, match_case).subrange(
            k,
            b.len() as int,
        ));
        lemma_folding_keeps_utf8(pop_first_scalar(a), pop_first_scalar(b), match_case);
    }
}

/// A text that the bytes begin with ends between characters.
pub proof fn lemma_front_ends_on_boundary(bytes: Seq<u8>, end: int)
    requires
        valid_utf8(bytes),
        0 <= end <= bytes.len(),
        valid_utf8(bytes.take(end)),
    ensures
        is_char_boundary(bytes, end),
    decreases bytes.len(),
{
    if end > 0 {
        let front = bytes.take(end);
        let k = length_of_first_scalar(bytes);
        assert(valid_first_scalar(front));
        assert(front[0] == bytes[0]);
        assert(length_of_first_scalar(front) == k);
        assert(pop_first_scalar(front) =~= pop_first_scalar(bytes).take(end - k));
        lemma_front_ends_on_boundary(pop_first_scalar(bytes), end - k);
    }
}

/// A match begins and ends between characters.
pub proof fn lemma_match_on_boundaries(bytes: Seq<u8>, query: Seq<char>, match_case: bool, at: int)
    requires
        valid_utf8(bytes),
        query.len() > 0,
        matches_at(bytes, needle_of(query, match_case), match_case, at),
    ensures
        on_boundary(bytes, at),
        on_boundary(bytes, at + needle_of(query, match_case).len()),
        at < at + needle_of(query, match_case).len() <= bytes.len(),
{
    let needle = needle_of(query, match_case);
    let part = bytes.subrange(at, at + needle.len());
    let rest = bytes.subrange(at, bytes.len() as int);
    lemma_needle(query, match_case);
    encode_utf8_valid_utf8(query);
    lemma_folding_keeps_utf8(part, encode_utf8(query), match_case);
    assert(valid_first_scalar(part));
    assert(part[0] == bytes[at]);
    lemma_boundary(bytes, at);
    valid_utf8_split(bytes, at);
    assert(rest.take(needle.len() as int) =~= part);
    lemma_front_ends_on_boundary(rest, needle.len() as int);
    lemma_boundary(rest, needle.len() as int);
    if needle.len() < rest.len() {
        assert(rest[needle.len() as int] == bytes[at + needle.len()]);
    }
}

/// What follows an ASCII byte begins a character.
pub proof fn lemma_boundary_after_ascii(bytes: Seq<u8>, at: int)
    requires
        valid_utf8(bytes),
        0 < at <= bytes.len(),
        bytes[at - 1] <= 0x7F,
    ensures
        on_boundary(bytes, at),
{
    if at < bytes.len() {
        let rest = bytes.subrange(at - 1, bytes.len() as int);
        lemma_boundary(bytes, at - 1);
        valid_utf8_split(bytes, at - 1);
        assert(rest[0] == bytes[at - 1]);
        let behind = pop_first_scalar(rest);
        assert(rest.len() > 0);
        assert(valid_first_scalar(rest));
        assert(is_leading_byte_width_1(rest[0]));
        assert(length_of_first_scalar(rest) == 1);
        assert(valid_utf8(behind));
        assert(behind.len() > 0);
        assert(behind[0] == bytes[at]);
        assert(valid_first_scalar(behind));
    }
}

/// In valid text, the caret can stand at every place between characters.
pub proof fn law_caret_can_stand_between_characters(m: DocumentModel, offset: int)
    requires
        document_valid(m),
        valid_utf8(m.bytes),
        on_boundary(m.bytes, offset),
    ensures
        caret_error(m, offset) is None,
{
    let starts = m.index.starts;
    let line = line_at(starts, offset);
    lemma_line_at(starts, offset);
    if line > 0 {
        assert(is_newline_byte(m.bytes[starts[line] - 1]));
        lemma_boundary_after_ascii(m.bytes, starts[line]);
    } else if m.bytes.len() > 0 {
        assert(valid_first_scalar(m.bytes));
    }
    lemma_subrange_is_text(m.bytes, starts[line], offset);
}

/// In valid text, a search does not fail.
pub proof fn law_search_succeeds(
    m: AppModel,
    query: Seq<char>,
    match_case: bool,
    forward: bool,
    wrap_around: bool,
)
    requires
        document_valid(m.document),
        valid_utf8(m.document.bytes),
        0 <= m.caret,
        m.selection matches Some(range) ==> 0 <= range.0,
    ensures
        searched(m, query, match_case, forward, wrap_around).2 is None,
{
    let bytes = m.document.bytes;
    let needle = needle_of(query, match_case);
    lemma_first_match(bytes, needle, match_case, 0);
    lemma_first_match(bytes, needle, match_case, m.caret);
    lemma_last_match(bytes, needle, match_case, m.caret);
    lemma_last_match(bytes, needle, match_case, bytes.len() as int);
    if let Some(range) = m.selection {
        lemma_last_match(bytes, needle, match_case, range.0);
    }
    match found_start(bytes, query, match_case, forward, wrap_around, search_offset(m, forward)) {
        Some(at) => {
            lemma_match_on_boundaries(bytes, query, match_case, at);
            law_caret_can_stand_between_characters(m.document, at);
            law_caret_can_stand_between_characters(m.document, at + needle.len());
        },
        None => {},
    }
}

/// A search forward selects the nearest match behind the caret or, where there
/// is none and the search wraps around, the first of all. Without a match nothing
/// changes.
pub proof fn law_search_selects_the_next_match(
    m: AppModel,
    query: Seq<char>,
    match_case: bool,
    wrap_around: bool,
)
    requires
        document_valid(m.document),
        valid_utf8(m.document.bytes),
        0 <= m.caret,
        m.selection matches Some(range) ==> 0 <= range.0,
        query.len() > 0,
    ensures
        ({
            let bytes = m.document.bytes;
            let needle = needle_of(query, match_case);
            let (after, found, error) = searched(m, query, match_case, true, wrap_around);
            let behind = exists|i: int|
                m.caret <= i && #[trigger] matches_at(bytes, needle, match_case, i);
            let anywhere = exists|i: int| #[trigger] matches_at(bytes, needle, match_case, i);
            &&& error is None
            &&& found == (behind || (wrap_around && anywhere))
            &&& after.document == m.document
            &&& !found ==> after == m
            &&& found ==> {
                let start = after.caret - needle.len();
                &&& after.selection == Some((start, after.caret))
                &&& matches_at(bytes, needle, match_case, start)
                &&& behind ==> m.caret <= start && forall|i: int|
                    m.caret <= i < start ==> !#[trigger] matches_at(bytes, needle, match_case, i)
                &&& !behind ==> forall|i: int|
                    i < start ==> !#[trigger] matches_at(bytes, needle, match_case, i)
            }
        }),
{
    law_search_succeeds(m, query, match_case, true, wrap_around);
    let bytes = m.document.bytes;
    let needle = needle_of(query, match_case);
    lemma_first_match(bytes, needle, match_case, 0);
    lemma_first_match(bytes, needle, match_case, m.caret);
}

/// The matches of a text are no more than its bytes.
proof fn lemma_few_matches(bytes: Seq<u8>, needle: Seq<u8>, match_case: bool, from: int)
    requires
        needle.len() > 0,
        0 <= from,
    ensures
        greedy_matches(bytes, needle, match_case, from).len() <= bytes.len(),
        from <= bytes.len() ==> greedy_matches(bytes, needle, match_case, from).len()
            <= bytes.len() - from,
    decreases bytes.len() - from,
{
    lemma_first_match(bytes, needle, match_case, from);
    if let Some(i) = first_match(bytes, needle, match_case, from) {
        lemma_few_matches(bytes, needle, match_case, i + needle.len());
    }
}

/// In valid text, replacing all matches succeeds, and replaces them all at once.
pub proof fn law_replace_all_replaces_every_match(
    m: AppModel,
    query: Seq<char>,
    replacement: Seq<char>,
    match_case: bool,
)
    requires
        valid_utf8(m.document.bytes),
        m.document.bytes.len() <= usize::MAX,
        query.len() > 0,
    ensures
        ({
            let needle = needle_of(query, match_case);
            let starts = greedy_matches(m.document.bytes, needle, match_case, 0);
            let edits = replacing_edits(starts, needle.len() as int, replacement);
            let outcome = all_replaced(m, starts, needle.len() as int, replacement);
            &&& outcome.1 is None
            &&& outcome.0.document.bytes == replaced_together(m.document.bytes, edits, 0, 0)
        }),
{
    let bytes = m.document.bytes;
    let needle = needle_of(query, match_case);
    let starts = greedy_matches(bytes, needle, match_case, 0);
    let edits = replacing_edits(starts, needle.len() as int, replacement);
    lemma_needle(query, match_case);
    lemma_greedy_bounds(bytes, needle, match_case, 0);
    lemma_few_matches(bytes, needle, match_case, 0);
    assert forall|i: int| 0 <= i < edits.len() implies 0 <= (#[trigger] edits[i]).start
        <= edits[i].end <= bytes.len() && on_boundary(bytes, edits[i].start) && on_boundary(
        bytes,
        edits[i].end,
    ) by {
        assert(matches_at(bytes, needle, match_case, starts[i]));
        lemma_match_on_boundaries(bytes, query, match_case, starts[i]);
    }
    assert forall|i: int, j: int| 0 <= i < j < edits.len() implies (#[trigger] edits[i]).start < (
    #[trigger] edits[j]).start && edits[i].end <= edits[j].start by {
        assert(starts[i] + needle.len() <= starts[j]);
    }
    assert(edits_apart(bytes, edits));
    lemma_sorted_apart(bytes, edits);
    lemma_same_order(bytes, crate::document::ascending(edits), edits);
    law_edits_replace_all_at_once(m.document, edits);
}

/// A search that finds something selects text that is the searched one.
pub proof fn law_found_text_is_the_searched_one(
    m: AppModel,
    query: Seq<char>,
    match_case: bool,
    forward: bool,
    wrap_around: bool,
)
    requires
        0 <= m.caret,
        m.selection matches Some(range) ==> 0 <= range.0 && 0 <= range.1,
        searched(m, query, match_case, forward, wrap_around).1,
        searched(m, query, match_case, forward, wrap_around).2 is None,
    ensures
        selection_matches(
            searched(m, query, match_case, forward, wrap_around).0,
            query,
            match_case,
        ),
{
    let bytes = m.document.bytes;
    let needle = needle_of(query, match_case);
    let found = searched(m, query, match_case, forward, wrap_around).0;
    lemma_first_match(bytes, needle, match_case, 0);
    lemma_first_match(bytes, needle, match_case, m.caret);
    lemma_last_match(bytes, needle, match_case, m.caret);
    lemma_last_match(bytes, needle, match_case, bytes.len() as int);
    if let Some(range) = m.selection {
        lemma_first_match(bytes, needle, match_case, range.0);
        lemma_last_match(bytes, needle, match_case, range.0);
    }
    let (start, end) = found.selection.unwrap();
    assert(matches_at(bytes, needle, match_case, start));
    let part = bytes.subrange(start, start + needle.len());
    encode_utf8_valid_utf8(query);
    lemma_folding_keeps_utf8(part, encode_utf8(query), match_case);
    decode_utf8_encode_utf8(part);
    assert(shown_text(part) == decode_utf8(part));
    assert(needle_of(shown_text(part), match_case) == needle);
}

/// Replacing all matches, undone: the text is as before.
pub proof fn law_undo_restores_replace_all(
    m: AppModel,
    query: Seq<char>,
    replacement: Seq<char>,
    match_case: bool,
)
    requires
        document_valid(m.document),
        ({
            let needle = needle_of(query, match_case);
            let starts = greedy_matches(m.document.bytes, needle, match_case, 0);
            &&& starts.len() > 0
            &&& all_replaced(m, starts, needle.len() as int, replacement).1 is None
        }),
    ensures
        ({
            let needle = needle_of(query, match_case);
            let starts = greedy_matches(m.document.bytes, needle, match_case, 0);
            let after = all_replaced(m, starts, needle.len() as int, replacement).0;
            restores(undone(after.document), m.document)
        }),
{
    let needle = needle_of(query, match_case);
    let starts = greedy_matches(m.document.bytes, needle, match_case, 0);
    law_undo_restores_edits(m.document, replacing_edits(starts, needle.len() as int, replacement));
}

/// A step to the right and a step to the left lead back.
pub proof fn law_left_undoes_right(bytes: Seq<u8>, offset: int)
    requires
        0 <= offset < bytes.len(),
        next_error(bytes, offset) is None,
        boundary_error(bytes, offset + leading_width(bytes[offset])) is None,
    ensures
        ({
            let next = offset + leading_width(bytes[offset]);
            &&& previous_error(bytes, next) is None
            &&& floor_boundary(bytes, next - 1, 0) == offset
        }),
{
    let next = offset + leading_width(bytes[offset]);
    let part = bytes.subrange(offset, next);
    assert(text_range_error(bytes, offset, next) is None);
    assert(valid_utf8(part));
    assert(valid_first_scalar(part));
    assert(part[0] == bytes[offset]);
    assert forall|i: int| offset < i < next implies is_continuation_byte(bytes[i]) by {
        assert(part[i - offset] == bytes[i]);
    }
    reveal_with_fuel(floor_boundary, 5);
}

/// What was cut out and is pasted right away is back.
pub proof fn law_paste_restores_cut(m: AppModel)
    requires
        m.selection matches Some((start, end)) && start >= 0,
        selection_cut(m).1 is None,
    ensures
        ({
            let cut = selection_cut(m).0;
            let pasted = typed(cut, selected_chars(m)->0);
            &&& selected_chars(m) is Some
            &&& pasted.1 is None
            &&& pasted.0.document.bytes == m.document.bytes
            &&& m.selection matches Some((start, end)) && pasted.0.caret == end
        }),
{
    let (start, end) = m.selection->0;
    let bytes = m.document.bytes;
    let removed = bytes.subrange(start, end);
    let cut = selection_cut(m).0;
    lemma_encode_nothing();
    if start < end {
        assert(valid_utf8(removed));
        decode_utf8_encode_utf8(removed);
        lemma_splice_is_text(bytes, start, end, Seq::empty());
        let left = cut.document.bytes;
        assert(left == spliced(bytes, start, end, Seq::<u8>::empty()));
        assert(left.subrange(start, start) =~= Seq::<u8>::empty());
        assert(spliced(left, start, start, removed) =~= bytes);
    } else {
        assert(removed =~= Seq::<u8>::empty());
        assert(decode_utf8(removed) =~= Seq::<char>::empty());
    }
}

/// A character that was typed is taken back by a backspace.
pub proof fn law_backspace_takes_back_a_character(m: AppModel, character: char)
    requires
        m.selection is None,
        m.caret >= 0,
        typed(m, seq![character]).1 is None,
    ensures
        ({
            let back = deleted_backward(typed(m, seq![character]).0);
            &&& back.1 is None
            &&& back.0.document.bytes == m.document.bytes
            &&& back.0.caret == m.caret
        }),
{
    let text = seq![character];
    let added = encode_utf8(text);
    let bytes = m.document.bytes;
    let caret = m.caret;
    let new = spliced(bytes, caret, caret, added);
    lemma_splice_is_text(bytes, caret, caret, text);
    lemma_encode_one(character);
    encode_utf8_first_scalar(text);
    encode_utf8_valid_utf8(text);
    lemma_encode_nothing();
    assert(typed(m, text).0.document.bytes == new);
    assert(new.subrange(caret, caret + added.len()) =~= added);
    assert forall|i: int| caret < i < caret + added.len() implies is_continuation_byte(new[i]) by {
        assert(new[i] == added[i - caret]);
    }
    reveal_with_fuel(floor_boundary, 5);
    assert(floor_boundary(new, caret + added.len() - 1, 0) == caret);
    assert(spliced(new, caret, caret + added.len(), Seq::<u8>::empty()) =~= bytes);
}

proof fn lemma_encode_nothing()
    ensures
        encode_utf8(Seq::<char>::empty()) == Seq::<u8>::empty(),
{
    assert(encode_utf8(Seq::<char>::empty()) =~= Seq::<u8>::empty());
}

/// Whatever was typed at the caret or over the selection, undo brings back the
/// text as it was.
pub proof fn law_undo_restores_typing(m: AppModel, text: Seq<char>)
    requires
        document_valid(m.document),
        typed(m, text).1 is None,
        text.len() > 0 || (m.selection matches Some(range) && range.0 < range.1),
    ensures
        ({
            let back = edit_undone(typed(m, text).0);
            &&& back.1 is None
            &&& back.0.document.bytes == m.document.bytes
            &&& back.0.document.generation == m.document.generation
            &&& back.0.document.dirty == m.document.dirty
        }),
{
    let (start, end) = match m.selection {
        Some(range) => range,
        None => (m.caret, m.caret),
    };
    law_undo_restores_edit(m.document, start, end, text);
}

/// Text that is typed over all of the text is all there is.
pub proof fn law_typing_over_all_replaces_all(m: AppModel, text: Seq<char>)
    requires
        typed(all_selected(m), text).1 is None,
    ensures
        typed(all_selected(m), text).0.document.bytes == encode_utf8(text),
        typed(all_selected(m), text).0.caret == encode_utf8(text).len(),
{
    let bytes = m.document.bytes;
    assert(spliced(bytes, 0, bytes.len() as int, encode_utf8(text)) =~= encode_utf8(text));
    if text.len() == 0 {
        assert(text =~= Seq::<char>::empty());
        lemma_encode_nothing();
    }
    if bytes.len() == 0 && text.len() == 0 {
        assert(bytes =~= encode_utf8(text));
    }
}

/// Every line can be gone to by its number: its start lies on that line.
pub proof fn law_line_start_is_on_its_line(m: DocumentModel, line: int)
    requires
        document_valid(m),
        0 <= line < m.index.starts.len(),
    ensures
        line_at(m.index.starts, m.index.starts[line]) == line,
        caret_error(m, m.index.starts[line]) is None,
        caret_column(m, m.index.starts[line]) == 1,
{
    let starts = m.index.starts;
    let at = line_at(starts, starts[line]);
    assert(starts[0] == 0);
    if line > 0 {
        assert(starts[0] < starts[line]);
    }
    if line < starts.len() - 1 {
        assert(starts[line] < starts[starts.len() - 1]);
    }
    lemma_line_at(starts, starts[line]);
    if at < line {
        assert(starts[line] < starts[line]);
    } else if line < at {
        assert(starts[line] < starts[at]);
    }
    let none = m.bytes.subrange(starts[line], starts[line]);
    assert(none =~= Seq::<u8>::empty());
    assert(decode_utf8(none) =~= Seq::<char>::empty());
}

/// Every offset of a text whose lines are all known lies within its line.
pub proof fn law_offset_lies_within_its_line(m: DocumentModel, offset: int)
    requires
        document_valid(m),
        m.index.complete,
        0 <= offset <= m.bytes.len(),
    ensures
        ({
            let line = line_at(m.index.starts, offset);
            let end = line_end(m.index, line, m.bytes.len() as int);
            &&& 0 <= line < m.index.starts.len()
            &&& m.index.starts[line] <= offset <= end
            &&& offset == end ==> line == m.index.starts.len() - 1
        }),
{
    lemma_line_at(m.index.starts, offset);
    lemma_line_span(m, line_at(m.index.starts, offset));
}

/// From one step of the zoom to the next and back: nothing has changed.
pub proof fn law_zooming_out_undoes_zooming_in(current: u16)
    requires
        zoom_steps().contains(current),
    ensures
        current < 500 ==> zoomed_out(zoomed_in(current)) == current,
        current > 10 ==> zoomed_in(zoomed_out(current)) == current,
        zoom_steps().contains(zoomed_in(current)),
        zoom_steps().contains(zoomed_out(current)),
{
    let steps = zoom_steps();
    let k = choose|k: int| 0 <= k < steps.len() && steps[k] == current;
    lemma_step_above(k, 0);
    lemma_step_below(k, steps.len() as int);
    if k < 17 {
        lemma_step_below(k + 1, steps.len() as int);
    }
    if k > 0 {
        lemma_step_above(k - 1, 0);
    }
    assert(steps[17] == 500);
    assert(steps[0] == 10);
}

proof fn lemma_step_above(k: int, i: int)
    requires
        0 <= k < zoom_steps().len(),
        0 <= i <= k + 1,
    ensures
        step_above(zoom_steps()[k], i) == (if k < 17 {
            zoom_steps()[k + 1]
        } else {
            500
        }),
    decreases k + 1 - i,
{
    if i <= k {
        assert(zoom_steps()[i] <= zoom_steps()[k]);
        lemma_step_above(k, i + 1);
    }
}

proof fn lemma_step_below(k: int, n: int)
    requires
        0 <= k <= n <= zoom_steps().len(),
        k < zoom_steps().len(),
    ensures
        step_below(zoom_steps()[k], n) == (if k > 0 {
            zoom_steps()[k - 1]
        } else {
            10
        }),
    decreases n - k,
{
    if n > k {
        assert(zoom_steps()[n - 1] >= zoom_steps()[k]);
        lemma_step_below(k, n - 1);
    }
}

/// The caret and both ends of the selection lie within the text.
pub open spec fn in_text(m: AppModel) -> bool {
    let len = m.document.bytes.len();
    &&& 0 <= m.caret <= len
    &&& m.selection matches Some((start, end)) ==> 0 <= start <= len && 0 <= end <= len
}

/// Editing leaves the caret and the selection within the text.
pub proof fn law_editing_stays_in_text(m: AppModel, text: Seq<char>)
    requires
        in_text(m),
    ensures
        in_text(typed(m, text).0),
        in_text(selection_deleted(m).0),
        in_text(selection_cut(m).0),
        in_text(deleted_forward(m).0),
        in_text(deleted_backward(m).0),
        edit_undone(m).1 is None ==> in_text(edit_undone(m).0),
{
    lemma_encode_nothing();
    lemma_floor_boundary(m.document.bytes, m.caret - 1, 0);
}

/// Moving the caret, selecting and searching stay within the text.
pub proof fn law_moving_stays_in_text(
    m: AppModel,
    anchor: int,
    focus: int,
    query: Seq<char>,
    match_case: bool,
    forward: bool,
    wrap_around: bool,
)
    requires
        document_valid(m.document),
        in_text(m),
        anchor >= 0,
        focus >= 0,
    ensures
        in_text(caret_set(m, focus).0),
        in_text(selected(m, anchor, focus).0),
        in_text(range_selected(m, anchor, focus).0),
        in_text(all_selected(m)),
        in_text(moved_left(m).0),
        in_text(moved_right(m).0),
        in_text(moved_line_start(m).0),
        in_text(moved_line_end(m).0),
        in_text(moved_vertically(m, true).0),
        in_text(moved_vertically(m, false).0),
        in_text(searched(m, query, match_case, forward, wrap_around).0),
{
    let d = m.document;
    let line = line_at(d.index.starts, m.caret);
    let needle = needle_of(query, match_case);
    lemma_floor_boundary(d.bytes, m.caret - 1, 0);
    lemma_line_at(d.index.starts, m.caret);
    lemma_line_span(d, line);
    lemma_line_stays_in_text(d, line + 1, char_column(d, m.caret));
    lemma_line_stays_in_text(d, line - 1, char_column(d, m.caret));
    lemma_first_match(d.bytes, needle, match_case, 0);
    lemma_first_match(d.bytes, needle, match_case, m.caret);
    lemma_last_match(d.bytes, needle, match_case, m.caret);
    lemma_last_match(d.bytes, needle, match_case, d.bytes.len() as int);
    if let Some(range) = m.selection {
        lemma_last_match(d.bytes, needle, match_case, range.0);
    }
}

proof fn lemma_floor_boundary(bytes: Seq<u8>, offset: int, lower: int)
    ensures
        floor_boundary(bytes, offset, lower) >= lower,
        floor_boundary(bytes, offset, lower) <= offset || floor_boundary(bytes, offset, lower)
            == lower,
    decreases offset - lower,
{
    if offset > lower {
        lemma_floor_boundary(bytes, offset - 1, lower);
    }
}

proof fn lemma_line_stays_in_text(m: DocumentModel, line: int, column: int)
    requires
        document_valid(m),
    ensures
        0 <= line < m.index.starts.len() ==> column_offset(m, line, column) >= 0,
{
    if 0 <= line < m.index.starts.len() {
        lemma_line_span(m, line);
        let start = m.index.starts[line];
        lemma_floor_boundary(m.bytes, min(start + column, content_end(m, line)), start);
    }
}

/// Replacing keeps to the text, too.
pub proof fn law_replacing_stays_in_text(
    m: AppModel,
    query: Seq<char>,
    replacement: Seq<char>,
    match_case: bool,
    starts: Seq<int>,
    len: int,
)
    requires
        document_valid(m.document),
        in_text(m),
    ensures
        in_text(next_replaced(m, query, replacement, match_case).0),
        all_replaced(m, starts, len, replacement).1 is None ==> in_text(
            all_replaced(m, starts, len, replacement).0,
        ),
{
    law_moving_stays_in_text(m, 0, 0, query, match_case, true, true);
}

} // verus!
