//! What typing, deleting, selecting and moving the caret do to the text, told in
//! terms of its bytes and characters.

use crate::app::{
    all_selected, caret_set, deleted_backward, deleted_forward, moved_left, moved_line_end,
    moved_line_start, moved_right, moved_vertically, range_selected, selected, selected_chars,
    selection_cut, selection_deleted, typed, AppModel,
};
use crate::app_laws::{law_caret_can_stand_between_characters, lemma_boundary_after_ascii};
use crate::document::{
    content_end, document_valid, floor_boundary, leading_width, leads_char, lemma_line_span,
    DocumentModel, MAX_COLUMN_SCAN_BYTES,
};
use crate::line_index::{
    is_newline_byte, lemma_line_at, lemma_line_breaks_bounds, line_at, line_breaks, line_end,
    line_starts,
};
use crate::piece_table::spliced;
use crate::text::{lemma_boundary, lemma_encode_concat, lemma_encode_one, on_boundary};
use crate::undo_laws::lemma_subrange_is_text;
use vstd::prelude::*;
use vstd::utf8::*;

verus! {

// ---------------------------------------------------------------------------
// Typing and deleting
// ---------------------------------------------------------------------------

/// The range from `start` to `end` lies in the text, between characters.
pub open spec fn between_characters(bytes: Seq<u8>, start: int, end: int) -> bool {
    &&& valid_utf8(bytes)
    &&& 0 <= start <= end <= bytes.len()
    &&& is_char_boundary(bytes, start)
    &&& is_char_boundary(bytes, end)
}

/// `after` is `before` but for the text, its caret and its selection: nothing is
/// selected, and the settings and the clipboard are as they were.
pub open spec fn only_text_changed(before: AppModel, after: AppModel) -> bool {
    &&& after.selection is None
    &&& after.settings == before.settings
    &&& after.clipboard_has_text == before.clipboard_has_text
    &&& after.document.path == before.document.path
    &&& after.document.encoding == before.document.encoding
    &&& after.document.line_ending == before.document.line_ending
}

proof fn lemma_edit_goes_through(bytes: Seq<u8>, start: int, end: int)
    requires
        between_characters(bytes, start, end),
    ensures
        on_boundary(bytes, start),
        on_boundary(bytes, end),
        valid_utf8(bytes.subrange(start, end)),
{
    lemma_boundary(bytes, start);
    lemma_boundary(bytes, end);
    lemma_subrange_is_text(bytes, start, end);
}

/// What is typed takes the place of the selection, wherever the caret stands,
/// and the caret comes to stand behind it.
pub proof fn law_typing_replaces_the_selection(
    m: AppModel,
    start: int,
    end: int,
    text: Seq<char>,
)
    requires
        m.selection == Some((start, end)),
        between_characters(m.document.bytes, start, end),
    ensures
        typed(m, text).1 is None,
        typed(m, text).0.document.bytes == m.document.bytes.take(start) + encode_utf8(text)
            + m.document.bytes.skip(end),
        typed(m, text).0.caret == start + encode_utf8(text).len(),
        only_text_changed(m, typed(m, text).0),
{
    lemma_edit_goes_through(m.document.bytes, start, end);
    if text.len() == 0 {
        assert(text =~= Seq::<char>::empty());
        assert(encode_utf8(text) =~= Seq::<u8>::empty());
        if start == end {
            assert(m.document.bytes.take(start) + encode_utf8(text) + m.document.bytes.skip(end)
                =~= m.document.bytes);
        }
    }
}

/// Where nothing is selected, what is typed goes in at the caret, which moves
/// behind it.
pub proof fn law_typing_goes_in_at_the_caret(m: AppModel, text: Seq<char>)
    requires
        m.selection is None,
        between_characters(m.document.bytes, m.caret, m.caret),
    ensures
        typed(m, text).1 is None,
        typed(m, text).0.document.bytes == m.document.bytes.take(m.caret) + encode_utf8(text)
            + m.document.bytes.skip(m.caret),
        typed(m, text).0.caret == m.caret + encode_utf8(text).len(),
        only_text_changed(m, typed(m, text).0),
{
    let bytes = m.document.bytes;
    lemma_edit_goes_through(bytes, m.caret, m.caret);
    if text.len() == 0 {
        assert(text =~= Seq::<char>::empty());
        assert(encode_utf8(text) =~= Seq::<u8>::empty());
        assert(bytes.take(m.caret) + encode_utf8(text) + bytes.skip(m.caret) =~= bytes);
    }
}

/// The selection goes, and nothing else, with the caret where it was.
pub open spec fn selection_is_gone(m: AppModel, after: AppModel, start: int, end: int) -> bool {
    &&& after.document.bytes == m.document.bytes.take(start) + m.document.bytes.skip(end)
    &&& after.caret == start
    &&& only_text_changed(m, after)
}

/// Deleting, cutting, Delete and Backspace all take away what is selected.
pub proof fn law_deleting_takes_away_the_selection(m: AppModel, start: int, end: int)
    requires
        m.selection == Some((start, end)),
        between_characters(m.document.bytes, start, end),
    ensures
        selection_deleted(m).1 is None,
        selection_is_gone(m, selection_deleted(m).0, start, end),
        selection_cut(m).1 is None,
        selection_is_gone(m, selection_cut(m).0, start, end),
        deleted_forward(m).1 is None,
        selection_is_gone(m, deleted_forward(m).0, start, end),
        deleted_backward(m).1 is None,
        selection_is_gone(m, deleted_backward(m).0, start, end),
{
    let bytes = m.document.bytes;
    lemma_edit_goes_through(bytes, start, end);
    assert(encode_utf8(Seq::<char>::empty()) =~= Seq::<u8>::empty());
    assert(spliced(bytes, start, end, Seq::<u8>::empty()) =~= bytes.take(start) + bytes.skip(end));
    if start == end {
        assert(bytes.take(start) + bytes.skip(end) =~= bytes);
    }
}

/// Without a selection there is nothing to delete or to cut.
pub proof fn law_without_selection_nothing_is_cut(m: AppModel)
    requires
        m.selection is None,
    ensures
        selection_deleted(m) == (m, None::<crate::error::ErrorModel>),
        selection_cut(m) == (m, None::<crate::error::ErrorModel>),
        selected_chars(m) is None,
{
}

/// The text is made up of `before`, `chosen` and `after`.
pub open spec fn reads(m: AppModel, before: Seq<char>, chosen: Seq<char>, after: Seq<char>) -> bool {
    m.document.bytes == encode_utf8(before + chosen + after)
}

/// The offset behind a text that the document begins with.
pub open spec fn behind(text: Seq<char>) -> int {
    encode_utf8(text).len() as int
}

pub proof fn lemma_parts(before: Seq<char>, chosen: Seq<char>, after: Seq<char>)
    ensures
        ({
            let bytes = encode_utf8(before + chosen + after);
            &&& bytes == encode_utf8(before) + encode_utf8(chosen) + encode_utf8(after)
            &&& behind(before + chosen) == behind(before) + encode_utf8(chosen).len()
            &&& behind(before) <= behind(before + chosen) <= bytes.len()
            &&& between_characters(bytes, behind(before), behind(before + chosen))
            &&& on_boundary(bytes, behind(before))
            &&& on_boundary(bytes, behind(before + chosen))
            &&& bytes.subrange(behind(before), behind(before + chosen)) == encode_utf8(chosen)
            &&& bytes.take(behind(before)) == encode_utf8(before)
            &&& bytes.skip(behind(before + chosen)) == encode_utf8(after)
            &&& decode_utf8(encode_utf8(chosen)) == chosen
            &&& valid_utf8(encode_utf8(chosen))
        }),
{
    let bytes = encode_utf8(before + chosen + after);
    lemma_encode_concat(before + chosen, after);
    lemma_encode_concat(before, chosen);
    encode_utf8_valid_utf8(before);
    encode_utf8_valid_utf8(chosen);
    encode_utf8_decode_utf8(chosen);
    encode_utf8_valid_utf8(after);
    encode_utf8_valid_utf8(before + chosen + after);
    lemma_encode_concat(chosen, after);
    encode_utf8_valid_utf8(chosen + after);
    lemma_joint(encode_utf8(before), encode_utf8(chosen) + encode_utf8(after));
    assert(bytes =~= encode_utf8(before) + (encode_utf8(chosen) + encode_utf8(after)));
    lemma_joint(encode_utf8(before + chosen), encode_utf8(after));
    encode_utf8_valid_utf8(before + chosen);
    lemma_boundary(bytes, behind(before));
    lemma_boundary(bytes, behind(before + chosen));
    assert(bytes.subrange(behind(before), behind(before + chosen)) =~= encode_utf8(chosen));
    assert(bytes.take(behind(before)) =~= encode_utf8(before));
    assert(bytes.skip(behind(before + chosen)) =~= encode_utf8(after));
}

/// Two texts meet between characters.
pub proof fn lemma_joint(a: Seq<u8>, b: Seq<u8>)
    requires
        valid_utf8(b),
    ensures
        on_boundary(a + b, a.len() as int),
{
    if b.len() > 0 {
        assert((a + b)[a.len() as int] == b[0]);
        assert(valid_first_scalar(b));
    }
}

/// What is copied or cut is the text that is selected.
pub proof fn law_selected_text_is_what_is_selected(
    m: AppModel,
    before: Seq<char>,
    chosen: Seq<char>,
    after: Seq<char>,
)
    requires
        reads(m, before, chosen, after),
        m.selection == Some((behind(before), behind(before + chosen))),
    ensures
        selected_chars(m) == Some(chosen),
{
    lemma_parts(before, chosen, after);
}

/// The first byte of a character tells how long it is, and no other byte of it
/// is one that a character begins with.
proof fn lemma_one_character(c: char)
    ensures
        ({
            let one = encode_utf8(seq![c]);
            &&& one.len() > 0
            &&& leading_width(one[0]) == one.len()
            &&& leads_char(one[0])
            &&& !is_continuation_byte(one[0])
            &&& forall|i: int| 0 < i < one.len() ==> is_continuation_byte(#[trigger] one[i])
        }),
{
    let one = encode_utf8(seq![c]);
    let v = c as u32;
    lemma_encode_one(c);
    char_is_scalar(c);
    encode_utf8_first_scalar(seq![c]);
    encode_utf8_valid_utf8(seq![c]);
    assert(valid_first_scalar(one));
    assert(v <= 0x7F ==> leading_byte_width_1(v) <= 0x7F) by (bit_vector);
    assert(0x80 <= v <= 0x7FF ==> 0xC2 <= leading_byte_width_2(v) <= 0xDF) by (bit_vector);
    assert(0x800 <= v <= 0xFFFF ==> 0xE0 <= leading_byte_width_3(v) <= 0xEF) by (bit_vector);
    assert(0x10000 <= v <= 0x10FFFF ==> 0xF0 <= leading_byte_width_4(v) <= 0xF4) by (bit_vector);
}

/// Delete takes away the character behind the caret, which stays in its place.
pub proof fn law_delete_takes_away_the_next_character(
    m: AppModel,
    before: Seq<char>,
    c: char,
    after: Seq<char>,
)
    requires
        reads(m, before, seq![c], after),
        m.selection is None,
        m.caret == behind(before),
    ensures
        deleted_forward(m).1 is None,
        deleted_forward(m).0.document.bytes == encode_utf8(before + after),
        deleted_forward(m).0.caret == m.caret,
        only_text_changed(m, deleted_forward(m).0),
{
    lemma_parts(before, seq![c], after);
    lemma_one_character(c);
    lemma_encode_concat(before, after);
    let bytes = m.document.bytes;
    let one = encode_utf8(seq![c]);
    let end = behind(before + seq![c]);
    assert(bytes[m.caret] == one[0]);
    assert(encode_utf8(Seq::<char>::empty()) =~= Seq::<u8>::empty());
    assert(spliced(bytes, m.caret, end, Seq::<u8>::empty()) =~= encode_utf8(before) + encode_utf8(
        after,
    ));
}

/// The last byte of a text before `end` that a character begins with.
proof fn lemma_floor_is(bytes: Seq<u8>, at: int, from: int)
    requires
        0 <= at <= from < bytes.len(),
        !is_continuation_byte(bytes[at]),
        forall|i: int| at < i <= from ==> is_continuation_byte(#[trigger] bytes[i]),
    ensures
        floor_boundary(bytes, from, 0) == at,
    decreases from - at,
{
    if from > at {
        assert(is_continuation_byte(bytes[from]));
        lemma_floor_is(bytes, at, from - 1);
    }
}

proof fn lemma_character_before(before: Seq<char>, c: char, after: Seq<char>)
    ensures
        ({
            let bytes = encode_utf8(before + seq![c] + after);
            let end = behind(before + seq![c]);
            &&& behind(before) < end
            &&& floor_boundary(bytes, end - 1, 0) == behind(before)
        }),
{
    lemma_parts(before, seq![c], after);
    lemma_one_character(c);
    let bytes = encode_utf8(before + seq![c] + after);
    let one = encode_utf8(seq![c]);
    let start = behind(before);
    let end = behind(before + seq![c]);
    assert(bytes[start] == one[0]);
    assert forall|i: int| start < i <= end - 1 implies is_continuation_byte(#[trigger] bytes[i]) by {
        assert(bytes[i] == one[i - start]);
    }
    lemma_floor_is(bytes, start, end - 1);
}

/// Backspace takes away the character before the caret, which moves to where it
/// was.
pub proof fn law_backspace_takes_away_the_previous_character(
    m: AppModel,
    before: Seq<char>,
    c: char,
    after: Seq<char>,
)
    requires
        reads(m, before, seq![c], after),
        m.selection is None,
        m.caret == behind(before + seq![c]),
    ensures
        deleted_backward(m).1 is None,
        deleted_backward(m).0.document.bytes == encode_utf8(before + after),
        deleted_backward(m).0.caret == behind(before),
        only_text_changed(m, deleted_backward(m).0),
{
    lemma_parts(before, seq![c], after);
    lemma_character_before(before, c, after);
    lemma_encode_concat(before, after);
    let bytes = m.document.bytes;
    assert(encode_utf8(Seq::<char>::empty()) =~= Seq::<u8>::empty());
    assert(spliced(bytes, behind(before), m.caret, Seq::<u8>::empty()) =~= encode_utf8(before)
        + encode_utf8(after));
}

/// At the ends of the text there is nothing to take away and nowhere to go.
pub proof fn law_nothing_happens_at_the_ends(m: AppModel)
    requires
        m.selection is None,
        valid_utf8(m.document.bytes),
    ensures
        m.caret == m.document.bytes.len() ==> deleted_forward(m) == (
            m,
            None::<crate::error::ErrorModel>,
        ) && moved_right(m) == (m, None::<crate::error::ErrorModel>),
        m.caret == 0 ==> deleted_backward(m) == (m, None::<crate::error::ErrorModel>)
            && moved_left(m) == (m, None::<crate::error::ErrorModel>),
{
    let bytes = m.document.bytes;
    if bytes.len() > 0 {
        assert(valid_first_scalar(bytes));
    }
}

// ---------------------------------------------------------------------------
// Moving the caret
// ---------------------------------------------------------------------------

/// The caret has gone to `offset`, and nothing else has happened.
pub open spec fn caret_went_to(before: AppModel, after: AppModel, offset: int) -> bool {
    after == AppModel { caret: offset, selection: None, ..before }
}

/// The arrow to the right leads over one character.
pub proof fn law_right_steps_over_one_character(
    m: AppModel,
    before: Seq<char>,
    c: char,
    after: Seq<char>,
)
    requires
        document_valid(m.document),
        reads(m, before, seq![c], after),
        m.caret == behind(before),
    ensures
        moved_right(m).1 is None,
        caret_went_to(m, moved_right(m).0, behind(before + seq![c])),
{
    lemma_parts(before, seq![c], after);
    lemma_one_character(c);
    assert(m.document.bytes[m.caret] == encode_utf8(seq![c])[0]);
    law_caret_can_stand_between_characters(m.document, behind(before + seq![c]));
}

/// The arrow to the left leads back over one character.
pub proof fn law_left_steps_over_one_character(
    m: AppModel,
    before: Seq<char>,
    c: char,
    after: Seq<char>,
)
    requires
        document_valid(m.document),
        reads(m, before, seq![c], after),
        m.caret == behind(before + seq![c]),
    ensures
        moved_left(m).1 is None,
        caret_went_to(m, moved_left(m).0, behind(before)),
{
    lemma_parts(before, seq![c], after);
    lemma_character_before(before, c, after);
    law_caret_can_stand_between_characters(m.document, behind(before));
}

/// A line starts at the front of the text, behind each line feed, and behind each
/// carriage return that no line feed follows.
pub proof fn law_lines_start_behind_line_breaks(bytes: Seq<u8>, p: int)
    ensures
        line_starts(bytes).contains(p) <==> p == 0 || (0 < p <= bytes.len() && (bytes[p - 1] == 10u8
            || (bytes[p - 1] == 13u8 && (p == bytes.len() || bytes[p] != 10u8)))),
        forall|i: int, j: int|
            0 <= i < j < line_starts(bytes).len() ==> line_starts(bytes)[i] < line_starts(bytes)[j],
{
    let breaks = line_breaks(bytes, 0, bytes.len() as int);
    let starts = line_starts(bytes);
    lemma_line_breaks_bounds(bytes, 0, bytes.len() as int);
    lemma_break_is_listed(bytes, bytes.len() as int, p);
    assert(starts[0] == 0);
    assert forall|i: int, j: int| 0 <= i < j < starts.len() implies starts[i] < starts[j] by {
        assert(starts[j] == breaks[j - 1]);
        if i > 0 {
            assert(starts[i] == breaks[i - 1]);
        }
    }
    if starts.contains(p) {
        let i = choose|i: int| 0 <= i < starts.len() && starts[i] == p;
        if i > 0 {
            assert(breaks[i - 1] == p);
        }
    }
    if breaks.contains(p) {
        let i = choose|i: int| 0 <= i < breaks.len() && breaks[i] == p;
        assert(starts[i + 1] == p);
    }
}

proof fn lemma_break_is_listed(bytes: Seq<u8>, hi: int, p: int)
    requires
        0 <= hi <= bytes.len(),
    ensures
        0 < p <= hi && crate::line_index::ends_line(bytes, p) ==> line_breaks(
            bytes,
            0,
            hi,
        ).contains(p),
    decreases hi,
{
    if hi > 0 {
        lemma_break_is_listed(bytes, hi - 1, p);
        let shorter = line_breaks(bytes, 0, hi - 1);
        let all = line_breaks(bytes, 0, hi);
        if crate::line_index::ends_line(bytes, hi) {
            assert(all[shorter.len() as int] == hi);
            if shorter.contains(p) {
                let i = choose|i: int| 0 <= i < shorter.len() && shorter[i] == p;
                assert(all[i] == p);
            }
        }
    }
}

/// `line` is the line of `offset`: the last one that starts at or before it.
pub open spec fn on_line(m: DocumentModel, line: int, offset: int) -> bool {
    let starts = m.index.starts;
    &&& 0 <= line < starts.len()
    &&& starts[line] <= offset
    &&& line + 1 < starts.len() ==> offset < starts[line + 1]
}

pub proof fn lemma_on_line(m: DocumentModel, line: int, offset: int)
    requires
        document_valid(m),
        0 <= offset,
        on_line(m, line, offset),
    ensures
        line_at(m.index.starts, offset) == line,
{
    let starts = m.index.starts;
    lemma_line_at(starts, offset);
    let other = line_at(starts, offset);
    if other < line {
        assert(starts[other + 1] <= starts[line]) by {
            if other + 1 < line {
                assert(starts[other + 1] < starts[line]);
            }
        }
    } else if line < other {
        assert(starts[line + 1] <= starts[other]) by {
            if line + 1 < other {
                assert(starts[line + 1] < starts[other]);
            }
        }
    }
}

/// All of a line is known: another one follows, or the text ends with it.
pub open spec fn line_is_known(m: DocumentModel, line: int) -> bool {
    0 <= line < m.index.starts.len() && (line + 1 < m.index.starts.len() || m.index.complete)
}

/// Where the line behind a line starts, or the end of the text.
pub open spec fn next_start_of(m: DocumentModel, line: int) -> int {
    if line + 1 < m.index.starts.len() {
        m.index.starts[line + 1]
    } else {
        m.bytes.len() as int
    }
}

/// What a line holds besides its text: nothing, or one line break.
pub open spec fn is_line_break_or_nothing(part: Seq<u8>) -> bool {
    part == Seq::<u8>::empty() || part == seq![10u8] || part == seq![13u8] || part == seq![
        13u8,
        10u8,
    ]
}

/// The text of a line is all of it but its line break.
pub proof fn law_line_ends_before_its_line_break(m: DocumentModel, line: int)
    requires
        document_valid(m),
        line_is_known(m, line),
    ensures
        ({
            let start = m.index.starts[line];
            let end = content_end(m, line);
            let next = next_start_of(m, line);
            &&& start <= end <= next <= m.bytes.len()
            &&& is_line_break_or_nothing(m.bytes.subrange(end, next))
            &&& end == next && start < end ==> m.bytes[end - 1] != 10u8 && m.bytes[end - 1] != 13u8
            &&& start < end < next && m.bytes[end] == 10u8 ==> m.bytes[end - 1] != 13u8
        }),
{
    let start = m.index.starts[line];
    let end = content_end(m, line);
    let next = next_start_of(m, line);
    lemma_line_span(m, line);
    if line + 1 < m.index.starts.len() {
        assert(m.index.starts[line + 1] <= m.index.starts.last());
    }
    assert(line_end(m.index, line, m.bytes.len() as int) == next);
    let part = m.bytes.subrange(end, next);
    if end == next {
        assert(part =~= Seq::<u8>::empty());
    } else if end + 1 == next {
        assert(part =~= seq![m.bytes[end]]);
    } else {
        assert(part =~= seq![13u8, 10u8]);
    }
}

/// A line starts and ends between characters.
pub proof fn lemma_line_between_characters(m: DocumentModel, line: int)
    requires
        document_valid(m),
        valid_utf8(m.bytes),
        line_is_known(m, line),
    ensures
        0 <= m.index.starts[line] <= content_end(m, line) <= m.bytes.len(),
        on_boundary(m.bytes, m.index.starts[line]),
        on_boundary(m.bytes, content_end(m, line)),
        valid_utf8(m.bytes.subrange(m.index.starts[line], content_end(m, line))),
{
    law_line_ends_before_its_line_break(m, line);
    let starts = m.index.starts;
    let end = content_end(m, line);
    let next = next_start_of(m, line);
    lemma_start_between_characters(m, line);
    lemma_line_span(m, line);
    if end < next {
        let part = m.bytes.subrange(end, next);
        assert(part[0] == m.bytes[end]);
    } else if line + 1 < starts.len() {
        lemma_start_between_characters(m, line + 1);
    }
    lemma_subrange_is_text(m.bytes, starts[line], end);
}

pub proof fn lemma_start_between_characters(m: DocumentModel, line: int)
    requires
        document_valid(m),
        valid_utf8(m.bytes),
        0 <= line < m.index.starts.len(),
    ensures
        on_boundary(m.bytes, m.index.starts[line]),
{
    if line > 0 {
        assert(is_newline_byte(m.bytes[m.index.starts[line] - 1]));
        lemma_boundary_after_ascii(m.bytes, m.index.starts[line]);
    } else if m.bytes.len() > 0 {
        assert(valid_first_scalar(m.bytes));
    }
}

/// Home leads to the start of the caret's line, End to where its text ends.
pub proof fn law_home_and_end_go_to_the_ends_of_the_line(m: AppModel, line: int)
    requires
        document_valid(m.document),
        between_characters(m.document.bytes, m.caret, m.caret),
        on_line(m.document, line, m.caret),
        line_is_known(m.document, line),
    ensures
        moved_line_start(m).1 is None,
        caret_went_to(m, moved_line_start(m).0, m.document.index.starts[line]),
        moved_line_end(m).1 is None,
        caret_went_to(m, moved_line_end(m).0, content_end(m.document, line)),
{
    let d = m.document;
    lemma_boundary(d.bytes, m.caret);
    lemma_on_line(d, line, m.caret);
    lemma_line_between_characters(d, line);
    law_caret_can_stand_between_characters(d, d.index.starts[line]);
    law_caret_can_stand_between_characters(d, content_end(d, line));
}

/// How many characters lie between two offsets.
pub open spec fn characters_between(m: DocumentModel, start: int, end: int) -> int {
    decode_utf8(m.bytes.subrange(start, end)).len() as int
}

/// Up and down lead to the neighbouring line, and to the same column: as many
/// characters lie before the caret as before the move, or as many as the line
/// holds where it is shorter. Lines must be short enough for their columns to be
/// counted.
pub proof fn law_moving_vertically_keeps_the_column(m: AppModel, line: int, down: bool)
    requires
        document_valid(m.document),
        between_characters(m.document.bytes, m.caret, m.caret),
        on_line(m.document, line, m.caret),
        m.caret - m.document.index.starts[line] <= MAX_COLUMN_SCAN_BYTES,
        ({
            let target = if down {
                line + 1
            } else {
                line - 1
            };
            &&& line_is_known(m.document, target)
            &&& content_end(m.document, target) - m.document.index.starts[target]
                <= MAX_COLUMN_SCAN_BYTES
        }),
    ensures
        ({
            let d = m.document;
            let target = if down {
                line + 1
            } else {
                line - 1
            };
            let start = d.index.starts[target];
            let after = moved_vertically(m, down).0;
            let column = characters_between(d, d.index.starts[line], m.caret);
            let held = characters_between(d, start, content_end(d, target));
            &&& moved_vertically(m, down).1 is None
            &&& caret_went_to(m, after, after.caret)
            &&& start <= after.caret <= content_end(d, target)
            &&& is_char_boundary(d.bytes, after.caret)
            &&& characters_between(d, start, after.caret) == (if column <= held {
                column
            } else {
                held
            })
        }),
{
    let d = m.document;
    let target = if down {
        line + 1
    } else {
        line - 1
    };
    let start = d.index.starts[target];
    let end = content_end(d, target);
    let part = d.bytes.subrange(start, end);
    let text = decode_utf8(part);
    let column = characters_between(d, d.index.starts[line], m.caret);
    lemma_boundary(d.bytes, m.caret);
    lemma_on_line(d, line, m.caret);
    lemma_start_between_characters(d, line);
    lemma_line_span(d, line);
    lemma_subrange_is_text(d.bytes, d.index.starts[line], m.caret);
    lemma_line_between_characters(d, target);
    decode_utf8_encode_utf8(part);
    let at = if column < text.len() {
        start + encode_utf8(text.take(column)).len()
    } else {
        end
    };
    if column < text.len() {
        let front = text.take(column);
        let rest = text.skip(column);
        assert(front + rest =~= text);
        lemma_encode_concat(front, rest);
        encode_utf8_valid_utf8(front);
        encode_utf8_valid_utf8(rest);
        encode_utf8_decode_utf8(front);
        lemma_joint(encode_utf8(front), encode_utf8(rest));
        assert(on_boundary(part, at - start));
        if at < d.bytes.len() && at < end {
            assert(part[at - start] == d.bytes[at]);
        }
        assert(on_boundary(d.bytes, at));
        assert(d.bytes.subrange(start, at) =~= encode_utf8(front));
    }
    lemma_boundary(d.bytes, at);
    law_caret_can_stand_between_characters(d, at);
}

/// In the first line there is no way up, and in the last none down.
pub proof fn law_no_line_beyond_the_first_and_the_last(m: AppModel, line: int)
    requires
        document_valid(m.document),
        between_characters(m.document.bytes, m.caret, m.caret),
        on_line(m.document, line, m.caret),
    ensures
        line == 0 ==> moved_vertically(m, false) == (m, None::<crate::error::ErrorModel>),
        line == m.document.index.starts.len() - 1 ==> moved_vertically(m, true) == (
            m,
            None::<crate::error::ErrorModel>,
        ),
{
    lemma_boundary(m.document.bytes, m.caret);
    lemma_on_line(m.document, line, m.caret);
}

// ---------------------------------------------------------------------------
// Selecting
// ---------------------------------------------------------------------------

/// A selection from one offset to another holds what lies between them, whichever
/// comes first, and the caret stands at the second. Two equal offsets select
/// nothing.
pub proof fn law_selection_spans_both_ends(m: AppModel, anchor: int, focus: int)
    requires
        document_valid(m.document),
        between_characters(m.document.bytes, anchor, anchor),
        between_characters(m.document.bytes, focus, focus),
    ensures
        range_selected(m, anchor, focus).1 is None,
        ({
            let after = range_selected(m, anchor, focus).0;
            &&& after.caret == focus
            &&& after.document == m.document
            &&& after.settings == m.settings
            &&& after.clipboard_has_text == m.clipboard_has_text
            &&& anchor == focus ==> after.selection is None
            &&& anchor != focus ==> after.selection is Some && {
                let (start, end) = after.selection->0;
                &&& start < end
                &&& start == anchor || start == focus
                &&& end == anchor || end == focus
            }
        }),
        selected(m, anchor, focus).1 is None,
        selected(m, anchor, focus).0 == (AppModel {
            caret: focus,
            selection: Some((anchor, focus)),
            ..m
        }),
        caret_set(m, focus).1 is None,
        caret_went_to(m, caret_set(m, focus).0, focus),
{
    lemma_boundary(m.document.bytes, anchor);
    lemma_boundary(m.document.bytes, focus);
    law_caret_can_stand_between_characters(m.document, anchor);
    law_caret_can_stand_between_characters(m.document, focus);
}

/// An offset within a character of a short line is refused, and so is one behind
/// the text.
pub proof fn law_caret_stands_between_characters(m: AppModel, offset: int)
    requires
        document_valid(m.document),
        valid_utf8(m.document.bytes),
        0 <= offset,
        offset > m.document.bytes.len() || (!is_char_boundary(m.document.bytes, offset)
            && offset <= MAX_COLUMN_SCAN_BYTES),
    ensures
        caret_set(m, offset).1 is Some,
        caret_set(m, offset).0 == m,
{
    let d = m.document;
    let starts = d.index.starts;
    let line = line_at(starts, offset);
    lemma_line_at(starts, offset);
    if offset <= d.bytes.len() {
        let start = starts[line];
        assert(starts[0] <= starts[line]);
        lemma_start_between_characters(d, line);
        lemma_boundary(d.bytes, start);
        if valid_utf8(d.bytes.subrange(start, offset)) {
            lemma_boundary(d.bytes, offset);
            valid_utf8_split(d.bytes, start);
            let tail = d.bytes.subrange(start, d.bytes.len() as int);
            assert(tail.take(offset - start) =~= d.bytes.subrange(start, offset));
            crate::app_laws::lemma_front_ends_on_boundary(tail, offset - start);
            lemma_boundary(tail, offset - start);
            if offset < d.bytes.len() {
                assert(tail[offset - start] == d.bytes[offset]);
            }
        }
    }
}

/// Select All selects all of the text.
pub proof fn law_all_is_selected(m: AppModel)
    ensures
        all_selected(m) == (AppModel {
            caret: m.document.bytes.len() as int,
            selection: Some((0int, m.document.bytes.len() as int)),
            ..m
        }),
        valid_utf8(m.document.bytes) ==> selected_chars(all_selected(m)) == Some(
            decode_utf8(m.document.bytes),
        ),
{
    let bytes = m.document.bytes;
    assert(bytes.subrange(0, bytes.len() as int) =~= bytes);
}

} // verus!
