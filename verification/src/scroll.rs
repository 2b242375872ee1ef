//! Where the parts of the window lie, and how the text scrolls under them.

use crate::canvas::{covers, Rect};
use crate::document::{Document, DocumentModel};
use crate::line_index::line_end;
use crate::ruler::{measured, Ruler, RulerModel, TextRole};
use vstd::prelude::*;

verus! {

pub const MENU_HEIGHT: usize = 30;

pub const STATUS_HEIGHT: usize = 30;

pub const SCROLLBAR_WIDTH: usize = 16;

pub const TEXT_MARGIN_X: usize = 8;

pub const TEXT_MARGIN_Y: usize = 8;

pub const EDITOR_LINE_HEIGHT: usize = 24;

/// No thumb of a scrollbar is shorter.
pub const MIN_SCROLL_THUMB: usize = 32;

/// Where the parts of the editor lie.
#[derive(Clone, Copy, Debug, PartialEq, Eq, Structural)]
pub struct EditorMetrics {
    pub text_top: usize,
    pub text_bottom: usize,
    pub editor_bottom: usize,
    pub text_width: usize,
    pub text_height: usize,
    pub editor_text_width: usize,
    pub visible_line_count: usize,
    pub horizontal_scroll_y: Option<usize>,
}

pub open spec fn less(a: int, b: int) -> int {
    if a <= b {
        a
    } else {
        b
    }
}

pub open spec fn greater(a: int, b: int) -> int {
    if a <= b {
        b
    } else {
        a
    }
}

/// `a - b`, or nothing where that is negative.
pub open spec fn rest(a: int, b: int) -> int {
    greater(a - b, 0)
}

pub(crate) fn smaller_of(a: usize, b: usize) -> (r: usize)
    ensures
        r == less(a as int, b as int),
{
    if a <= b {
        a
    } else {
        b
    }
}

pub(crate) fn greater_of(a: usize, b: usize) -> (r: usize)
    ensures
        r == greater(a as int, b as int),
{
    if a <= b {
        b
    } else {
        a
    }
}

pub fn menu_top() -> (top: usize)
    ensures
        top == 0,
{
    0
}

pub fn dropdown_top() -> (top: usize)
    ensures
        top == MENU_HEIGHT,
{
    MENU_HEIGHT
}

pub fn text_top() -> (top: usize)
    ensures
        top == MENU_HEIGHT + 1,
{
    MENU_HEIGHT + 1
}

/// The bottom of the text and its scrollbar.
pub open spec fn text_bottom(status_bar_visible: bool, height: int) -> int {
    rest(
        height,
        if status_bar_visible {
            STATUS_HEIGHT + 1
        } else {
            1
        },
    )
}

/// There is room for a horizontal scrollbar, and there is need for one.
pub open spec fn has_horizontal_scroll(bottom: int, word_wrap: bool) -> bool {
    !word_wrap && bottom > MENU_HEIGHT + 1 + SCROLLBAR_WIDTH
}

/// Where the parts of the editor lie in a window of a given size, if there is
/// room for it.
pub open spec fn editor_layout(
    status_bar_visible: bool,
    word_wrap: bool,
    width: int,
    height: int,
) -> Option<EditorMetrics> {
    let top = MENU_HEIGHT + 1;
    let bottom = text_bottom(status_bar_visible, height);
    let scrolls = has_horizontal_scroll(bottom, word_wrap);
    let editor_bottom = if scrolls {
        bottom - SCROLLBAR_WIDTH
    } else {
        bottom
    };
    let text_width = rest(width, SCROLLBAR_WIDTH as int);
    if bottom <= top {
        None
    } else {
        Some(
            EditorMetrics {
                text_top: top as usize,
                text_bottom: bottom as usize,
                editor_bottom: editor_bottom as usize,
                text_width: text_width as usize,
                text_height: (editor_bottom - top) as usize,
                editor_text_width: rest(text_width, TEXT_MARGIN_X + 4) as usize,
                visible_line_count: greater(
                    rest(editor_bottom - top, 2 * TEXT_MARGIN_Y) / (EDITOR_LINE_HEIGHT as int),
                    1,
                ) as usize,
                horizontal_scroll_y: if scrolls {
                    Some(editor_bottom as usize)
                } else {
                    None
                },
            },
        )
    }
}

/// The parts of the editor lie one below and beside the other.
pub proof fn lemma_layout(status_bar_visible: bool, word_wrap: bool, width: int, height: int)
    requires
        0 <= width <= usize::MAX,
        0 <= height <= usize::MAX,
    ensures
        editor_layout(status_bar_visible, word_wrap, width, height) matches Some(metrics) ==> {
            &&& metrics.text_top == MENU_HEIGHT + 1
            &&& metrics.text_top < metrics.editor_bottom <= metrics.text_bottom < height
            &&& metrics.text_top + metrics.text_height == metrics.editor_bottom
            &&& metrics.text_width == rest(width, SCROLLBAR_WIDTH as int)
            &&& metrics.editor_text_width == rest(metrics.text_width as int, TEXT_MARGIN_X + 4)
            &&& 1 <= metrics.visible_line_count <= height
            &&& metrics.horizontal_scroll_y matches Some(y) ==> y == metrics.editor_bottom && y
                + SCROLLBAR_WIDTH == metrics.text_bottom
            &&& word_wrap ==> metrics.horizontal_scroll_y is None
            &&& metrics.visible_line_count == 1 || metrics.visible_line_count * EDITOR_LINE_HEIGHT
                <= metrics.text_height
        },
{
    if let Some(metrics) = editor_layout(status_bar_visible, word_wrap, width, height) {
        let free = rest(metrics.text_height as int, 2 * TEXT_MARGIN_Y);
        assert(free / 24 * 24 <= free);
        assert(free / 24 <= free);
    }
}

pub fn editor_metrics_from_flags(
    status_bar_visible: bool,
    word_wrap: bool,
    width: usize,
    height: usize,
) -> (metrics: Option<EditorMetrics>)
    ensures
        metrics == editor_layout(status_bar_visible, word_wrap, width as int, height as int),
{
    let status_height: usize = if status_bar_visible {
        STATUS_HEIGHT
    } else {
        0
    };
    let text_top: usize = text_top();
    let text_bottom: usize = height.saturating_sub(status_height + 1);
    if text_bottom <= text_top {
        return None;
    }
    let text_width: usize = width.saturating_sub(SCROLLBAR_WIDTH);
    let horizontal_scroll_y: Option<usize> = if !word_wrap && text_bottom > text_top
        + SCROLLBAR_WIDTH {
        Some(text_bottom - SCROLLBAR_WIDTH)
    } else {
        None
    };
    let editor_bottom: usize = match horizontal_scroll_y {
        Some(y) => y,
        None => text_bottom,
    };
    let text_height: usize = editor_bottom - text_top;
    Some(
        EditorMetrics {
            text_top,
            text_bottom,
            editor_bottom,
            text_width,
            text_height,
            editor_text_width: text_width.saturating_sub(TEXT_MARGIN_X + 4),
            visible_line_count: greater_of(
                text_height.saturating_sub(TEXT_MARGIN_Y * 2) / EDITOR_LINE_HEIGHT,
                1,
            ),
            horizontal_scroll_y,
        },
    )
}

/// A point lies within a rectangle.
pub fn hit_rect(x: usize, y: usize, rect: Rect) -> (hit: bool)
    ensures
        hit == covers(
            rect.x as int,
            rect.y as int,
            rect.width as int,
            rect.height as int,
            x as int,
            y as int,
        ),
{
    x >= rect.x && x - rect.x < rect.width && y >= rect.y && y - rect.y < rect.height
}

// ---------------------------------------------------------------------------
// Scrollbars
// ---------------------------------------------------------------------------

/// The length of a thumb that has somewhere to go.
pub open spec fn thumb_len(track_len: int, content_len: int, visible_len: int) -> int {
    greater(
        less(track_len * visible_len / content_len, track_len),
        less(MIN_SCROLL_THUMB as int, track_len),
    )
}

/// Whether there is more than is visible.
pub open spec fn scrolls(track_len: int, content_len: int, visible_len: int) -> bool {
    track_len > 0 && content_len > visible_len && visible_len > 0
}

/// The position and the length of a scrollbar's thumb.
pub open spec fn thumb(
    track_start: int,
    track_len: int,
    content_len: int,
    visible_len: int,
    offset: int,
) -> (int, int) {
    if !scrolls(track_len, content_len, visible_len) {
        (track_start, greater(track_len, 1))
    } else {
        let len = thumb_len(track_len, content_len, visible_len);
        let last = content_len - visible_len;
        (track_start + (track_len - len) * less(offset, last) / last, len)
    }
}

/// The offset that a thumb at `position` stands for.
pub open spec fn thumb_offset(
    track_start: int,
    track_len: int,
    thumb_len: int,
    content_len: int,
    visible_len: int,
    position: int,
) -> int {
    if track_len <= thumb_len || content_len <= visible_len || visible_len == 0 {
        0
    } else {
        let travel = track_len - thumb_len;
        less(rest(position, track_start), travel) * (content_len - visible_len) / travel
    }
}

/// A share of a whole is no more than the whole.
pub proof fn lemma_share(whole: int, part: int, of: int)
    requires
        0 <= whole,
        0 <= part <= of,
        0 < of,
    ensures
        0 <= whole * part / of <= whole,
        part == of ==> whole * part / of == whole,
        part == 0 ==> whole * part / of == 0,
{
    assert(0 <= whole * part <= whole * of) by (nonlinear_arith)
        requires
            0 <= whole,
            0 <= part <= of,
    ;
    assert(whole * of / of == whole) by (nonlinear_arith)
        requires
            0 < of,
    ;
    assert(whole * part / of <= whole * of / of) by (nonlinear_arith)
        requires
            whole * part <= whole * of,
            0 < of,
    ;
    assert(0 <= whole * part / of) by (nonlinear_arith)
        requires
            0 <= whole * part,
            0 < of,
    ;
    if part == 0 {
        assert(whole * part == 0);
        assert(0int / of == 0) by (nonlinear_arith)
            requires
                0 < of,
        ;
    }
}

fn share(whole: usize, part: usize, of: usize) -> (r: usize)
    requires
        part <= of,
        0 < of,
    ensures
        r == whole as int * part as int / of as int,
        r <= whole,
{
    proof {
        lemma_share(whole as int, part as int, of as int);
        assert(whole as int * part as int <= u64::MAX as int * u64::MAX as int) by (nonlinear_arith)
            requires
                0 <= whole <= u64::MAX,
                0 <= part <= u64::MAX,
        ;
    }
    let product: u128 = whole as u128 * part as u128;
    (product / of as u128) as usize
}

/// The position and the length of a scrollbar's thumb.
pub fn scroll_thumb(
    track_start: usize,
    track_len: usize,
    content_len: usize,
    visible_len: usize,
    offset: usize,
) -> (r: (usize, usize))
    requires
        track_start + track_len <= usize::MAX,
    ensures
        (r.0 as int, r.1 as int) == thumb(
            track_start as int,
            track_len as int,
            content_len as int,
            visible_len as int,
            offset as int,
        ),
{
    if track_len == 0 || content_len <= visible_len || visible_len == 0 {
        return (track_start, greater_of(track_len, 1));
    }
    let len: usize = greater_of(
        smaller_of(share(track_len, visible_len, content_len), track_len),
        smaller_of(MIN_SCROLL_THUMB, track_len),
    );
    let max_offset: usize = content_len - visible_len;
    let travel: usize = track_len - len;
    let thumb_offset: usize = share(travel, smaller_of(offset, max_offset), max_offset);
    (track_start + thumb_offset, len)
}

/// The offset that a thumb at `thumb_position` stands for.
pub fn offset_for_thumb(
    track_start: usize,
    track_len: usize,
    thumb_len: usize,
    content_len: usize,
    visible_len: usize,
    thumb_position: usize,
) -> (offset: usize)
    ensures
        offset == thumb_offset(
            track_start as int,
            track_len as int,
            thumb_len as int,
            content_len as int,
            visible_len as int,
            thumb_position as int,
        ),
{
    if track_len <= thumb_len || content_len <= visible_len || visible_len == 0 {
        return 0;
    }
    let travel: usize = track_len - thumb_len;
    let max_offset: usize = content_len - visible_len;
    let at: usize = smaller_of(thumb_position.saturating_sub(track_start), travel);
    proof {
        assert(at as int * max_offset as int == max_offset as int * at as int) by (nonlinear_arith);
    }
    share(max_offset, at, travel)
}

/// The thumb lies on its track.
pub proof fn law_thumb_stays_on_track(
    track_start: int,
    track_len: int,
    content_len: int,
    visible_len: int,
    offset: int,
)
    requires
        track_len > 0,
        0 <= content_len,
        0 <= visible_len,
        0 <= offset,
    ensures
        ({
            let (position, len) = thumb(track_start, track_len, content_len, visible_len, offset);
            &&& track_start <= position
            &&& position + len <= track_start + track_len
            &&& less(MIN_SCROLL_THUMB as int, track_len) <= len
        }),
{
    if scrolls(track_len, content_len, visible_len) {
        let last = content_len - visible_len;
        lemma_share(track_len, visible_len, content_len);
        lemma_share(
            track_len - thumb_len(track_len, content_len, visible_len),
            less(offset, last),
            last,
        );
    }
}

/// The thumb is at the start of its track at the start of the content, and at
/// the end at its end.
pub proof fn law_thumb_reaches_both_ends(
    track_start: int,
    track_len: int,
    content_len: int,
    visible_len: int,
    offset: int,
)
    requires
        scrolls(track_len, content_len, visible_len),
        offset >= content_len - visible_len,
    ensures
        thumb(track_start, track_len, content_len, visible_len, 0).0 == track_start,
        ({
            let (position, len) = thumb(track_start, track_len, content_len, visible_len, offset);
            position + len == track_start + track_len
        }),
{
    let last = content_len - visible_len;
    let travel = track_len - thumb_len(track_len, content_len, visible_len);
    lemma_share(track_len, visible_len, content_len);
    lemma_share(travel, 0, last);
    lemma_share(travel, last, last);
}

/// Dragging the thumb does not scroll past the content, and reaches both of its
/// ends.
pub proof fn law_dragged_thumb_stays_in_content(
    track_start: int,
    track_len: int,
    len: int,
    content_len: int,
    visible_len: int,
    position: int,
)
    requires
        0 <= len < track_len,
        0 < visible_len < content_len,
    ensures
        0 <= thumb_offset(track_start, track_len, len, content_len, visible_len, position)
            <= content_len - visible_len,
        position <= track_start ==> thumb_offset(
            track_start,
            track_len,
            len,
            content_len,
            visible_len,
            position,
        ) == 0,
        position >= track_start + track_len - len ==> thumb_offset(
            track_start,
            track_len,
            len,
            content_len,
            visible_len,
            position,
        ) == content_len - visible_len,
{
    let travel = track_len - len;
    let at = less(rest(position, track_start), travel);
    let last = content_len - visible_len;
    lemma_share(last, at, travel);
    assert(at * last == last * at) by (nonlinear_arith);
}

// ---------------------------------------------------------------------------
// Offsets
// ---------------------------------------------------------------------------

/// An offset moved by `delta`, within what an offset can be.
pub open spec fn moved(offset: int, delta: int) -> int {
    less(greater(offset + delta, 0), usize::MAX as int)
}

pub fn offset_with_delta(offset: usize, delta: isize) -> (r: usize)
    ensures
        r == moved(offset as int, delta as int),
{
    if delta >= 0 {
        offset.saturating_add(delta as usize)
    } else if delta == isize::MIN {
        offset.saturating_sub(isize::MAX as usize).saturating_sub(1)
    } else {
        offset.saturating_sub((-delta) as usize)
    }
}

/// Where to scroll to so that a range is in the middle: no further than its
/// start, and so that its end is seen.
pub open spec fn centered(start: int, end: int, visible_len: int) -> int {
    let visible = greater(visible_len, 1);
    let len = rest(end, start);
    if len >= visible {
        start
    } else {
        less(greater(rest(start + len / 2, visible / 2), rest(end, visible)), start)
    }
}

pub fn centered_offset_for_range(range_start: usize, range_end: usize, visible_len: usize) -> (offset:
    usize)
    ensures
        offset == centered(range_start as int, range_end as int, visible_len as int),
{
    let visible: usize = greater_of(visible_len, 1);
    let len: usize = range_end.saturating_sub(range_start);
    if len >= visible {
        return range_start;
    }
    let midpoint: usize = range_start + len / 2;
    smaller_of(
        greater_of(midpoint.saturating_sub(visible / 2), range_end.saturating_sub(visible)),
        range_start,
    )
}

/// A range that fits is seen whole.
pub proof fn law_centered_range_is_visible(start: int, end: int, visible_len: int)
    requires
        0 <= start <= end,
        end - start <= visible_len,
    ensures
        centered(start, end, visible_len) <= start,
        end <= centered(start, end, visible_len) + greater(visible_len, 1),
{
}

/// How many bytes of a line are taken to be visible.
pub open spec fn byte_capacity(ruler: RulerModel, editor_text_width: int) -> int {
    greater(
        editor_text_width / greater(measured(ruler, TextRole::Editor, "m"@), 1),
        1,
    )
}

pub fn visible_byte_capacity(ruler: &Ruler, editor_text_width: usize) -> (count: usize)
    ensures
        count == byte_capacity(ruler@, editor_text_width as int),
{
    let average: usize = greater_of(ruler.measure("m", TextRole::Editor), 1);
    greater_of(editor_text_width / average, 1)
}

/// The length of a line with its ending, if it is known.
pub open spec fn line_len(m: DocumentModel, line: int) -> int {
    if 0 <= line < m.index.starts.len() {
        line_end(m.index, line, m.bytes.len() as int) - m.index.starts[line]
    } else {
        0
    }
}

/// The greatest length of `count` lines from `first` on.
pub open spec fn longest_line(m: DocumentModel, first: int, count: int) -> int
    decreases count,
{
    if count <= 0 {
        0
    } else {
        greater(longest_line(m, first, count - 1), line_len(m, first + count - 1))
    }
}

/// Lines that are not there do not count.
proof fn lemma_longest_line(m: DocumentModel, first: int, count: int, more: int)
    requires
        0 <= first,
        0 <= count <= more,
        first + count >= m.index.starts.len(),
    ensures
        longest_line(m, first, more) == longest_line(m, first, count),
        longest_line(m, first, count) >= 0,
    decreases more,
{
    if more > count {
        lemma_longest_line(m, first, count, more - 1);
    } else {
        lemma_longest_positive(m, first, count);
    }
}

proof fn lemma_longest_positive(m: DocumentModel, first: int, count: int)
    ensures
        longest_line(m, first, count) >= 0,
    decreases count,
{
    if count > 0 {
        lemma_longest_positive(m, first, count - 1);
    }
}

pub fn max_visible_line_len(document: &Document, first_line: usize, visible_lines: usize) -> (len:
    usize)
    requires
        document.wf(),
    ensures
        len == longest_line(document@, first_line as int, visible_lines as int),
{
    let count: usize = document.line_count();
    let mut longest: usize = 0;
    let mut i: usize = 0;
    while i < visible_lines && first_line < count && i < count - first_line
        invariant
            document.wf(),
            count == document@.index.starts.len(),
            i <= visible_lines,
            i == 0 || first_line + i <= count,
            longest == longest_line(document@, first_line as int, i as int),
        decreases visible_lines - i,
    {
        if let Some(range) = document.line_range(first_line + i) {
            if range.end - range.start > longest {
                longest = range.end - range.start;
            }
        }
        i += 1;
    }
    proof {
        if i < visible_lines {
            lemma_longest_line(document@, first_line as int, i as int, visible_lines as int);
        }
    }
    longest
}

} // verus!
