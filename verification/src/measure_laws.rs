//! How wide text is, where it is drawn, and how scrollbars and pages are divided.

use crate::glyphs::{units_placed, PlacedModel};
use crate::print::{is_layout, PageLayout, Printer};
use crate::ruler::{char_advance, chars_advance, glyph_advance, text_advance, RulerModel, TextRole};
use crate::scroll::{centered, lemma_share, scrolls, thumb, thumb_len, thumb_offset};
use crate::settings::clamped_zoom;
use crate::text_units::{
    cluster_end, follows_emoji, ignorable, joined_on, starts_emoji, suffix_end, unit_end,
};
use vstd::prelude::*;

verus! {

// ---------------------------------------------------------------------------
// Width
// ---------------------------------------------------------------------------

/// All characters of a text stand for themselves: none begins an emoji and none
/// is left out.
pub open spec fn ordinary(text: Seq<char>) -> bool {
    forall|i: int|
        0 <= i < text.len() ==> !ignorable(#[trigger] text[i]) && !starts_emoji(text[i])
}

proof fn lemma_ordinary_advance(m: RulerModel, role: TextRole, text: Seq<char>, i: int)
    requires
        ordinary(text),
        0 <= i <= text.len(),
    ensures
        text_advance(m, role, text, i) == chars_advance(m, role, text, i, text.len() as int),
    decreases text.len() - i,
{
    if i < text.len() {
        assert(!ignorable(text[i]) && !starts_emoji(text[i]));
        lemma_ordinary_advance(m, role, text, i + 1);
    }
}

proof fn lemma_advance_push(
    m: RulerModel,
    role: TextRole,
    text: Seq<char>,
    c: char,
    i: int,
    end: int,
)
    requires
        0 <= i <= end <= text.len(),
    ensures
        chars_advance(m, role, text.push(c), i, end) == chars_advance(m, role, text, i, end),
        end == text.len() ==> chars_advance(m, role, text.push(c), i, end + 1) == chars_advance(
            m,
            role,
            text,
            i,
            end,
        ) + char_advance(m, role, c),
    decreases end - i,
{
    if i < end {
        assert(text.push(c)[i] == text[i]);
        lemma_advance_push(m, role, text, c, i + 1, end);
    } else if end == text.len() {
        assert(text.push(c)[i] == c);
        assert(chars_advance(m, role, text.push(c), i + 1, i + 1) == 0);
    }
}

/// A text of ordinary characters is as wide as its characters together: one more
/// makes it wider by its own width. A tab is as wide as four spaces.
pub proof fn law_text_is_as_wide_as_its_characters(
    m: RulerModel,
    role: TextRole,
    text: Seq<char>,
    c: char,
)
    requires
        ordinary(text),
        !ignorable(c),
        !starts_emoji(c),
    ensures
        text_advance(m, role, Seq::empty(), 0) == 0,
        text_advance(m, role, text.push(c), 0) == text_advance(m, role, text, 0)
            + text_advance(m, role, seq![c], 0),
        c != '\t' ==> text_advance(m, role, seq![c], 0) == glyph_advance(m, role, c),
        c == '\t' ==> text_advance(m, role, seq![c], 0) == 4 * glyph_advance(m, role, ' '),
{
    let more = text.push(c);
    assert forall|i: int| 0 <= i < more.len() implies !ignorable(#[trigger] more[i])
        && !starts_emoji(more[i]) by {
        if i < text.len() {
            assert(more[i] == text[i]);
        }
    }
    lemma_ordinary_advance(m, role, text, 0);
    lemma_ordinary_advance(m, role, more, 0);
    lemma_ordinary_advance(m, role, seq![c], 0);
    lemma_advance_push(m, role, text, c, 0, text.len() as int);
    lemma_advance_push(m, role, Seq::empty(), c, 0, 0);
    assert(Seq::<char>::empty().push(c) =~= seq![c]);
}

// ---------------------------------------------------------------------------
// Emoji
// ---------------------------------------------------------------------------

proof fn lemma_suffix(text: Seq<char>, i: int)
    requires
        0 <= i <= text.len(),
    ensures
        i <= suffix_end(text, i) <= text.len(),
        suffix_end(text, i) < text.len() ==> !follows_emoji(text[suffix_end(text, i)]),
        forall|k: int| i <= k < suffix_end(text, i) ==> follows_emoji(#[trigger] text[k]),
    decreases text.len() - i,
{
    if i < text.len() && follows_emoji(text[i]) {
        lemma_suffix(text, i + 1);
    }
}

proof fn lemma_cluster_grows(text: Seq<char>, i: int)
    requires
        0 <= i <= text.len(),
        i < text.len() ==> !follows_emoji(text[i]),
    ensures
        i <= cluster_end(text, i) <= text.len(),
        cluster_end(text, i) < text.len() ==> !follows_emoji(text[cluster_end(text, i)]),
        !joined_on(text, cluster_end(text, i)),
        joined_on(text, i) ==> cluster_end(text, i) >= i + 2,
    decreases text.len() - i,
{
    if joined_on(text, i) {
        lemma_suffix(text, i + 2);
        lemma_cluster_grows(text, suffix_end(text, i + 2));
    }
}

/// An emoji reaches over its skin tones and variation selectors and over all that
/// is joined on with a joiner, and no further; any other character stands for
/// itself.
pub proof fn law_emoji_hold_together(text: Seq<char>, i: int)
    requires
        0 <= i < text.len(),
    ensures
        ({
            let end = unit_end(text, i);
            let emoji = starts_emoji(text[i]) && !ignorable(text[i]);
            &&& !emoji ==> end == i + 1
            &&& emoji ==> i < end <= text.len()
            &&& emoji && end < text.len() ==> !follows_emoji(text[end])
            &&& emoji && end + 1 < text.len() && text[end] == '\u{200d}' ==> !starts_emoji(
                text[end + 1],
            )
            &&& emoji && i + 1 < text.len() && follows_emoji(text[i + 1]) ==> end >= i + 2
            &&& emoji && i + 2 < text.len() && text[i + 1] == '\u{200d}' && starts_emoji(text[i + 2])
                ==> end >= i + 3
        }),
{
    let at = suffix_end(text, i + 1);
    lemma_suffix(text, i + 1);
    lemma_cluster_grows(text, at);
    if i + 1 < text.len() && follows_emoji(text[i + 1]) {
        if at == i + 1 {
            assert(!follows_emoji(text[at]));
        }
    }
}

// ---------------------------------------------------------------------------
// Drawing text
// ---------------------------------------------------------------------------

/// `next` is `s` with one more character at `x`.
spec fn one_more(s: Seq<PlacedModel>, next: Seq<PlacedModel>, c: char, x: int) -> bool {
    &&& next.len() == s.len() + 1
    &&& forall|k: int| 0 <= k < s.len() ==> #[trigger] next[k] == s[k]
    &&& next[s.len() as int] == (PlacedModel::Glyph { character: c, x })
}

proof fn lemma_one_placed(
    s: Seq<PlacedModel>,
    m: RulerModel,
    role: TextRole,
    text: Seq<char>,
    i: int,
    x: int,
    c: char,
) -> (next: Seq<PlacedModel>)
    requires
        0 <= i < text.len(),
        c == text[i],
        !ignorable(c),
        !starts_emoji(c),
        c != '\t',
    ensures
        one_more(s, next, c, x),
        units_placed(s, m, role, text, i, x, None) == units_placed(
            next,
            m,
            role,
            text,
            i + 1,
            x + char_advance(m, role, c),
            None,
        ),
{
    s.push(PlacedModel::Glyph { character: c, x })
}

/// `placed` is `s` and behind it the characters of the text from `i` on, each for
/// itself.
spec fn each_placed(
    placed: Seq<PlacedModel>,
    s: Seq<PlacedModel>,
    m: RulerModel,
    role: TextRole,
    text: Seq<char>,
    i: int,
    x: int,
) -> bool {
    &&& placed.len() == s.len() + text.len() - i
    &&& forall|k: int| 0 <= k < s.len() ==> #[trigger] placed[k] == s[k]
    &&& forall|k: int|
        s.len() <= k < placed.len() ==> #[trigger] placed[k] == (PlacedModel::Glyph {
            character: text[k - s.len() + i],
            x: x + chars_advance(m, role, text, i, k - s.len() + i),
        })
}

proof fn lemma_each_placed(
    placed: Seq<PlacedModel>,
    s: Seq<PlacedModel>,
    next: Seq<PlacedModel>,
    m: RulerModel,
    role: TextRole,
    text: Seq<char>,
    i: int,
    x: int,
)
    requires
        0 <= i < text.len(),
        one_more(s, next, text[i], x),
        each_placed(placed, next, m, role, text, i + 1, x + char_advance(m, role, text[i])),
    ensures
        each_placed(placed, s, m, role, text, i, x),
{
    assert forall|k: int| 0 <= k < s.len() implies #[trigger] placed[k] == s[k] by {
        assert(next[k] == s[k]);
    }
    assert forall|k: int| s.len() <= k < placed.len() implies #[trigger] placed[k] == (
    PlacedModel::Glyph {
        character: text[k - s.len() + i],
        x: x + chars_advance(m, role, text, i, k - s.len() + i),
    }) by {
        if k == s.len() {
            assert(placed[k] == next[k]);
        } else {
            assert(k - next.len() + (i + 1) == k - s.len() + i);
        }
    }
}

proof fn lemma_ordinary_placed(
    s: Seq<PlacedModel>,
    m: RulerModel,
    role: TextRole,
    text: Seq<char>,
    i: int,
    x: int,
)
    requires
        ordinary(text),
        0 <= i <= text.len(),
        forall|j: int| 0 <= j < text.len() ==> #[trigger] text[j] != '\t',
    ensures
        each_placed(units_placed(s, m, role, text, i, x, None), s, m, role, text, i, x),
    decreases text.len() - i,
{
    if i < text.len() {
        assert(!ignorable(text[i]) && !starts_emoji(text[i]));
        assert(text[i] != '\t');
        let next = lemma_one_placed(s, m, role, text, i, x, text[i]);
        let on = x + char_advance(m, role, text[i]);
        lemma_ordinary_placed(next, m, role, text, i + 1, on);
        let placed = units_placed(next, m, role, text, i + 1, on, None);
        lemma_each_placed(placed, s, next, m, role, text, i, x);
    }
}

/// The characters of a line of text are drawn in order, each where those before
/// it end.
pub proof fn law_characters_are_drawn_side_by_side(
    m: RulerModel,
    role: TextRole,
    text: Seq<char>,
    k: int,
)
    requires
        ordinary(text),
        forall|j: int| 0 <= j < text.len() ==> #[trigger] text[j] != '\t',
        0 <= k < text.len(),
    ensures
        ({
            let placed = units_placed(Seq::empty(), m, role, text, 0, 0, None);
            &&& placed.len() == text.len()
            &&& placed[k] == (PlacedModel::Glyph {
                character: text[k],
                x: text_advance(m, role, text.take(k), 0),
            })
        }),
{
    lemma_ordinary_placed(Seq::empty(), m, role, text, 0, 0);
    let placed = units_placed(Seq::empty(), m, role, text, 0, 0, None);
    assert(each_placed(placed, Seq::empty(), m, role, text, 0, 0));
    assert(placed[k] is Glyph);
    let front = text.take(k);
    assert forall|i: int| 0 <= i < front.len() implies !ignorable(#[trigger] front[i])
        && !starts_emoji(front[i]) by {
        assert(front[i] == text[i]);
    }
    lemma_ordinary_advance(m, role, front, 0);
    lemma_front_advance(m, role, text, 0, k);
}

proof fn lemma_front_advance(m: RulerModel, role: TextRole, text: Seq<char>, i: int, k: int)
    requires
        0 <= i <= k <= text.len(),
    ensures
        chars_advance(m, role, text.take(k), i, k) == chars_advance(m, role, text, i, k),
    decreases k - i,
{
    if i < k {
        assert(text.take(k)[i] == text[i]);
        lemma_front_advance(m, role, text, i + 1, k);
    }
}

// ---------------------------------------------------------------------------
// Scrollbars
// ---------------------------------------------------------------------------

/// The further the view is down, the further is the thumb; and the further down
/// it is dragged, the further the view.
pub proof fn law_thumb_and_view_go_together(
    track_start: int,
    track_len: int,
    content_len: int,
    visible_len: int,
    a: int,
    b: int,
)
    requires
        scrolls(track_len, content_len, visible_len),
        0 <= a <= b,
    ensures
        thumb(track_start, track_len, content_len, visible_len, a).0 <= thumb(
            track_start,
            track_len,
            content_len,
            visible_len,
            b,
        ).0,
        thumb(track_start, track_len, content_len, visible_len, a).1 == thumb(
            track_start,
            track_len,
            content_len,
            visible_len,
            b,
        ).1,
        thumb_offset(
            track_start,
            track_len,
            thumb_len(track_len, content_len, visible_len),
            content_len,
            visible_len,
            track_start + a,
        ) <= thumb_offset(
            track_start,
            track_len,
            thumb_len(track_len, content_len, visible_len),
            content_len,
            visible_len,
            track_start + b,
        ),
{
    let len = thumb_len(track_len, content_len, visible_len);
    let travel = track_len - len;
    let last = content_len - visible_len;
    lemma_share(track_len, visible_len, content_len);
    assert(len <= track_len);
    let at = crate::scroll::less(a, last);
    let bt = crate::scroll::less(b, last);
    assert(travel * at <= travel * bt) by (nonlinear_arith)
        requires
            0 <= travel,
            at <= bt,
    ;
    vstd::arithmetic::div_mod::lemma_div_is_ordered(travel * at, travel * bt, last);
    if travel > 0 {
        let ap = crate::scroll::less(a, travel);
        let bp = crate::scroll::less(b, travel);
        assert(ap * last <= bp * last) by (nonlinear_arith)
            requires
                0 <= last,
                ap <= bp,
        ;
        vstd::arithmetic::div_mod::lemma_div_is_ordered(ap * last, bp * last, travel);
        assert(crate::scroll::rest(track_start + a, track_start) == a);
        assert(crate::scroll::rest(track_start + b, track_start) == b);
    }
}

/// A range that is brought into the middle has as much room before it as behind
/// it, but for one, unless the text does not go back that far.
pub proof fn law_range_stands_in_the_middle(start: int, end: int, visible: int)
    requires
        0 <= start <= end,
        end - start < visible,
    ensures
        ({
            let first = centered(start, end, visible);
            let before = start - first;
            let behind = first + visible - end;
            &&& 0 <= first <= start
            &&& behind >= 0
            &&& first > 0 ==> -1 <= before - behind <= 1
            &&& first == 0 ==> before <= behind + 1
        }),
{
}

// ---------------------------------------------------------------------------
// Zoom and pages
// ---------------------------------------------------------------------------

/// A zoom that is set is the nearest one between ten and five hundred percent.
pub proof fn law_zoom_stays_within_limits(zoom: u16, other: u16)
    requires
        10 <= other <= 500,
    ensures
        10 <= clamped_zoom(zoom) <= 500,
        10 <= zoom <= 500 ==> clamped_zoom(zoom) == zoom,
        zoom < 10 ==> clamped_zoom(zoom) <= other,
        zoom > 500 ==> clamped_zoom(zoom) >= other,
{
}

/// A page has margins of half an inch on all sides, where it is large enough for
/// them, and room for text in any case. A line is as high as the printer says,
/// or a sixth of an inch.
pub proof fn law_pages_have_margins(layout: PageLayout, p: Printer)
    requires
        is_layout(layout, p),
        p.dots_x >= 96,
        p.dots_y >= 96,
    ensures
        2 * layout.left <= p.dots_x < 2 * layout.left + 2,
        2 * layout.top <= p.dots_y < 2 * layout.top + 2,
        layout.left < layout.right,
        layout.top < layout.bottom,
        p.page_width > p.dots_x ==> p.page_width - layout.right == layout.left,
        p.page_height > p.dots_y ==> p.page_height - layout.bottom == layout.top,
        layout.line_height >= 1,
        p.knows_text && p.text_height + p.text_leading >= 1 ==> layout.line_height == p.text_height
            + p.text_leading,
        !p.knows_text ==> 6 * layout.line_height <= p.dots_y < 6 * layout.line_height + 6,
        layout.font_height < 0,
{
}

} // verus!
