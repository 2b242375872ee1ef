//! What is to be seen of the text in the editor's window and on paper.

use crate::app::AppModel;
use crate::document::document_valid;
use crate::edit_laws::{behind, lemma_on_line, lemma_parts, on_line};
use crate::frame::{highlight, highlights_drawn, row_texts_drawn, rows_of_text_drawn};
use crate::gui::{layout_of, GuiModel};
use crate::pointer::{
    bytes_part, bytes_prefix, caret_row, caret_x, char_at_byte, ime_point, last_ending,
    last_holding, row_y, shown_lines, text_before,
};
use crate::pointer_laws::lemma_measured_not_negative;
use crate::print::{layout_fits, lines_printed, printing_steps, PageLayout, PrintStep};
use crate::ruler::{fit_end, measured, RulerModel, TextRole};
use crate::scroll::{EditorMetrics, TEXT_MARGIN_X};
use crate::sketch::{Mark, COLOR_CARET, COLOR_SELECTION, COLOR_TEXT};
use crate::text_units::{bytes_before, lemma_bytes_before};
use crate::wrap::RowLine;
use vstd::prelude::*;
use vstd::utf8::*;

verus! {

// ---------------------------------------------------------------------------
// The picture of the text
// ---------------------------------------------------------------------------

/// The text of row `i`, written at the left margin at the height of the row.
pub open spec fn row_mark(metrics: EditorMetrics, rows: Seq<RowLine>, i: int) -> Mark {
    Mark::Text {
        x: TEXT_MARGIN_X as int,
        y: row_y(metrics, i),
        text: rows[i].text,
        color: COLOR_TEXT,
        role: TextRole::Editor,
        max_width: Some(metrics.editor_text_width as int),
    }
}

proof fn lemma_row_texts(s: Seq<Mark>, rows: Seq<RowLine>, metrics: EditorMetrics, n: int)
    requires
        0 <= n,
    ensures
        row_texts_drawn(s, rows, metrics, n).len() == s.len() + n,
        forall|j: int|
            0 <= j < s.len() ==> #[trigger] row_texts_drawn(s, rows, metrics, n)[j] == s[j],
        forall|i: int|
            0 <= i < n ==> row_texts_drawn(s, rows, metrics, n)[s.len() + i] == #[trigger] row_mark(
                metrics,
                rows,
                i,
            ),
    decreases n,
{
    if n > 0 {
        lemma_row_texts(s, rows, metrics, n - 1);
    }
}

/// The ground behind what is selected in row `i`, as high as the row.
#[verifier::opaque]
pub open spec fn ground_of_row(
    ruler: RulerModel,
    rows: Seq<RowLine>,
    selection: (int, int),
    metrics: EditorMetrics,
    i: int,
) -> Option<Mark> {
    match highlight(ruler, rows[i], selection, metrics) {
        Some((left, right)) => Some(
            Mark::Fill {
                x: left,
                y: row_y(metrics, i),
                width: right - left,
                height: 24,
                color: COLOR_SELECTION,
            },
        ),
        None => None,
    }
}

/// The grounds of what is selected in the first `n` rows, and no others.
pub open spec fn grounds_of_rows(
    ruler: RulerModel,
    rows: Seq<RowLine>,
    selection: (int, int),
    metrics: EditorMetrics,
    n: int,
    grounds: Seq<Mark>,
) -> bool {
    &&& forall|j: int|
        0 <= j < grounds.len() ==> exists|i: int|
            0 <= i < n && #[trigger] ground_of_row(ruler, rows, selection, metrics, i) == Some(
                #[trigger] grounds[j],
            )
    &&& forall|i: int|
        0 <= i < n && #[trigger] ground_of_row(ruler, rows, selection, metrics, i) is Some
            ==> exists|j: int|
            0 <= j < grounds.len() && Some(#[trigger] grounds[j]) == ground_of_row(
                ruler,
                rows,
                selection,
                metrics,
                i,
            )
}

proof fn lemma_one_highlight(
    s: Seq<Mark>,
    ruler: RulerModel,
    rows: Seq<RowLine>,
    selection: (int, int),
    metrics: EditorMetrics,
    n: int,
)
    requires
        0 < n,
    ensures
        highlights_drawn(s, ruler, rows, selection, metrics, n) == match ground_of_row(
            ruler,
            rows,
            selection,
            metrics,
            n - 1,
        ) {
            Some(mark) => highlights_drawn(s, ruler, rows, selection, metrics, n - 1).push(mark),
            None => highlights_drawn(s, ruler, rows, selection, metrics, n - 1),
        },
{
    reveal(ground_of_row);
}

proof fn lemma_grounds_push(
    ruler: RulerModel,
    rows: Seq<RowLine>,
    selection: (int, int),
    metrics: EditorMetrics,
    n: int,
    grounds: Seq<Mark>,
)
    requires
        0 < n,
        grounds_of_rows(ruler, rows, selection, metrics, n - 1, grounds),
    ensures
        ground_of_row(ruler, rows, selection, metrics, n - 1) is None ==> grounds_of_rows(
            ruler,
            rows,
            selection,
            metrics,
            n,
            grounds,
        ),
        ground_of_row(ruler, rows, selection, metrics, n - 1) matches Some(mark)
            ==> grounds_of_rows(ruler, rows, selection, metrics, n, grounds.push(mark)),
{
    if let Some(mark) = ground_of_row(ruler, rows, selection, metrics, n - 1) {
        let more = grounds.push(mark);
        assert forall|j: int| 0 <= j < more.len() implies exists|i: int|
            0 <= i < n && #[trigger] ground_of_row(ruler, rows, selection, metrics, i) == Some(
                #[trigger] more[j],
            ) by {
            if j < grounds.len() {
                assert(more[j] == grounds[j]);
            }
        }
        assert forall|i: int|
            0 <= i < n && #[trigger] ground_of_row(
                ruler,
                rows,
                selection,
                metrics,
                i,
            ) is Some implies exists|j: int|
            0 <= j < more.len() && Some(#[trigger] more[j]) == ground_of_row(
                ruler,
                rows,
                selection,
                metrics,
                i,
            ) by {
            if i == n - 1 {
                assert(more[grounds.len() as int] == mark);
            } else {
                let j = choose|j: int|
                    0 <= j < grounds.len() && Some(#[trigger] grounds[j]) == ground_of_row(
                        ruler,
                        rows,
                        selection,
                        metrics,
                        i,
                    );
                assert(more[j] == grounds[j]);
            }
        }
    }
}

proof fn lemma_highlights(
    s: Seq<Mark>,
    ruler: RulerModel,
    rows: Seq<RowLine>,
    selection: (int, int),
    metrics: EditorMetrics,
    n: int,
) -> (grounds: Seq<Mark>)
    requires
        0 <= n,
    ensures
        highlights_drawn(s, ruler, rows, selection, metrics, n) == s + grounds,
        grounds_of_rows(ruler, rows, selection, metrics, n, grounds),
    decreases n,
{
    if n == 0 {
        assert(s + Seq::<Mark>::empty() =~= s);
        Seq::empty()
    } else {
        let before = lemma_highlights(s, ruler, rows, selection, metrics, n - 1);
        lemma_one_highlight(s, ruler, rows, selection, metrics, n);
        lemma_grounds_push(ruler, rows, selection, metrics, n, before);
        match ground_of_row(ruler, rows, selection, metrics, n - 1) {
            Some(mark) => {
                assert((s + before).push(mark) =~= s + before.push(mark));
                before.push(mark)
            },
            None => before,
        }
    }
}

/// The picture of the text is what was drawn before, the grounds of what is
/// selected in the rows in view, the text of each of these rows in order, and
/// the caret, if it is to be seen.
pub proof fn law_rows_are_drawn_with_their_text(
    s: Seq<Mark>,
    g: GuiModel,
    a: AppModel,
    caret_line: int,
    metrics: EditorMetrics,
)
    ensures
        ({
            let rows = shown_lines(g, a, metrics);
            let n = rows.len() as int;
            let drawn = rows_of_text_drawn(s, g, a, caret_line, metrics);
            exists|grounds: Seq<Mark>, texts: Seq<Mark>, caret: Seq<Mark>|
                {
                    &&& drawn == #[trigger] (s + grounds + texts + caret)
                    &&& texts.len() == n
                    &&& forall|i: int|
                        0 <= i < n ==> #[trigger] texts[i] == row_mark(metrics, rows, i)
                    &&& caret.len() <= 1
                    &&& match a.selection {
                        Some(selection) => grounds_of_rows(
                            g.ruler,
                            rows,
                            selection,
                            metrics,
                            n,
                            grounds,
                        ),
                        None => grounds.len() == 0,
                    }
                }
        }),
{
    let rows = shown_lines(g, a, metrics);
    let n = rows.len() as int;
    let drawn = rows_of_text_drawn(s, g, a, caret_line, metrics);
    let grounds = match a.selection {
        Some(selection) => lemma_highlights(s, g.ruler, rows, selection, metrics, n),
        None => Seq::empty(),
    };
    if a.selection is None {
        assert(s + Seq::<Mark>::empty() =~= s);
    }
    let selected = s + grounds;
    lemma_row_texts(selected, rows, metrics, n);
    let written = row_texts_drawn(selected, rows, metrics, n);
    let texts = Seq::new(n as nat, |i: int| row_mark(metrics, rows, i));
    assert forall|j: int| 0 <= j < written.len() implies #[trigger] written[j] == (selected
        + texts)[j] by {
        if j >= selected.len() {
            assert(written[selected.len() + (j - selected.len())] == row_mark(
                metrics,
                rows,
                j - selected.len(),
            ));
        }
    }
    assert(written =~= selected + texts);
    if drawn == written {
        assert(drawn =~= s + grounds + texts + Seq::<Mark>::empty());
    } else {
        let caret = seq![drawn.last()];
        assert(drawn == written.push(drawn.last()));
        assert(drawn =~= s + grounds + texts + caret);
    }
}

// ---------------------------------------------------------------------------
// What is selected in a row
// ---------------------------------------------------------------------------

proof fn lemma_char_at_byte(text: Seq<char>, i: int, k: int)
    requires
        0 <= i <= k <= text.len(),
    ensures
        char_at_byte(text, i, bytes_before(text, k)) == Some(k),
    decreases k - i,
{
    lemma_bytes_before(text, i, k);
    if i < k {
        lemma_bytes_before(text, i + 1, k);
        assert(encode_scalar(text[i] as u32).len() > 0);
        lemma_char_at_byte(text, i + 1, k);
    }
}

proof fn lemma_row_parts(before: Seq<char>, chosen: Seq<char>, after: Seq<char>)
    ensures
        ({
            let text = before + chosen + after;
            let (i, j) = (behind(before), behind(before + chosen));
            &&& bytes_prefix(text, i) == Some(before)
            &&& bytes_part(text, i, j) == Some(chosen)
            &&& i <= j <= encode_utf8(text).len()
            &&& chosen.len() > 0 ==> i < j
        }),
{
    let text = before + chosen + after;
    let a = before.len() as int;
    let b = a + chosen.len();
    lemma_parts(before, chosen, after);
    assert(text.take(a) =~= before);
    assert(text.take(b) =~= before + chosen);
    assert(text.subrange(a, b) =~= chosen);
    lemma_char_at_byte(text, 0, a);
    lemma_char_at_byte(text, 0, b);
    lemma_bytes_before(text, a, b);
    if a < b {
        assert(encode_scalar(text[a] as u32).len() > 0);
        lemma_bytes_before(text, a + 1, b);
    }
}

/// The ground behind what is selected in a row begins where the row's text
/// before the selection ends, and is as wide as what is selected, one dot at
/// least, and no wider than the row.
pub proof fn law_selected_part_of_a_row_is_marked(
    ruler: RulerModel,
    row: RowLine,
    selection: (int, int),
    metrics: EditorMetrics,
    before: Seq<char>,
    chosen: Seq<char>,
    after: Seq<char>,
)
    requires
        row.text == before + chosen + after,
        row.end == row.start + encode_utf8(row.text).len(),
        chosen.len() > 0,
        selection.0 <= row.start ==> before.len() == 0,
        selection.0 > row.start ==> selection.0 == row.start + encode_utf8(before).len(),
        selection.1 >= row.end ==> after.len() == 0,
        selection.1 < row.end ==> selection.1 == row.start + encode_utf8(before + chosen).len(),
        8 + measured(ruler, TextRole::Editor, before) + measured(ruler, TextRole::Editor, chosen) + 1
            <= usize::MAX,
        8 + metrics.editor_text_width <= usize::MAX,
    ensures
        ({
            let left = 8 + measured(ruler, TextRole::Editor, before);
            let wide = measured(ruler, TextRole::Editor, chosen);
            let right = if wide < 1 {
                left + 1
            } else {
                left + wide
            };
            let edge = 8 + metrics.editor_text_width;
            let drawn = highlight(ruler, row, selection, metrics);
            &&& left < edge && right <= edge ==> drawn == Some((left, right))
            &&& left < edge < right ==> drawn == Some((left, edge))
            &&& edge <= left ==> drawn is None
        }),
{
    lemma_row_parts(before, chosen, after);
    lemma_measured_not_negative(ruler, TextRole::Editor, before);
    lemma_measured_not_negative(ruler, TextRole::Editor, chosen);
    if after.len() == 0 {
        assert(before + chosen =~= row.text);
    }
    if before.len() == 0 {
        assert(before =~= Seq::empty());
        assert(encode_utf8(before).len() == 0);
    }
}

/// In a row that the selection does not reach nothing is marked.
pub proof fn law_other_rows_are_not_marked(
    ruler: RulerModel,
    row: RowLine,
    selection: (int, int),
    metrics: EditorMetrics,
)
    requires
        selection.1 <= row.start || row.end <= selection.0,
    ensures
        highlight(ruler, row, selection, metrics) is None,
{
}

// ---------------------------------------------------------------------------
// The caret
// ---------------------------------------------------------------------------

proof fn lemma_last_holding(rows: Seq<RowLine>, caret_line: int, caret: int, n: int)
    requires
        0 <= n <= rows.len(),
    ensures
        last_holding(rows, caret_line, caret, n) matches Some(i) ==> 0 <= i < n && rows[i].number
            == caret_line && rows[i].start <= caret < rows[i].end,
        last_holding(rows, caret_line, caret, n) is None ==> forall|i: int|
            0 <= i < n ==> !((#[trigger] rows[i]).number == caret_line && rows[i].start <= caret
                < rows[i].end),
        last_ending(rows, caret_line, caret, n) matches Some(i) ==> 0 <= i < n && rows[i].number
            == caret_line && rows[i].end == caret,
        last_ending(rows, caret_line, caret, n) is None ==> forall|i: int|
            0 <= i < n ==> !((#[trigger] rows[i]).number == caret_line && rows[i].end == caret),
    decreases n,
{
    if n > 0 {
        lemma_last_holding(rows, caret_line, caret, n - 1);
    }
}

/// The caret is drawn last, upright in a row of its line that reaches to it, and
/// at the right end of a row only where no row of the line goes on behind it. It
/// is drawn wherever such a row is in view.
pub proof fn law_caret_is_drawn_in_its_row(
    s: Seq<Mark>,
    g: GuiModel,
    a: AppModel,
    caret_line: int,
    metrics: EditorMetrics,
)
    ensures
        ({
            let rows = shown_lines(g, a, metrics);
            let drawn = rows_of_text_drawn(s, g, a, caret_line, metrics);
            let reached = exists|i: int|
                0 <= i < rows.len() && (#[trigger] rows[i]).number == caret_line && rows[i].start
                    <= a.caret <= rows[i].end;
            reached ==> exists|i: int|
                {
                    &&& 0 <= i < rows.len()
                    &&& (#[trigger] rows[i]).number == caret_line
                    &&& rows[i].start <= a.caret < rows[i].end || rows[i].end == a.caret
                    &&& a.caret == rows[i].end ==> forall|k: int|
                        0 <= k < rows.len() && (#[trigger] rows[k]).number == caret_line ==> !(
                        rows[k].start <= a.caret < rows[k].end)
                    &&& drawn.last() == (Mark::Fill {
                        x: caret_x(g, rows[i], a.caret, metrics),
                        y: row_y(metrics, i),
                        width: 2,
                        height: 22,
                        color: COLOR_CARET,
                    })
                }
        }),
{
    let rows = shown_lines(g, a, metrics);
    let drawn = rows_of_text_drawn(s, g, a, caret_line, metrics);
    lemma_last_holding(rows, caret_line, a.caret, rows.len() as int);
    if exists|i: int|
        0 <= i < rows.len() && (#[trigger] rows[i]).number == caret_line && rows[i].start <= a.caret
            <= rows[i].end {
        let at = caret_row(rows, caret_line, a.caret);
        assert(at is Some);
        assert(0 <= at->0 < rows.len());
        assert(rows[at->0].number == caret_line);
    }
}

/// An input method writes where the caret is drawn, at the foot of its row.
pub proof fn law_input_method_writes_at_the_caret(
    s: Seq<Mark>,
    g: GuiModel,
    a: AppModel,
    width: int,
    height: int,
    line: int,
)
    requires
        document_valid(a.document),
        0 <= a.caret,
        on_line(a.document, line, a.caret),
        layout_of(a, width, height) is Some,
        ime_point(g, a, width, height) is Some,
    ensures
        ({
            let metrics = layout_of(a, width, height)->0;
            let (x, y) = ime_point(g, a, width, height)->0;
            let caret = rows_of_text_drawn(s, g, a, line + 1, metrics).last();
            &&& caret is Fill
            &&& caret->Fill_x == x
            &&& caret->Fill_y + 19 <= usize::MAX ==> y == caret->Fill_y + 19
        }),
{
    lemma_on_line(a.document, line, a.caret);
}

/// The caret stands behind the text of its row that lies before it, if that fits
/// into the row.
pub proof fn law_caret_stands_behind_the_text_before_it(
    g: GuiModel,
    row: RowLine,
    metrics: EditorMetrics,
    before: Seq<char>,
    after: Seq<char>,
)
    requires
        row.text == before + after,
        0 <= row.start,
        row.start + encode_utf8(row.text).len() <= usize::MAX,
        fit_end(
            g.ruler,
            TextRole::Editor,
            before,
            0,
            0,
            metrics.editor_text_width * crate::ruler::PIXEL,
        ) == before.len(),
        measured(g.ruler, TextRole::Editor, before) <= metrics.editor_text_width,
        8 + metrics.editor_text_width <= usize::MAX,
    ensures
        caret_x(g, row, row.start + encode_utf8(before).len(), metrics) == 8 + measured(
            g.ruler,
            TextRole::Editor,
            before,
        ),
{
    lemma_row_parts(before, Seq::empty(), after);
    assert(before + Seq::<char>::empty() + after =~= row.text);
    assert(before + Seq::<char>::empty() =~= before);
    lemma_measured_not_negative(g.ruler, TextRole::Editor, before);
    assert(text_before(row, row.start + encode_utf8(before).len()) == before);
    assert(before.take(before.len() as int) =~= before);
}

// ---------------------------------------------------------------------------
// Paper
// ---------------------------------------------------------------------------

/// How many pages the first `n` steps begin.
pub open spec fn pages_begun(steps: Seq<PrintStep>, n: int) -> int
    decreases n,
{
    if n <= 0 {
        0
    } else {
        pages_begun(steps, n - 1) + if steps[n - 1] is StartPage {
            1int
        } else {
            0int
        }
    }
}

proof fn lemma_pages_begun(a: Seq<PrintStep>, b: Seq<PrintStep>, n: int)
    requires
        n <= a.len(),
        n <= b.len(),
        forall|i: int| 0 <= i < n ==> a[i] == b[i],
    ensures
        pages_begun(a, n) == pages_begun(b, n),
    decreases n,
{
    if n > 0 {
        lemma_pages_begun(a, b, n - 1);
    }
}

/// `p` lines fit on a page, and no more.
pub open spec fn lines_to_a_page(layout: PageLayout, p: int) -> bool {
    &&& 1 <= p
    &&& layout.top + p * layout.line_height <= layout.bottom
    &&& layout.top + (p + 1) * layout.line_height > layout.bottom
}

/// Line `k` stands on page `q`, below `r` other lines.
pub open spec fn line_printed(
    layout: PageLayout,
    steps: Seq<PrintStep>,
    k: int,
    q: int,
    r: int,
) -> bool {
    exists|j: int|
        0 <= j < steps.len() && pages_begun(steps, j) == q + 1 && match #[trigger] steps[j] {
            PrintStep::Draw { line, top, bottom } => line == k && top == layout.top + r
                * layout.line_height && bottom == top + layout.line_height,
            _ => false,
        }
}

proof fn lemma_printed_stays(
    layout: PageLayout,
    steps: Seq<PrintStep>,
    more: Seq<PrintStep>,
    k: int,
    q: int,
    r: int,
)
    requires
        line_printed(layout, steps, k, q, r),
        steps.len() <= more.len(),
        forall|j: int| 0 <= j < steps.len() ==> steps[j] == more[j],
    ensures
        line_printed(layout, more, k, q, r),
{
    let j = choose|j: int|
        0 <= j < steps.len() && pages_begun(steps, j) == q + 1 && match #[trigger] steps[j] {
            PrintStep::Draw { line, top, bottom } => line == k && top == layout.top + r
                * layout.line_height && bottom == top + layout.line_height,
            _ => false,
        };
    lemma_pages_begun(steps, more, j);
    assert(more[j] == steps[j]);
}

/// After `n` lines: `q` pages are full and `r` lines are on the next one.
proof fn lemma_lines_printed(layout: PageLayout, lines: Seq<Seq<char>>, p: int, n: int) -> (at: (
    int,
    int,
))
    requires
        layout_fits(layout),
        lines_to_a_page(layout, p),
        0 <= n <= lines.len(),
        lines.len() <= usize::MAX,
    ensures
        ({
            let (q, r) = at;
            let (steps, y) = lines_printed(layout, lines, n);
            &&& n == q * p + r
            &&& 0 <= q
            &&& 0 <= r <= p
            &&& n > 0 ==> 1 <= r
            &&& n == 0 ==> q == 0
            &&& y == layout.top + r * layout.line_height
            &&& steps.len() > 0 && steps[0] is StartPage
            &&& pages_begun(steps, steps.len() as int) == q + 1
            &&& forall|k: int, kq: int, kr: int|
                0 <= k < n && k == kq * p + kr && 0 <= kr < p && lines[k].len() > 0
                    ==> #[trigger] line_printed(layout, steps, k, kq, kr)
            &&& forall|j: int|
                0 <= j < steps.len() ==> match #[trigger] steps[j] {
                    PrintStep::Draw { line, .. } => line < n && lines[line as int].len() > 0,
                    _ => true,
                }
            &&& forall|i: int, j: int|
                0 <= i < j < steps.len() ==> match (#[trigger] steps[i], #[trigger] steps[j]) {
                    (
                        PrintStep::Draw { line: first, .. },
                        PrintStep::Draw { line: second, .. },
                    ) => first < second,
                    _ => true,
                }
        }),
    decreases n,
{
    let h = layout.line_height as int;
    if n == 0 {
        let steps = lines_printed(layout, lines, n).0;
        assert(pages_begun(steps, 1) == pages_begun(steps, 0) + 1);
        (0, 0)
    } else {
        let (q, r) = lemma_lines_printed(layout, lines, p, n - 1);
        let (before, y) = lines_printed(layout, lines, n - 1);
        let (steps, _) = lines_printed(layout, lines, n);
        let full = y + h > layout.bottom;
        assert((r + 1) * h == r * h + h) by (nonlinear_arith);
        assert((p + 1) * h == p * h + h) by (nonlinear_arith);
        if r < p {
            assert((r + 1) * h <= p * h) by (nonlinear_arith)
                requires
                    r < p,
                    1 <= h,
            ;
            assert(!full);
        }
        assert((q + 1) * p == q * p + p) by (nonlinear_arith);
        assert(full == (r == p));
        let (now_q, now_r) = if full {
            (q + 1, 0int)
        } else {
            (q, r)
        };
        let turned = if full {
            before.push(PrintStep::EndPage).push(PrintStep::StartPage)
        } else {
            before
        };
        lemma_pages_begun(before, turned, before.len() as int);
        if full {
            assert(pages_begun(turned, before.len() as int + 1) == q + 1);
            assert(pages_begun(turned, before.len() as int + 2) == q + 2);
        }
        assert(pages_begun(turned, turned.len() as int) == now_q + 1);
        lemma_pages_begun(turned, steps, turned.len() as int);
        assert(pages_begun(steps, steps.len() as int) == now_q + 1);
        assert(0 * h == 0) by (nonlinear_arith);
        assert((now_r + 1) * h == now_r * h + h) by (nonlinear_arith);
        assert((now_r + 1) * h <= p * h) by (nonlinear_arith)
            requires
                now_r < p,
                1 <= h,
        ;
        let k = n - 1;
        if lines[k].len() > 0 {
            let j = turned.len() as int;
            assert(steps[j] is Draw);
            assert(0 <= now_r * h) by (nonlinear_arith)
                requires
                    0 <= now_r,
                    1 <= h,
            ;
            assert(match steps[j] {
                PrintStep::Draw { line, top, bottom } => line == k && top == layout.top + now_r * h
                    && bottom == top + h,
                _ => false,
            });
            assert(line_printed(layout, steps, k, now_q, now_r));
        }
        assert forall|k2: int, kq: int, kr: int|
            0 <= k2 < n && k2 == kq * p + kr && 0 <= kr < p && lines[k2].len()
                > 0 implies #[trigger] line_printed(layout, steps, k2, kq, kr) by {
            if k2 < n - 1 {
                lemma_printed_stays(layout, before, steps, k2, kq, kr);
            } else {
                assert(kq == now_q && kr == now_r) by (nonlinear_arith)
                    requires
                        kq * p + kr == now_q * p + now_r,
                        0 <= kr < p,
                        0 <= now_r < p,
                ;
            }
        }
        (now_q, now_r + 1)
    }
}

/// With room for `p` lines on a page, line `k` is printed on page `k / p`, below
/// the `k % p` lines before it, unless it is empty. No line is printed twice, and
/// none before one that comes before it.
pub proof fn law_lines_fill_the_pages(layout: PageLayout, lines: Seq<Seq<char>>, p: int)
    requires
        layout_fits(layout),
        lines_to_a_page(layout, p),
        lines.len() <= usize::MAX,
    ensures
        ({
            let steps = printing_steps(layout, lines);
            &&& steps[0] is StartPage
            &&& steps.last() is EndPage
            &&& forall|k: int, q: int, r: int|
                0 <= k < lines.len() && k == q * p + r && 0 <= r < p && lines[k].len() > 0
                    ==> #[trigger] line_printed(layout, steps, k, q, r)
            &&& forall|j: int|
                0 <= j < steps.len() ==> match #[trigger] steps[j] {
                    PrintStep::Draw { line, .. } => line < lines.len() && lines[line as int].len()
                        > 0,
                    _ => true,
                }
            &&& forall|i: int, j: int|
                0 <= i < j < steps.len() ==> match (#[trigger] steps[i], #[trigger] steps[j]) {
                    (
                        PrintStep::Draw { line: first, .. },
                        PrintStep::Draw { line: second, .. },
                    ) => first < second,
                    _ => true,
                }
        }),
{
    let n = lines.len() as int;
    let _ = lemma_lines_printed(layout, lines, p, n);
    let before = lines_printed(layout, lines, n).0;
    let steps = printing_steps(layout, lines);
    assert forall|k: int, q: int, r: int|
        0 <= k < lines.len() && k == q * p + r && 0 <= r < p && lines[k].len()
            > 0 implies #[trigger] line_printed(layout, steps, k, q, r) by {
        lemma_printed_stays(layout, before, steps, k, q, r);
    }
}


} // verus!
