//! What is printed: lines, file names and pages.

use crate::document::Document;
use crate::text::{decode_str, owned, shown_text, text_of, texts};
use vstd::prelude::*;
use vstd::utf8::*;

verus! {

/// No printed line holds more bytes, as long as the text is UTF-8.
pub const PRINT_LINE_CHUNK_BYTES: usize = 65_536;

/// The size of printed text in points.
pub const PRINT_POINT_SIZE: i32 = 10;

// ---------------------------------------------------------------------------
// Lines
// ---------------------------------------------------------------------------

/// The longest prefix of at most `end` bytes that is UTF-8.
pub open spec fn prefix_boundary(bytes: Seq<u8>, end: int) -> int
    decreases end,
{
    if end <= 0 {
        0
    } else if valid_utf8(bytes.take(end)) {
        end
    } else {
        prefix_boundary(bytes, end - 1)
    }
}

pub fn utf8_prefix_boundary(bytes: &Vec<u8>, max_len: usize) -> (end: usize)
    ensures
        end == prefix_boundary(
            bytes@,
            if max_len < bytes@.len() {
                max_len as int
            } else {
                bytes@.len() as int
            },
        ),
        end <= bytes@.len(),
        end <= max_len,
{
    let mut end: usize = if max_len < bytes.len() {
        max_len
    } else {
        bytes.len()
    };
    let ghost first = end as int;
    while end > 0
        invariant
            end <= bytes@.len(),
            end <= max_len,
            first == (if max_len < bytes@.len() {
                max_len as int
            } else {
                bytes@.len() as int
            }),
            prefix_boundary(bytes@, first) == prefix_boundary(bytes@, end as int),
        decreases end,
    {
        let prefix = vstd::slice::slice_subrange(bytes.as_slice(), 0, end);
        assert(prefix@ =~= bytes@.take(end as int));
        if decode_str(prefix).is_ok() {
            return end;
        }
        end -= 1;
    }
    0
}

/// A line without the carriage return before its end.
pub open spec fn without_return(line: Seq<u8>) -> Seq<u8> {
    if line.len() > 0 && line.last() == 13 {
        line.drop_last()
    } else {
        line
    }
}

/// A line that has grown too long, printed in parts: what is left of it, and the
/// printed lines.
pub open spec fn long_line_cut(line: Seq<u8>, printed: Seq<Seq<char>>) -> (
    Seq<u8>,
    Seq<Seq<char>>,
)
    decreases line.len(),
    via long_line_cut_decreases
{
    let end = prefix_boundary(line, PRINT_LINE_CHUNK_BYTES as int);
    if line.len() >= PRINT_LINE_CHUNK_BYTES && end > 0 {
        long_line_cut(
            line.subrange(end, line.len() as int),
            printed.push(shown_text(line.take(end))),
        )
    } else {
        (line, printed)
    }
}

#[via_fn]
proof fn long_line_cut_decreases(line: Seq<u8>, printed: Seq<Seq<char>>) {
    lemma_prefix_boundary(line, PRINT_LINE_CHUNK_BYTES as int);
}

proof fn lemma_prefix_boundary(bytes: Seq<u8>, end: int)
    ensures
        0 <= prefix_boundary(bytes, end),
        end >= 0 ==> prefix_boundary(bytes, end) <= end,
        prefix_boundary(bytes, end) > 0 ==> valid_utf8(
            bytes.take(prefix_boundary(bytes, end)),
        ),
    decreases end,
{
    if end > 0 && !valid_utf8(bytes.take(end)) {
        lemma_prefix_boundary(bytes, end - 1);
    }
}

/// What is held of a line and what is printed after the bytes of a text.
pub open spec fn lines_read(bytes: Seq<u8>) -> (Seq<u8>, Seq<Seq<char>>)
    decreases bytes.len(),
{
    if bytes.len() == 0 {
        (Seq::empty(), Seq::empty())
    } else {
        let (line, printed) = lines_read(bytes.drop_last());
        if bytes.last() == 10 {
            (Seq::empty(), printed.push(shown_text(without_return(line))))
        } else {
            long_line_cut(line.push(bytes.last()), printed)
        }
    }
}

/// The lines that a text is printed as: one at least.
pub open spec fn printed_lines(bytes: Seq<u8>) -> Seq<Seq<char>> {
    let (line, printed) = lines_read(bytes);
    if line.len() > 0 || printed.len() == 0 {
        printed.push(shown_text(without_return(line)))
    } else {
        printed
    }
}

fn emit_print_line_part(line: &mut Vec<u8>, end: usize, printed: &mut Vec<String>)
    requires
        end <= old(line)@.len(),
    ensures
        final(line)@ == old(line)@.subrange(end as int, old(line)@.len() as int),
        texts(final(printed)@) == texts(old(printed)@).push(shown_text(old(line)@.take(end as int))),
{
    let part = vstd::slice::slice_subrange(line.as_slice(), 0, end);
    assert(part@ =~= line@.take(end as int));
    printed.push(text_of(part));
    assert(texts(printed@) =~= texts(old(printed)@).push(
        shown_text(old(line)@.take(end as int)),
    ));
    let rest = vstd::slice::slice_to_vec(
        vstd::slice::slice_subrange(line.as_slice(), end, line.len()),
    );
    *line = rest;
}

fn emit_print_line(line: &mut Vec<u8>, printed: &mut Vec<String>)
    ensures
        final(line)@.len() == 0,
        texts(final(printed)@) == texts(old(printed)@).push(
            shown_text(without_return(old(line)@)),
        ),
{
    let ghost whole = line@;
    if line.len() > 0 && line[line.len() - 1] == 13 {
        line.pop();
    }
    assert(line@ == without_return(whole));
    let len: usize = line.len();
    assert(line@.take(len as int) =~= line@);
    emit_print_line_part(line, len, printed);
}

fn cut_long_line(line: &mut Vec<u8>, printed: &mut Vec<String>)
    ensures
        (final(line)@, texts(final(printed)@)) == long_line_cut(
            old(line)@,
            texts(old(printed)@),
        ),
{
    let ghost whole = long_line_cut(line@, texts(printed@));
    while line.len() >= PRINT_LINE_CHUNK_BYTES
        invariant_except_break
            long_line_cut(line@, texts(printed@)) == whole,
        ensures
            (line@, texts(printed@)) == whole,
        decreases line@.len(),
    {
        let split_at: usize = utf8_prefix_boundary(line, PRINT_LINE_CHUNK_BYTES);
        if split_at == 0 {
            break;
        }
        emit_print_line_part(line, split_at, printed);
    }
}

/// The lines that a document is printed as.
pub fn print_lines(document: &Document) -> (lines: Vec<String>)
    requires
        document.wf(),
    ensures
        texts(lines@) == printed_lines(document@.bytes),
{
    let bytes = document.bytes();
    let mut line: Vec<u8> = Vec::new();
    let mut printed: Vec<String> = Vec::new();
    let mut i: usize = 0;
    assert(texts(printed@) =~= Seq::empty());
    assert(bytes@.take(0) =~= Seq::empty());
    while i < bytes.len()
        invariant
            i <= bytes@.len(),
            (line@, texts(printed@)) == lines_read(bytes@.take(i as int)),
        decreases bytes@.len() - i,
    {
        let byte: u8 = bytes[i];
        proof {
            let taken = bytes@.take(i + 1);
            assert(taken.drop_last() =~= bytes@.take(i as int));
            assert(taken.last() == byte);
        }
        if byte == 10 {
            emit_print_line(&mut line, &mut printed);
            assert(line@ =~= Seq::empty());
        } else {
            line.push(byte);
            cut_long_line(&mut line, &mut printed);
        }
        i += 1;
    }
    assert(bytes@.take(i as int) =~= bytes@);
    assert(texts(printed@).len() == printed@.len());
    if line.len() > 0 || printed.len() == 0 {
        emit_print_line(&mut line, &mut printed);
    }
    printed
}

/// A text of one short line is printed as it is.
pub proof fn law_short_line_is_printed_whole(bytes: Seq<u8>)
    requires
        bytes.len() < PRINT_LINE_CHUNK_BYTES,
        !bytes.contains(10),
    ensures
        printed_lines(bytes) == seq![shown_text(without_return(bytes))],
{
    lemma_short_line(bytes);
    assert(printed_lines(bytes) =~= seq![shown_text(without_return(bytes))]);
}

proof fn lemma_short_line(bytes: Seq<u8>)
    requires
        bytes.len() < PRINT_LINE_CHUNK_BYTES,
        !bytes.contains(10),
    ensures
        lines_read(bytes) == (bytes, Seq::<Seq<char>>::empty()),
    decreases bytes.len(),
{
    if bytes.len() > 0 {
        let front = bytes.drop_last();
        assert forall|i: int| 0 <= i < front.len() implies front[i] != 10 by {
            assert(front[i] == bytes[i]);
        }
        lemma_short_line(front);
        assert(bytes[bytes.len() - 1] != 10);
        assert(front.push(bytes.last()) =~= bytes);
    } else {
        assert(bytes =~= Seq::empty());
    }
}

/// A line ends where a line feed stands: what follows is printed as if it stood
/// alone.
pub proof fn law_lines_are_printed_one_by_one(before: Seq<u8>, after: Seq<u8>)
    ensures
        lines_read(before.push(10) + after) == (
            lines_read(after).0,
            lines_read(before.push(10)).1 + lines_read(after).1,
        ),
    decreases after.len(),
{
    let first = before.push(10);
    assert(first.drop_last() =~= before);
    if after.len() == 0 {
        assert(first + after =~= first);
        assert(lines_read(first).1 + Seq::<Seq<char>>::empty() =~= lines_read(first).1);
    } else {
        let front = after.drop_last();
        law_lines_are_printed_one_by_one(before, front);
        assert((first + after).drop_last() =~= first + front);
        assert((first + after).last() == after.last());
        let (line, printed) = lines_read(front);
        let start = lines_read(first).1;
        if after.last() == 10 {
            assert((start + printed).push(shown_text(without_return(line))) =~= start
                + printed.push(shown_text(without_return(line))));
        } else {
            lemma_cut_after(line.push(after.last()), start, printed);
        }
    }
}

proof fn lemma_cut_after(line: Seq<u8>, start: Seq<Seq<char>>, printed: Seq<Seq<char>>)
    ensures
        long_line_cut(line, start + printed) == (
            long_line_cut(line, printed).0,
            start + long_line_cut(line, printed).1,
        ),
    decreases line.len(),
{
    let end = prefix_boundary(line, PRINT_LINE_CHUNK_BYTES as int);
    lemma_prefix_boundary(line, PRINT_LINE_CHUNK_BYTES as int);
    if line.len() >= PRINT_LINE_CHUNK_BYTES && end > 0 {
        let text = shown_text(line.take(end));
        assert((start + printed).push(text) =~= start + printed.push(text));
        lemma_cut_after(line.subrange(end, line.len() as int), start, printed.push(text));
    }
}

// ---------------------------------------------------------------------------
// File names
// ---------------------------------------------------------------------------

/// A character that may stand in the name of a file to print.
pub open spec fn plain_in_name(c: char) -> bool {
    let v = c as u32;
    ||| 97 <= v <= 122
    ||| 65 <= v <= 90
    ||| 48 <= v <= 57
    ||| v == 46 || v == 45 || v == 95
}

pub open spec fn named_char(c: char) -> char {
    if plain_in_name(c) {
        c
    } else {
        '_'
    }
}

/// A name with at most 64 characters, all of them plain.
pub open spec fn plain_name(name: Seq<char>) -> Seq<char> {
    Seq::new(
        if name.len() < 64 {
            name.len()
        } else {
            64
        },
        |i: int| named_char(name[i]),
    )
}

/// The name of a file to print; one that says nothing gives way.
pub open spec fn print_name(name: Seq<char>) -> Seq<char> {
    if forall|i: int| 0 <= i < plain_name(name).len() ==> #[trigger] plain_name(name)[i] == '_' {
        "Untitled"@
    } else {
        plain_name(name)
    }
}

pub fn sanitized_print_file_name(file_name: &str) -> (name: String)
    ensures
        name@ == print_name(file_name@),
{
    let chars = crate::text_units::characters(file_name);
    let mut name = String::new();
    let mut plain = false;
    let mut i: usize = 0;
    while i < chars.len() && i < 64
        invariant
            chars@ == file_name@,
            i <= chars@.len(),
            i <= 64,
            name@ == plain_name(file_name@).take(i as int),
            plain == exists|k: int| 0 <= k < i && #[trigger] plain_name(file_name@)[k] != '_',
        decreases chars@.len() - i,
    {
        let c: char = chars[i];
        let v: u32 = c as u32;
        let kept: char = if (97 <= v && v <= 122) || (65 <= v && v <= 90) || (48 <= v && v <= 57) || v
            == 46 || v == 45 || v == 95 {
            c
        } else {
            '_'
        };
        assert(kept == plain_name(file_name@)[i as int]);
        if kept != '_' {
            plain = true;
        }
        name.push(kept);
        i += 1;
        assert(name@ =~= plain_name(file_name@).take(i as int));
    }
    assert(plain_name(file_name@).take(i as int) =~= plain_name(file_name@));
    if plain {
        name
    } else {
        owned("Untitled")
    }
}

// ---------------------------------------------------------------------------
// Pages
// ---------------------------------------------------------------------------

/// Where text goes on a page, in the printer's dots.
#[derive(Clone, Copy, Debug, PartialEq, Eq, Structural)]
pub struct PageLayout {
    pub left: i32,
    pub top: i32,
    pub right: i32,
    pub bottom: i32,
    pub font_height: i32,
    pub line_height: i32,
}

pub open spec fn most(a: int, b: int) -> int {
    if a < b {
        b
    } else {
        a
    }
}

/// What a printer says of itself: dots to the inch, the size of a page, and the
/// height and spacing of a line, where it knows.
#[derive(Clone, Copy, Debug, PartialEq, Eq, Structural)]
pub struct Printer {
    pub dots_x: i32,
    pub dots_y: i32,
    pub page_width: i32,
    pub page_height: i32,
    pub text_height: i32,
    pub text_leading: i32,
    pub knows_text: bool,
}

/// All that is computed for a page fits into 32 bits.
pub open spec fn printer_fits(p: Printer) -> bool {
    &&& PRINT_POINT_SIZE * most(p.dots_y as int, 96) <= i32::MAX
    &&& p.knows_text ==> i32::MIN <= p.text_height + p.text_leading <= i32::MAX
}

pub open spec fn is_layout(layout: PageLayout, p: Printer) -> bool {
    let dots_x = most(p.dots_x as int, 96);
    let dots_y = most(p.dots_y as int, 96);
    let width = most(p.page_width as int, dots_x);
    let height = most(p.page_height as int, dots_y);
    &&& layout.left == dots_x / 2
    &&& layout.top == dots_y / 2
    &&& layout.right == most(width - dots_x / 2, dots_x / 2 + 1)
    &&& layout.bottom == most(height - dots_y / 2, dots_y / 2 + 1)
    &&& layout.font_height == -most(PRINT_POINT_SIZE * dots_y / 72, 1)
    &&& layout.line_height == most(
        if p.knows_text {
            p.text_height + p.text_leading
        } else {
            dots_y / 6
        },
        1,
    )
}

fn most_of(a: i32, b: i32) -> (r: i32)
    ensures
        r == most(a as int, b as int),
{
    if a < b {
        b
    } else {
        a
    }
}

/// Margins of half an inch, and lines as high as the printer says.
pub fn page_layout(printer: Printer) -> (layout: PageLayout)
    requires
        printer_fits(printer),
    ensures
        is_layout(layout, printer),
{
    let dots_x: i32 = most_of(printer.dots_x, 96);
    let dots_y: i32 = most_of(printer.dots_y, 96);
    let page_width: i32 = most_of(printer.page_width, dots_x);
    let page_height: i32 = most_of(printer.page_height, dots_y);
    let left: i32 = dots_x / 2;
    let top: i32 = dots_y / 2;
    PageLayout {
        left,
        top,
        right: most_of(page_width - left, left + 1),
        bottom: most_of(page_height - top, top + 1),
        font_height: -most_of(PRINT_POINT_SIZE * dots_y / 72, 1),
        line_height: most_of(
            if printer.knows_text {
                printer.text_height + printer.text_leading
            } else {
                dots_y / 6
            },
            1,
        ),
    }
}

/// What a printer is told to do.
#[derive(Clone, Copy, Debug, PartialEq, Eq, Structural)]
pub enum PrintStep {
    StartPage,
    EndPage,
    /// Draw the line of the given number between these rows of dots.
    Draw { line: usize, top: i32, bottom: i32 },
}

/// A line does not fit below `y`.
pub open spec fn page_full(layout: PageLayout, y: int) -> bool {
    y + layout.line_height > layout.bottom
}

/// The steps for the first `n` lines, and where the next one goes.
pub open spec fn lines_printed(layout: PageLayout, lines: Seq<Seq<char>>, n: int) -> (
    Seq<PrintStep>,
    int,
)
    decreases n,
{
    if n <= 0 {
        (seq![PrintStep::StartPage], layout.top as int)
    } else {
        let (steps, y) = lines_printed(layout, lines, n - 1);
        let turned = if page_full(layout, y) {
            steps.push(PrintStep::EndPage).push(PrintStep::StartPage)
        } else {
            steps
        };
        let at = if page_full(layout, y) {
            layout.top as int
        } else {
            y
        };
        let drawn = if lines[n - 1].len() > 0 {
            turned.push(
                PrintStep::Draw {
                    line: (n - 1) as usize,
                    top: at as i32,
                    bottom: (if at + layout.line_height < layout.bottom {
                        at + layout.line_height
                    } else {
                        layout.bottom as int
                    }) as i32,
                },
            )
        } else {
            turned
        };
        (drawn, at + layout.line_height)
    }
}

/// The steps that print lines: an empty line takes its place and is not drawn.
pub open spec fn printing_steps(layout: PageLayout, lines: Seq<Seq<char>>) -> Seq<PrintStep> {
    lines_printed(layout, lines, lines.len() as int).0.push(PrintStep::EndPage)
}

/// Positions on a page fit into 32 bits.
pub open spec fn layout_fits(layout: PageLayout) -> bool {
    &&& 0 <= layout.top <= layout.bottom
    &&& 1 <= layout.line_height
    &&& layout.bottom + layout.line_height <= i32::MAX
    &&& layout.top + 2 * layout.line_height <= i32::MAX
}

/// Plans the pages for lines of text.
pub fn print_pages(layout: PageLayout, lines: &Vec<String>) -> (steps: Vec<PrintStep>)
    requires
        layout_fits(layout),
    ensures
        steps@ == printing_steps(layout, texts(lines@)),
{
    let ghost all = texts(lines@);
    let mut steps: Vec<PrintStep> = Vec::new();
    steps.push(PrintStep::StartPage);
    let mut y: i32 = layout.top;
    let mut i: usize = 0;
    assert(steps@ =~= seq![PrintStep::StartPage]);
    while i < lines.len()
        invariant
            layout_fits(layout),
            all == texts(lines@),
            i <= lines@.len(),
            (steps@, y as int) == lines_printed(layout, all, i as int),
            layout.top <= y,
            y <= layout.bottom || y == layout.top + layout.line_height,
        decreases lines@.len() - i,
    {
        assert(all[i as int] == lines@[i as int]@);
        if y + layout.line_height > layout.bottom {
            steps.push(PrintStep::EndPage);
            steps.push(PrintStep::StartPage);
            y = layout.top;
        }
        if !lines[i].as_str().is_empty() {
            let bottom: i32 = if y + layout.line_height < layout.bottom {
                y + layout.line_height
            } else {
                layout.bottom
            };
            steps.push(PrintStep::Draw { line: i, top: y, bottom });
        }
        y = y + layout.line_height;
        i += 1;
    }
    steps.push(PrintStep::EndPage);
    steps
}

/// No line is drawn above the top or below the bottom of a page.
pub proof fn law_lines_stay_on_page(layout: PageLayout, lines: Seq<Seq<char>>, n: int)
    requires
        layout_fits(layout),
        0 <= n <= lines.len(),
        lines.len() <= usize::MAX,
    ensures
        layout.top <= lines_printed(layout, lines, n).1,
        forall|i: int|
            0 <= i < lines_printed(layout, lines, n).0.len() ==> match #[trigger] lines_printed(
                layout,
                lines,
                n,
            ).0[i] {
                PrintStep::Draw { line, top, bottom } => layout.top <= top && bottom
                    <= layout.bottom && top <= bottom,
                _ => true,
            },
        lines_printed(layout, lines, n).1 <= layout.bottom || lines_printed(layout, lines, n).1
            == layout.top + layout.line_height,
    decreases n,
{
    if n > 0 {
        law_lines_stay_on_page(layout, lines, n - 1);
    }
}

} // verus!
