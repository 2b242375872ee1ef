//! A sketch: the marks of a picture in the order in which they are drawn.

use crate::canvas::{covers, circle_covers, draw_circle, line_covers, painted, Canvas};
use crate::ruler::{saturated, TextRole};
use crate::text::owned;
use vstd::prelude::*;

verus! {

pub const COLOR_WINDOW: u32 = 0x00f0f0f0;

pub const COLOR_TEXT_AREA: u32 = 0x00ffffff;

pub const COLOR_STATUS: u32 = 0x00f0f0f0;

pub const COLOR_BORDER: u32 = 0x00d4d4d4;

pub const COLOR_MENU_OPEN: u32 = 0x00dbeeff;

pub const COLOR_DROPDOWN: u32 = 0x00f8f8f8;

pub const COLOR_BUTTON: u32 = 0x00e1e1e1;

pub const COLOR_FOCUS_BORDER: u32 = 0x000078d7;

pub const COLOR_GROUP_BOX: u32 = 0x00dddddd;

pub const COLOR_SCROLLBAR: u32 = 0x00e6e6e6;

pub const COLOR_SCROLL_THUMB: u32 = 0x00b8b8b8;

pub const COLOR_SELECTION: u32 = 0x00cce8ff;

pub const COLOR_TEXT: u32 = 0x00000000;

pub const COLOR_SELECTED_TEXT: u32 = 0x00ffffff;

pub const COLOR_DISABLED_TEXT: u32 = 0x00808080;

pub const COLOR_CARET: u32 = 0x00000000;

/// One step of drawing a picture.
#[derive(Clone, Debug, PartialEq, Eq)]
pub enum DrawOp {
    Fill { x: usize, y: usize, width: usize, height: usize, color: u32 },
    Line { x1: usize, y1: usize, x2: usize, y2: usize, color: u32 },
    Circle { x: u16, y: u16, radius: u8, color: u32 },
    /// Text below the line `y`, no wider than `max_width` where that is given.
    Text {
        x: usize,
        y: usize,
        text: String,
        color: u32,
        role: TextRole,
        max_width: Option<usize>,
    },
}

/// A step of drawing as a mathematical value.
pub enum Mark {
    Fill { x: int, y: int, width: int, height: int, color: u32 },
    Line { x1: int, y1: int, x2: int, y2: int, color: u32 },
    Circle { x: int, y: int, radius: int, color: u32 },
    Text {
        x: int,
        y: int,
        text: Seq<char>,
        color: u32,
        role: TextRole,
        max_width: Option<int>,
    },
}

impl View for DrawOp {
    type V = Mark;

    open spec fn view(&self) -> Mark {
        match *self {
            DrawOp::Fill { x, y, width, height, color } => Mark::Fill {
                x: x as int,
                y: y as int,
                width: width as int,
                height: height as int,
                color,
            },
            DrawOp::Line { x1, y1, x2, y2, color } => Mark::Line {
                x1: x1 as int,
                y1: y1 as int,
                x2: x2 as int,
                y2: y2 as int,
                color,
            },
            DrawOp::Circle { x, y, radius, color } => Mark::Circle {
                x: x as int,
                y: y as int,
                radius: radius as int,
                color,
            },
            DrawOp::Text { x, y, text, color, role, max_width } => Mark::Text {
                x: x as int,
                y: y as int,
                text: text@,
                color,
                role,
                max_width: crate::search::opt_int(max_width),
            },
        }
    }
}

pub open spec fn marks(ops: Seq<DrawOp>) -> Seq<Mark> {
    Seq::new(ops.len(), |i: int| ops[i]@)
}

// ---------------------------------------------------------------------------
// Marks
// ---------------------------------------------------------------------------

/// A filled rectangle is added to a picture.
pub open spec fn filled(s: Seq<Mark>, x: int, y: int, width: int, height: int, color: u32) -> Seq<
    Mark,
> {
    s.push(Mark::Fill { x, y, width, height, color })
}

pub open spec fn lined(s: Seq<Mark>, x1: int, y1: int, x2: int, y2: int, color: u32) -> Seq<Mark> {
    s.push(Mark::Line { x1, y1, x2, y2, color })
}

/// The outline of a rectangle is added: top, bottom, left and right.
pub open spec fn framed(s: Seq<Mark>, x: int, y: int, width: int, height: int, color: u32) -> Seq<
    Mark,
> {
    let right = saturated(x + width);
    let bottom = saturated(y + height);
    lined(
        lined(
            lined(lined(s, x, y, right, y, color), x, bottom, right, bottom, color),
            x,
            y,
            x,
            bottom,
            color,
        ),
        right,
        y,
        right,
        bottom,
        color,
    )
}

pub open spec fn written(
    s: Seq<Mark>,
    x: int,
    y: int,
    text: Seq<char>,
    color: u32,
    role: TextRole,
) -> Seq<Mark> {
    s.push(Mark::Text { x, y, text, color, role, max_width: None })
}

/// A picture that is being drawn.
#[derive(Debug, PartialEq, Eq)]
pub struct Sketch {
    pub ops: Vec<DrawOp>,
}

impl View for Sketch {
    type V = Seq<Mark>;

    open spec fn view(&self) -> Seq<Mark> {
        marks(self.ops@)
    }
}

impl Sketch {
    pub fn new() -> (sketch: Self)
        ensures
            sketch@ == Seq::<Mark>::empty(),
    {
        let sketch = Sketch { ops: Vec::new() };
        assert(sketch@ =~= Seq::empty());
        sketch
    }

    fn add_op(&mut self, op: DrawOp)
        ensures
            final(self)@ == old(self)@.push(op@),
    {
        self.ops.push(op);
        assert(self@ =~= old(self)@.push(op@));
    }

    pub fn fill_rect(&mut self, x: usize, y: usize, width: usize, height: usize, color: u32)
        ensures
            final(self)@ == filled(
                old(self)@,
                x as int,
                y as int,
                width as int,
                height as int,
                color,
            ),
    {
        self.add_op(DrawOp::Fill { x, y, width, height, color });
    }

    pub fn line(&mut self, x1: usize, y1: usize, x2: usize, y2: usize, color: u32)
        ensures
            final(self)@ == lined(old(self)@, x1 as int, y1 as int, x2 as int, y2 as int, color),
    {
        self.add_op(DrawOp::Line { x1, y1, x2, y2, color });
    }

    pub fn rect(&mut self, x: usize, y: usize, width: usize, height: usize, color: u32)
        ensures
            final(self)@ == framed(
                old(self)@,
                x as int,
                y as int,
                width as int,
                height as int,
                color,
            ),
    {
        let right: usize = x.saturating_add(width);
        let bottom: usize = y.saturating_add(height);
        self.line(x, y, right, y, color);
        self.line(x, bottom, right, bottom, color);
        self.line(x, y, x, bottom, color);
        self.line(right, y, right, bottom, color);
    }

    pub fn circle(&mut self, x: u16, y: u16, radius: u8, color: u32)
        ensures
            final(self)@ == old(self)@.push(
                Mark::Circle { x: x as int, y: y as int, radius: radius as int, color },
            ),
    {
        self.add_op(DrawOp::Circle { x, y, radius, color });
    }

    pub fn text(&mut self, x: usize, y: usize, text: &str, color: u32, role: TextRole)
        ensures
            final(self)@ == written(old(self)@, x as int, y as int, text@, color, role),
    {
        self.add_op(DrawOp::Text { x, y, text: owned(text), color, role, max_width: None });
    }

    pub fn clipped_text(
        &mut self,
        x: usize,
        y: usize,
        text: &str,
        color: u32,
        role: TextRole,
        max_width: usize,
    )
        ensures
            final(self)@ == old(self)@.push(
                Mark::Text {
                    x: x as int,
                    y: y as int,
                    text: text@,
                    color,
                    role,
                    max_width: Some(max_width as int),
                },
            ),
    {
        self.add_op(
            DrawOp::Text { x, y, text: owned(text), color, role, max_width: Some(max_width) },
        );
    }
}

// ---------------------------------------------------------------------------
// Painting
// ---------------------------------------------------------------------------

/// A mark other than text covers a pixel.
pub open spec fn mark_covers(mark: Mark, px: int, py: int) -> bool {
    match mark {
        Mark::Fill { x, y, width, height, .. } => covers(x, y, width, height, px, py),
        Mark::Line { x1, y1, x2, y2, .. } => line_covers(x1, y1, x2, y2, px, py),
        Mark::Circle { x, y, radius, .. } => circle_covers(x, y, radius, px, py),
        Mark::Text { .. } => false,
    }
}

pub open spec fn mark_color(mark: Mark) -> u32 {
    match mark {
        Mark::Fill { color, .. } => color,
        Mark::Line { color, .. } => color,
        Mark::Circle { color, .. } => color,
        Mark::Text { color, .. } => color,
    }
}

/// Paints a mark; text is left out.
pub fn paint_shape(canvas: &mut Canvas, op: &DrawOp)
    requires
        old(canvas).wf(),
    ensures
        painted(
            *old(canvas),
            *final(canvas),
            |px: int, py: int| mark_covers(op@, px, py),
            mark_color(op@),
        ),
{
    match op {
        DrawOp::Fill { x, y, width, height, color } => {
            canvas.fill_rect(*x, *y, *width, *height, *color);
        },
        DrawOp::Line { x1, y1, x2, y2, color } => {
            canvas.line(*x1, *y1, *x2, *y2, *color);
        },
        DrawOp::Circle { x, y, radius, color } => {
            let r: i32 = *radius as i32;
            assert(2 * (r * r) <= i32::MAX) by (nonlinear_arith)
                requires
                    0 <= r <= 255,
            ;
            draw_circle(canvas, *x as i32, *y as i32, r, *color);
        },
        DrawOp::Text { .. } => {},
    }
}

} // verus!
