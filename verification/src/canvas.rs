//! A canvas of pixels, each `0x00RRGGBB`, and the finished frame.

use crate::error::{fails_as, BlitzError, ErrorModel, Result};
use crate::text::{byte_len, decimal, owned, push_decimal};
use vstd::prelude::*;

verus! {

/// A rectangle of pixels.
#[derive(Clone, Copy, Debug, PartialEq, Eq, Structural)]
pub struct Rect {
    pub x: usize,
    pub y: usize,
    pub width: usize,
    pub height: usize,
}

/// A drawn picture.
#[derive(Clone, Debug, PartialEq, Eq)]
pub struct RenderFrame {
    pub width: usize,
    pub height: usize,
    pub pixels: Vec<u32>,
}

#[derive(Debug)]
pub struct Canvas {
    width: usize,
    height: usize,
    pixels: Vec<u32>,
}

/// A rectangle covers a pixel.
pub open spec fn covers(x: int, y: int, width: int, height: int, px: int, py: int) -> bool {
    x <= px < x + width && y <= py < y + height
}

/// A horizontal or vertical line covers a pixel. A line of no length is one
/// pixel; a line of another direction is not drawn.
pub open spec fn line_covers(x1: int, y1: int, x2: int, y2: int, px: int, py: int) -> bool {
    let left = if x1 <= x2 {
        x1
    } else {
        x2
    };
    let top = if y1 <= y2 {
        y1
    } else {
        y2
    };
    let across = if x1 <= x2 {
        x2 - x1
    } else {
        x1 - x2
    };
    let down = if y1 <= y2 {
        y2 - y1
    } else {
        y1 - y2
    };
    if y1 == y2 {
        covers(
            left,
            y1,
            if across == 0 {
                1
            } else {
                across
            },
            1,
            px,
            py,
        )
    } else {
        x1 == x2 && covers(x1, top, 1, down, px, py)
    }
}

/// The outline of a rectangle covers a pixel.
pub open spec fn outline_covers(x: int, y: int, width: int, height: int, px: int, py: int) -> bool {
    ||| line_covers(x, y, x + width, y, px, py)
    ||| line_covers(x, y + height, x + width, y + height, px, py)
    ||| line_covers(x, y, x, y + height, px, py)
    ||| line_covers(x + width, y, x + width, y + height, px, py)
}

/// A circle's outline covers a pixel: its squared distance from the centre is
/// within one radius of the squared radius.
pub open spec fn circle_covers(cx: int, cy: int, radius: int, px: int, py: int) -> bool {
    let dx = px - cx;
    let dy = py - cy;
    &&& -radius <= dx <= radius
    &&& -radius <= dy <= radius
    &&& radius * radius - radius <= dx * dx + dy * dy <= radius * radius + radius
}

/// `after` is `before` with the pixels of a region painted.
pub open spec fn painted(
    before: Canvas,
    after: Canvas,
    region: spec_fn(int, int) -> bool,
    color: u32,
) -> bool {
    &&& after.wf()
    &&& after.columns() == before.columns()
    &&& after.rows() == before.rows()
    &&& forall|px: int, py: int|
        0 <= px < before.columns() && 0 <= py < before.rows() ==> #[trigger] after.pixel(px, py)
            == if region(px, py) {
            color
        } else {
            before.pixel(px, py)
        }
}

/// Where a pixel is stored.
spec fn place(px: int, py: int, width: int) -> int {
    py * width + px
}

proof fn lemma_place(px: int, py: int, width: int, height: int)
    requires
        0 <= px < width,
        0 <= py < height,
    ensures
        0 <= place(px, py, width) < width * height,
        py * width <= place(px, py, width) < (py + 1) * width,
{
    assert(0 <= py * width + px < width * height) by (nonlinear_arith)
        requires
            0 <= px < width,
            0 <= py < height,
    ;
    assert((py + 1) * width == py * width + width) by (nonlinear_arith);
}

/// Two pixels are stored in one place only if they are the same.
proof fn lemma_place_unique(px: int, py: int, qx: int, qy: int, width: int)
    requires
        0 <= px < width,
        0 <= qx < width,
        place(px, py, width) == place(qx, qy, width),
    ensures
        px == qx,
        py == qy,
{
    if py != qy {
        if py < qy {
            assert(qy * width >= py * width + width) by (nonlinear_arith)
                requires
                    py + 1 <= qy,
                    width > 0,
            ;
        } else {
            assert(py * width >= qy * width + width) by (nonlinear_arith)
                requires
                    qy + 1 <= py,
                    width > 0,
            ;
        }
    }
}

impl Canvas {
    pub closed spec fn columns(&self) -> int {
        self.width as int
    }

    pub closed spec fn rows(&self) -> int {
        self.height as int
    }

    pub closed spec fn wf(&self) -> bool {
        self.pixels@.len() == self.width * self.height
    }

    /// The colour of a pixel.
    pub closed spec fn pixel(&self, px: int, py: int) -> u32 {
        self.pixels@[place(px, py, self.width as int)]
    }

    /// A canvas of one colour.
    pub fn new(width: usize, height: usize, color: u32) -> (canvas: Self)
        requires
            width * height <= usize::MAX,
        ensures
            canvas.wf(),
            canvas.columns() == width,
            canvas.rows() == height,
            forall|px: int, py: int|
                0 <= px < width && 0 <= py < height ==> #[trigger] canvas.pixel(px, py) == color,
    {
        let count: usize = width * height;
        let mut pixels: Vec<u32> = Vec::new();
        let mut i: usize = 0;
        while i < count
            invariant
                i <= count,
                pixels@.len() == i,
                forall|j: int| 0 <= j < i ==> pixels@[j] == color,
            decreases count - i,
        {
            pixels.push(color);
            i += 1;
        }
        let canvas = Canvas { width, height, pixels };
        proof {
            assert forall|px: int, py: int|
                0 <= px < width && 0 <= py < height implies #[trigger] canvas.pixel(px, py)
                == color by {
                lemma_place(px, py, width as int, height as int);
            }
        }
        canvas
    }

    pub fn width(&self) -> (width: usize)
        ensures
            width == self.columns(),
    {
        self.width
    }

    pub fn height(&self) -> (height: usize)
        ensures
            height == self.rows(),
    {
        self.height
    }

    /// The colour of a pixel.
    pub fn pixel_at(&self, x: usize, y: usize) -> (color: u32)
        requires
            self.wf(),
            x < self.columns(),
            y < self.rows(),
        ensures
            color == self.pixel(x as int, y as int),
    {
        let count: usize = self.pixels.len();
        proof {
            lemma_place(x as int, y as int, self.width as int, self.height as int);
        }
        self.pixels[y * self.width + x]
    }

    pub fn into_frame(self) -> (frame: RenderFrame)
        requires
            self.wf(),
        ensures
            is_frame_of(frame, self),
    {
        RenderFrame { width: self.width, height: self.height, pixels: self.pixels }
    }

    /// Fills a rectangle, as far as it lies on the canvas.
    pub fn fill_rect(&mut self, x: usize, y: usize, width: usize, height: usize, color: u32)
        requires
            old(self).wf(),
        ensures
            painted(
                *old(self),
                *final(self),
                |px: int, py: int|
                    covers(x as int, y as int, width as int, height as int, px, py),
                color,
            ),
    {
        let ghost before = *self;
        let start_x: usize = if x < self.width {
            x
        } else {
            self.width
        };
        let end_x: usize = if width < self.width - start_x {
            start_x + width
        } else {
            self.width
        };
        let start_y: usize = if y < self.height {
            y
        } else {
            self.height
        };
        let end_y: usize = if height < self.height - start_y {
            start_y + height
        } else {
            self.height
        };
        if start_x >= end_x || start_y >= end_y {
            return;
        }
        let mut row: usize = start_y;
        while row < end_y
            invariant
                before == *old(self),
                before.wf(),
                self.wf(),
                self.columns() == before.columns(),
                self.rows() == before.rows(),
                start_x <= end_x <= self.width,
                start_y <= row <= end_y <= self.height,
                forall|px: int, py: int|
                    0 <= px < before.columns() && 0 <= py < before.rows()
                        ==> #[trigger] self.pixel(px, py) == if start_x <= px < end_x && start_y
                        <= py < row {
                        color
                    } else {
                        before.pixel(px, py)
                    },
            decreases end_y - row,
        {
            self.fill_row(row, start_x, end_x, color);
            row += 1;
        }
    }

    fn fill_row(&mut self, row: usize, start_x: usize, end_x: usize, color: u32)
        requires
            old(self).wf(),
            start_x <= end_x <= old(self).columns(),
            row < old(self).rows(),
        ensures
            painted(
                *old(self),
                *final(self),
                |px: int, py: int| py == row && start_x <= px < end_x,
                color,
            ),
    {
        let ghost before = *self;
        let mut column: usize = start_x;
        while column < end_x
            invariant
                before == *old(self),
                before.wf(),
                self.wf(),
                self.columns() == before.columns(),
                self.rows() == before.rows(),
                start_x <= column <= end_x <= self.width,
                row < self.height,
                forall|px: int, py: int|
                    0 <= px < before.columns() && 0 <= py < before.rows()
                        ==> #[trigger] self.pixel(px, py) == if py == row && start_x <= px
                        < column {
                        color
                    } else {
                        before.pixel(px, py)
                    },
            decreases end_x - column,
        {
            self.put(column, row, color);
            column += 1;
        }
    }

    /// Paints one pixel of the canvas.
    fn put(&mut self, x: usize, y: usize, color: u32)
        requires
            old(self).wf(),
            x < old(self).columns(),
            y < old(self).rows(),
        ensures
            painted(*old(self), *final(self), |px: int, py: int| px == x && py == y, color),
    {
        let ghost before = *self;
        let count: usize = self.pixels.len();
        proof {
            lemma_place(x as int, y as int, self.width as int, self.height as int);
        }
        let index: usize = y * self.width + x;
        self.pixels.set(index, color);
        proof {
            assert forall|px: int, py: int|
                0 <= px < before.columns() && 0 <= py < before.rows() implies #[trigger] self.pixel(
                px,
                py,
            ) == if px == x && py == y {
                color
            } else {
                before.pixel(px, py)
            } by {
                lemma_place(px, py, self.width as int, self.height as int);
                if place(px, py, self.width as int) == index {
                    lemma_place_unique(px, py, x as int, y as int, self.width as int);
                }
            }
        }
    }

    /// Draws the outline of a rectangle.
    pub fn rect(&mut self, x: usize, y: usize, width: usize, height: usize, color: u32)
        requires
            old(self).wf(),
            x + width <= usize::MAX,
            y + height <= usize::MAX,
        ensures
            painted(
                *old(self),
                *final(self),
                |px: int, py: int|
                    outline_covers(x as int, y as int, width as int, height as int, px, py),
                color,
            ),
    {
        self.line(x, y, x + width, y, color);
        self.line(x, y + height, x + width, y + height, color);
        self.line(x, y, x, y + height, color);
        self.line(x + width, y, x + width, y + height, color);
    }

    /// Draws a horizontal or vertical line; its end is not drawn.
    pub fn line(&mut self, x1: usize, y1: usize, x2: usize, y2: usize, color: u32)
        requires
            old(self).wf(),
        ensures
            painted(
                *old(self),
                *final(self),
                |px: int, py: int|
                    line_covers(x1 as int, y1 as int, x2 as int, y2 as int, px, py),
                color,
            ),
    {
        if y1 == y2 {
            let across: usize = if x1 < x2 {
                x2 - x1
            } else if x2 < x1 {
                x1 - x2
            } else {
                1
            };
            self.fill_rect(
                if x1 < x2 {
                    x1
                } else {
                    x2
                },
                y1,
                across,
                1,
                color,
            );
        } else if x1 == x2 {
            let down: usize = if y1 < y2 {
                y2 - y1
            } else {
                y1 - y2
            };
            self.fill_rect(
                x1,
                if y1 < y2 {
                    y1
                } else {
                    y2
                },
                1,
                down,
                color,
            );
        }
    }

    /// Paints one pixel, if it lies on the canvas.
    pub fn set_pixel(&mut self, x: i32, y: i32, color: u32)
        requires
            old(self).wf(),
        ensures
            painted(*old(self), *final(self), |px: int, py: int| px == x && py == y, color),
    {
        if x < 0 || y < 0 {
            return;
        }
        let column: usize = x as usize;
        let row: usize = y as usize;
        if column < self.width && row < self.height {
            self.put(column, row, color);
        }
    }
}

/// A frame holds what a canvas shows.
pub closed spec fn is_frame_of(frame: RenderFrame, canvas: Canvas) -> bool {
    &&& frame.width == canvas.width
    &&& frame.height == canvas.height
    &&& frame.pixels == canvas.pixels
}

/// A pixel of a frame.
pub open spec fn frame_pixel(frame: RenderFrame, px: int, py: int) -> u32 {
    frame.pixels@[py * frame.width + px]
}

/// A frame has the size and the pixels of the canvas that it was made of.
pub proof fn law_frame_shows_canvas(frame: RenderFrame, canvas: Canvas, px: int, py: int)
    requires
        canvas.wf(),
        is_frame_of(frame, canvas),
        0 <= px < canvas.columns(),
        0 <= py < canvas.rows(),
    ensures
        frame.width == canvas.columns(),
        frame.height == canvas.rows(),
        frame.pixels@.len() == frame.width * frame.height,
        frame_pixel(frame, px, py) == canvas.pixel(px, py),
{
}

/// All that is computed for a circle fits into 32 bits.
pub open spec fn circle_fits(cx: int, cy: int, radius: int) -> bool {
    &&& 2 * (radius * radius) <= i32::MAX
    &&& i32::MIN <= cx - radius
    &&& cx + radius <= i32::MAX
    &&& i32::MIN <= cy - radius
    &&& cy + radius <= i32::MAX
}

/// Draws the outline of a circle.
pub fn draw_circle(canvas: &mut Canvas, center_x: i32, center_y: i32, radius: i32, color: u32)
    requires
        old(canvas).wf(),
        radius > i32::MIN,
        radius >= 0 ==> circle_fits(center_x as int, center_y as int, radius as int),
    ensures
        painted(
            *old(canvas),
            *final(canvas),
            |px: int, py: int|
                circle_covers(center_x as int, center_y as int, radius as int, px, py),
            color,
        ),
{
    if radius < 0 {
        return;
    }
    let ghost before = *canvas;
    let mut y: i32 = -radius;
    while y <= radius
        invariant
            before == *old(canvas),
            before.wf(),
            canvas.wf(),
            canvas.columns() == before.columns(),
            canvas.rows() == before.rows(),
            radius >= 0,
            circle_fits(center_x as int, center_y as int, radius as int),
            -radius <= y <= radius + 1,
            forall|px: int, py: int|
                0 <= px < before.columns() && 0 <= py < before.rows() ==> #[trigger] canvas.pixel(
                    px,
                    py,
                ) == if py < center_y + y && circle_covers(
                    center_x as int,
                    center_y as int,
                    radius as int,
                    px,
                    py,
                ) {
                    color
                } else {
                    before.pixel(px, py)
                },
        decreases radius - y + 1,
    {
        let ghost above = *canvas;
        let mut x: i32 = -radius;
        while x <= radius
            invariant
                above.wf(),
                canvas.wf(),
                canvas.columns() == above.columns(),
                canvas.rows() == above.rows(),
                radius >= 0,
                circle_fits(center_x as int, center_y as int, radius as int),
                -radius <= y <= radius,
                -radius <= x <= radius + 1,
                forall|px: int, py: int|
                    0 <= px < above.columns() && 0 <= py < above.rows()
                        ==> #[trigger] canvas.pixel(px, py) == if py == center_y + y && px
                        < center_x + x && circle_covers(
                        center_x as int,
                        center_y as int,
                        radius as int,
                        px,
                        py,
                    ) {
                        color
                    } else {
                        above.pixel(px, py)
                    },
            decreases radius - x + 1,
        {
            assert(0 <= x * x <= radius * radius && 0 <= y * y <= radius * radius && radius <= radius
                * radius) by (nonlinear_arith)
                requires
                    -radius <= x <= radius,
                    -radius <= y <= radius,
                    0 <= radius,
            ;
            let distance: i32 = x * x + y * y;
            if distance >= radius * radius - radius && distance <= radius * radius + radius {
                canvas.set_pixel(center_x + x, center_y + y, color);
            }
            x += 1;
        }
        y += 1;
    }
}

// ---------------------------------------------------------------------------
// Frames as bytes
// ---------------------------------------------------------------------------

pub open spec fn red(pixel: u32) -> u8 {
    ((pixel >> 16) & 0xff) as u8
}

pub open spec fn green(pixel: u32) -> u8 {
    ((pixel >> 8) & 0xff) as u8
}

pub open spec fn blue(pixel: u32) -> u8 {
    (pixel & 0xff) as u8
}

/// Pixels as red, green and blue bytes.
pub open spec fn rgb(pixels: Seq<u32>) -> Seq<u8>
    decreases pixels.len(),
{
    if pixels.len() == 0 {
        Seq::empty()
    } else {
        rgb(pixels.drop_last()) + seq![
            red(pixels.last()),
            green(pixels.last()),
            blue(pixels.last()),
        ]
    }
}

/// There are three bytes to a pixel.
pub proof fn lemma_rgb_len(pixels: Seq<u32>)
    ensures
        rgb(pixels).len() == 3 * pixels.len(),
    decreases pixels.len(),
{
    if pixels.len() > 0 {
        lemma_rgb_len(pixels.drop_last());
    }
}

/// Pixels as red, green, blue and opacity bytes.
pub open spec fn rgba(pixels: Seq<u32>) -> Seq<u8>
    decreases pixels.len(),
{
    if pixels.len() == 0 {
        Seq::empty()
    } else {
        rgba(pixels.drop_last()) + seq![
            red(pixels.last()),
            green(pixels.last()),
            blue(pixels.last()),
            0xff,
        ]
    }
}

/// Why a frame cannot be written to a buffer of `len` bytes, if it cannot.
pub open spec fn upload_error(frame: RenderFrame, len: int) -> Option<ErrorModel> {
    if len != frame.width * frame.height * 4 || frame.pixels@.len() * 4 != frame.width
        * frame.height * 4 {
        Some(
            ErrorModel::Window(
                "GPU frame upload size mismatch: frame="@ + decimal(frame.width as int) + "x"@
                    + decimal(frame.height as int) + " pixels="@ + decimal(
                    frame.pixels@.len() as int,
                ) + " rgba="@ + decimal(len),
            ),
        )
    } else {
        None
    }
}

/// The rows of a frame as red, green and blue bytes.
pub fn rgb_bytes(frame: &RenderFrame) -> (bytes: Vec<u8>)
    ensures
        bytes@ == rgb(frame.pixels@),
{
    let mut bytes: Vec<u8> = Vec::new();
    let mut i: usize = 0;
    while i < frame.pixels.len()
        invariant
            i <= frame.pixels@.len(),
            bytes@ == rgb(frame.pixels@.take(i as int)),
        decreases frame.pixels@.len() - i,
    {
        let pixel: u32 = frame.pixels[i];
        let ghost done = bytes@;
        bytes.push(((pixel >> 16) & 0xff) as u8);
        bytes.push(((pixel >> 8) & 0xff) as u8);
        bytes.push((pixel & 0xff) as u8);
        i += 1;
        proof {
            let taken = frame.pixels@.take(i as int);
            assert(taken.drop_last() =~= frame.pixels@.take(i - 1));
            assert(bytes@ =~= done + seq![red(pixel), green(pixel), blue(pixel)]);
        }
    }
    assert(frame.pixels@.take(i as int) =~= frame.pixels@);
    bytes
}

/// Writes a frame to a buffer of four bytes a pixel.
pub fn copy_frame_to_rgba(frame: &RenderFrame, output: &mut Vec<u8>) -> (result: Result<()>)
    ensures
        fails_as(result, upload_error(*frame, old(output)@.len() as int)),
        final(output)@ == (if result is Ok {
            rgba(frame.pixels@)
        } else {
            old(output)@
        }),
{
    let len: usize = byte_len(output.as_slice());
    let expected: Option<usize> = match frame.width.checked_mul(frame.height) {
        Some(count) => count.checked_mul(4),
        None => None,
    };
    let held: Option<usize> = frame.pixels.len().checked_mul(4);
    let fits = match (expected, held) {
        (Some(expected), Some(held)) => len == expected && held == expected,
        _ => false,
    };
    proof {
        let count = frame.width * frame.height;
        assert(count >= 0) by (nonlinear_arith)
            requires
                count == frame.width * frame.height,
        ;
    }
    if !fits {
        let mut text = owned("GPU frame upload size mismatch: frame=");
        push_decimal(&mut text, frame.width);
        text.append("x");
        push_decimal(&mut text, frame.height);
        text.append(" pixels=");
        push_decimal(&mut text, frame.pixels.len());
        text.append(" rgba=");
        push_decimal(&mut text, len);
        return Err(BlitzError::Window(text));
    }
    let mut i: usize = 0;
    proof {
        assert(output@.take(0) =~= rgba(frame.pixels@.take(0)));
    }
    while i < frame.pixels.len()
        invariant
            i <= frame.pixels@.len(),
            output@.len() == frame.pixels@.len() * 4,
            frame.pixels@.len() * 4 <= usize::MAX,
            output@.take(i * 4) == rgba(frame.pixels@.take(i as int)),
        decreases frame.pixels@.len() - i,
    {
        let pixel: u32 = frame.pixels[i];
        let ghost done = output@.take(i * 4);
        output.set(i * 4, ((pixel >> 16) & 0xff) as u8);
        output.set(i * 4 + 1, ((pixel >> 8) & 0xff) as u8);
        output.set(i * 4 + 2, (pixel & 0xff) as u8);
        output.set(i * 4 + 3, 0xff);
        proof {
            let taken = frame.pixels@.take(i + 1);
            assert(taken.drop_last() =~= frame.pixels@.take(i as int));
            assert(output@.take(i * 4 + 4) =~= done + seq![
                red(pixel),
                green(pixel),
                blue(pixel),
                0xff,
            ]);
        }
        i += 1;
    }
    assert(frame.pixels@.take(i as int) =~= frame.pixels@);
    assert(output@.take(i * 4) =~= output@);
    Ok(())
}

} // verus!
