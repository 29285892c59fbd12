//! Lines of pixels.
//!
//! A line steps pixel by pixel in its longer direction. In the other direction it is the ideal line
//! rounded to the nearest pixel, halves away from the start.

use vstd::arithmetic::div_mod::{
    lemma_fundamental_div_mod, lemma_fundamental_div_mod_converse, lemma_mod_bound,
};
use vstd::arithmetic::mul::{lemma_mul_is_commutative, lemma_mul_is_distributive_add};
use vstd::prelude::*;

use crate::raster::{paint_run, put_pixel, solid};

verus! {

/// `a / b` rounded to the nearest integer, halves up.
pub open spec fn rounded(a: int, b: int) -> int {
    if b == 0 {
        0
    } else {
        (2 * a + b) / (2 * b)
    }
}

/// Steps from one coordinate to another.
pub open spec fn distance(from: int, to: int) -> int {
    if from < to {
        to - from
    } else {
        from - to
    }
}

/// Steps from `from` to `at`, counted in the direction of `to`.
pub open spec fn steps(from: int, to: int, at: int) -> int {
    if from < to {
        at - from
    } else {
        from - at
    }
}

/// The two ends of a line.
pub struct Line {
    pub x0: int,
    pub y0: int,
    pub x1: int,
    pub y1: int,
}

impl Line {
    pub open spec fn dx(self) -> int {
        distance(self.x0, self.x1)
    }

    pub open spec fn dy(self) -> int {
        distance(self.y0, self.y1)
    }

    /// Whether the line is at least as wide as it is high.
    pub open spec fn flat(self) -> bool {
        self.dx() >= self.dy()
    }

    /// Number of the pixel in the line.
    pub open spec fn position(self, x: int, y: int) -> int {
        if self.flat() {
            steps(self.x0, self.x1, x)
        } else {
            steps(self.y0, self.y1, y)
        }
    }

    /// Whether a pixel belongs to the line.
    pub open spec fn contains(self, x: int, y: int) -> bool {
        let i = steps(self.x0, self.x1, x);
        let j = steps(self.y0, self.y1, y);
        if self.flat() {
            0 <= i <= self.dx() && j == rounded(self.dy() * i, self.dx())
        } else {
            0 <= j <= self.dy() && i == rounded(self.dx() * j, self.dy())
        }
    }

    /// Whether a pixel belongs to the first `count` pixels of the line.
    pub open spec fn starts_with(self, x: int, y: int, count: int) -> bool {
        self.contains(x, y) && self.position(x, y) < count
    }
}

/// A buffer of rows of `width` pixels after the first `count` pixels of a line took a colour.
pub open spec fn line_started(data: Seq<u8>, width: int, line: Line, count: int, color: Seq<u8>) -> Seq<u8> {
    Seq::new(
        data.len(),
        |k: int|
            if width > 0 && line.starts_with(k / 4 % width, k / 4 / width, count) {
                color[k % 4]
            } else {
                data[k]
            },
    )
}

/// A buffer of rows of `width` pixels after the pixels of a line took a colour.
pub open spec fn line_painted(data: Seq<u8>, width: int, line: Line, color: Seq<u8>) -> Seq<u8> {
    Seq::new(
        data.len(),
        |k: int|
            if width > 0 && line.contains(k / 4 % width, k / 4 / width) {
                color[k % 4]
            } else {
                data[k]
            },
    )
}

/// A pixel that is off by no more than half a pixel is the rounded one.
pub proof fn lemma_rounded(a: int, b: int, q: int)
    requires
        b > 0,
        -b < 2 * (b * q - a) <= b,
    ensures
        q == rounded(a, b),
{
    let r = 2 * a + b - q * (2 * b);
    assert(q * (2 * b) == 2 * (b * q)) by (nonlinear_arith);
    lemma_fundamental_div_mod_converse(2 * a + b, 2 * b, q, r);
}

/// The rounded value is off by no more than half a pixel.
pub proof fn lemma_rounded_is_near(a: int, b: int)
    requires
        b > 0,
    ensures
        -b < 2 * (b * rounded(a, b) - a) <= b,
{
    let q = rounded(a, b);
    lemma_fundamental_div_mod(2 * a + b, 2 * b);
    lemma_mod_bound(2 * a + b, 2 * b);
    assert(2 * b * q == 2 * (b * q)) by (nonlinear_arith);
}

/// Column and row of a pixel in a buffer.
pub proof fn lemma_column_and_row(width: int, x: int, y: int)
    requires
        0 <= x < width,
    ensures
        (y * width + x) % width == x,
        (y * width + x) / width == y,
{
    lemma_fundamental_div_mod_converse(y * width + x, width, y, x);
}

/// The last pixel of a line is its end.
pub proof fn law_line_connects_its_ends(line: Line)
    ensures
        line.contains(line.x0, line.y0),
        line.position(line.x0, line.y0) == 0,
        line.contains(line.x1, line.y1),
{
    let dx = line.dx();
    let dy = line.dy();
    assert(dx * 0 == 0 && dy * 0 == 0);
    if dx > 0 && line.flat() {
        assert(dx * 0 == 0);
        lemma_rounded(0, dx, 0);
        assert(dx * dy == dy * dx) by (nonlinear_arith);
        lemma_rounded(dy * dx, dx, dy);
    } else if !line.flat() {
        assert(dy * 0 == 0);
        lemma_rounded(0, dy, 0);
        assert(dx * dy == dy * dx) by (nonlinear_arith);
        lemma_rounded(dx * dy, dy, dx);
    }
}

/// Each pixel of a line is within half a pixel of the ideal line, measured in its shorter direction.
pub proof fn law_line_is_straight(line: Line, x: int, y: int)
    requires
        line.contains(x, y),
    ensures
        ({
            let i = steps(line.x0, line.x1, x);
            let j = steps(line.y0, line.y1, y);
            let off = 2 * (line.dx() * j - line.dy() * i);
            let longer = if line.flat() {
                line.dx()
            } else {
                line.dy()
            };
            -longer <= off <= longer
        }),
{
    let i = steps(line.x0, line.x1, x);
    let j = steps(line.y0, line.y1, y);
    if line.flat() && line.dx() > 0 {
        lemma_rounded_is_near(line.dy() * i, line.dx());
    } else if !line.flat() {
        lemma_rounded_is_near(line.dx() * j, line.dy());
    } else {
        assert(line.dx() * j == 0 && line.dy() * i == 0) by (nonlinear_arith)
            requires
                line.dx() == 0,
                line.dy() == 0,
        ;
    }
}

/// A line stays between its ends.
pub proof fn law_line_stays_in_its_box(line: Line, x: int, y: int)
    requires
        line.contains(x, y),
    ensures
        0 <= steps(line.x0, line.x1, x) <= line.dx(),
        0 <= steps(line.y0, line.y1, y) <= line.dy(),
{
    let i = steps(line.x0, line.x1, x);
    let j = steps(line.y0, line.y1, y);
    let dx = line.dx();
    let dy = line.dy();
    if line.flat() && dx > 0 {
        lemma_rounded_is_near(dy * i, dx);
        assert(0 <= j <= dy) by (nonlinear_arith)
            requires
                -dx < 2 * (dx * j - dy * i) <= dx,
                0 <= i <= dx,
                0 <= dy,
                0 < dx,
        ;
    } else if !line.flat() {
        lemma_rounded_is_near(dx * j, dy);
        assert(0 <= i <= dx) by (nonlinear_arith)
            requires
                -dy < 2 * (dy * i - dx * j) <= dy,
                0 <= j <= dy,
                0 <= dx,
                0 < dy,
        ;
    }
}

/// Painting the pixel with number `count` makes the painted start of the line one pixel longer.
proof fn lemma_next_pixel(data: Seq<u8>, width: int, height: int, line: Line, x: int, y: int, color: Seq<u8>)
    requires
        0 <= width,
        0 <= height,
        data.len() == width * height * 4,
        line.contains(x, y),
    ensures
        0 <= x < width && 0 <= y < height ==> paint_run(
            line_started(data, width, line, line.position(x, y), color),
            y * width + x,
            1,
            0,
            solid(color),
        ) == line_started(data, width, line, line.position(x, y) + 1, color),
        !(0 <= x < width && 0 <= y < height) ==> line_started(data, width, line, line.position(x, y), color)
            == line_started(data, width, line, line.position(x, y) + 1, color),
{
    let n = line.position(x, y);
    let before = line_started(data, width, line, n, color);
    let after = line_started(data, width, line, n + 1, color);
    assert forall|px: int, py: int| #[trigger]
        line.starts_with(px, py, n + 1) <==> line.starts_with(px, py, n) || (px == x && py == y) by {}
    if 0 <= x < width && 0 <= y < height {
        let p = y * width + x;
        lemma_column_and_row(width, x, y);
        let painted = paint_run(before, p, 1, 0, solid(color));
        assert forall|k: int| 0 <= k < data.len() implies painted[k] == after[k] by {
            let q = k / 4;
            lemma_fundamental_div_mod(q, width);
            lemma_mul_is_commutative(width, q / width);
            if q % width == x && q / width == y {
                assert(q == p);
            }
        }
        assert(painted =~= after);
    } else {
        assert forall|k: int| 0 <= k < data.len() implies before[k] == after[k] by {
            let q = k / 4;
            if width > 0 {
                lemma_fundamental_div_mod(q, width);
                lemma_mod_bound(q, width);
                let row = q / width;
                assert(0 <= row < height) by (nonlinear_arith)
                    requires
                        q == width * row + q % width,
                        0 <= q % width < width,
                        0 <= q < width * height,
                        width > 0,
                ;
            }
        }
        assert(before =~= after);
    }
}

/// A pixel that is near the ideal line belongs to the line.
proof fn lemma_on_line(line: Line, x: int, y: int, i: int, j: int, off: int)
    requires
        0 <= i <= line.dx(),
        0 <= j <= line.dy(),
        i == steps(line.x0, line.x1, x),
        j == steps(line.y0, line.y1, y),
        off == line.dx() * j - line.dy() * i,
        line.flat() && line.dx() > 0 ==> -line.dx() < 2 * off <= line.dx(),
        !line.flat() ==> -line.dy() <= 2 * off < line.dy(),
    ensures
        line.contains(x, y),
{
    if line.flat() && line.dx() > 0 {
        lemma_rounded(line.dy() * i, line.dx(), j);
    } else if !line.flat() {
        lemma_rounded(line.dx() * j, line.dy(), i);
    }
}

/// Before the end of a line, the next pixel is a step in the longer direction, and a step in the
/// other one just where the line would be off by half a pixel otherwise.
proof fn lemma_step(line: Line, i: int, j: int, off: int)
    requires
        0 <= i <= line.dx(),
        0 <= j <= line.dy(),
        i < line.dx() || j < line.dy(),
        off == line.dx() * j - line.dy() * i,
        line.flat() && line.dx() > 0 ==> -line.dx() < 2 * off <= line.dx(),
        !line.flat() ==> -line.dy() <= 2 * off < line.dy(),
    ensures
        ({
            let (dx, dy) = (line.dx(), line.dy());
            let e2 = 2 * (off + dx - dy);
            &&& line.flat() ==> e2 >= -dy
            &&& !line.flat() ==> e2 <= dx
            &&& e2 >= -dy ==> i < dx
            &&& e2 <= dx ==> j < dy
        }),
{
    let (dx, dy) = (line.dx(), line.dy());
    if i == dx && j < dy {
        assert(off <= -dx) by (nonlinear_arith)
            requires
                off == dx * j - dy * dx,
                j + 1 <= dy,
                0 <= dx,
        ;
    }
    if j == dy && i < dx {
        assert(off >= dy) by (nonlinear_arith)
            requires
                off == dx * dy - dy * i,
                i + 1 <= dx,
                0 <= dy,
        ;
    }
}

/// The start of a line that reaches its end is the line.
proof fn lemma_whole_line(data: Seq<u8>, width: int, line: Line, color: Seq<u8>)
    ensures
        line_started(data, width, line, line.position(line.x1, line.y1) + 1, color) == line_painted(
            data,
            width,
            line,
            color,
        ),
{
    assert(line_started(data, width, line, line.position(line.x1, line.y1) + 1, color) =~= line_painted(
        data,
        width,
        line,
        color,
    ));
}

/// Draws a line from (`x0`, `y0`) to (`x1`, `y1`) in a buffer of `height` rows of `width` pixels
/// (Bresenham's algorithm). Pixels outside the buffer are left out.
pub fn plot_line(
    data: &mut Vec<u8>,
    width: u16,
    height: u16,
    x0: i16,
    y0: i16,
    x1: i16,
    y1: i16,
    color: [u8; 4],
)
    requires
        old(data)@.len() == width * height * 4,
    ensures
        final(data)@ == line_painted(
            old(data)@,
            width as int,
            (Line { x0: x0 as int, y0: y0 as int, x1: x1 as int, y1: y1 as int }),
            color@,
        ),
{
    let ghost line = Line { x0: x0 as int, y0: y0 as int, x1: x1 as int, y1: y1 as int };
    let ghost before = data@;
    let mut x: i32 = x0 as i32;
    let mut y: i32 = y0 as i32;
    let x1: i32 = x1 as i32;
    let y1: i32 = y1 as i32;
    let dx: i32 = if x < x1 {
        x1 - x
    } else {
        x - x1
    };
    let dy: i32 = if y < y1 {
        y - y1
    } else {
        y1 - y
    };
    let sx: i32 = if x < x1 {
        1
    } else {
        -1
    };
    let sy: i32 = if y < y1 {
        1
    } else {
        -1
    };
    let mut err: i32 = dx + dy;
    let ghost mut i: int = 0;
    let ghost mut j: int = 0;
    // Twice the distance from the ideal line, in units of the longer direction.
    let ghost mut off: int = 0;
    proof {
        law_line_connects_its_ends(line);
        assert(data@ =~= line_started(before, width as int, line, 0, color@));
        assert(line.dx() * 0 == 0 && line.dy() * 0 == 0);
        assert(before.len() % 4 == 0) by {
            assert((width * height) * 4 % 4 == 0);
        }
    }
    let mut done: bool = false;
    while !done
        invariant
            before == old(data)@,
            before.len() == width * height * 4,
            before.len() % 4 == 0,
            line == (Line { x0: x0 as int, y0: y0 as int, x1: x1 as int, y1: y1 as int }),
            -0x8000 <= x1 < 0x8000,
            -0x8000 <= y1 < 0x8000,
            dx == line.dx(),
            dy == -line.dy(),
            sx == (if line.x0 < line.x1 {
                1int
            } else {
                -1int
            }),
            sy == (if line.y0 < line.y1 {
                1int
            } else {
                -1int
            }),
            0 <= i <= dx,
            0 <= j <= -dy,
            i == steps(line.x0, line.x1, x as int),
            j == steps(line.y0, line.y1, y as int),
            off == line.dx() * j - line.dy() * i,
            err == off + dx + dy,
            line.flat() && dx > 0 ==> -dx < 2 * off <= dx,
            !line.flat() ==> dy <= 2 * off < -dy,
            !done ==> data@ == line_started(before, width as int, line, line.position(x as int, y as int), color@),
            done ==> data@ == line_painted(before, width as int, line, color@),
        decreases
            (if done {
                0int
            } else {
                1int
            }),
            dx - i - dy - j,
    {
        let ghost n = line.position(x as int, y as int);
        proof {
            lemma_on_line(line, x as int, y as int, i, j, off);
            lemma_next_pixel(before, width as int, height as int, line, x as int, y as int, color@);
        }
        if x >= 0 && x < width as i32 && y >= 0 && y < height as i32 {
            assert(0 <= y * width <= 0xFFFF * 0xFFFF) by (nonlinear_arith)
                requires
                    0 <= y <= 0xFFFF,
                    0 <= width <= 0xFFFF,
            ;
            let at: u64 = y as u64 * width as u64 + x as u64;
            put_pixel(data, at, color);
        }
        assert(data@ == line_started(before, width as int, line, n + 1, color@));
        if x == x1 && y == y1 {
            proof {
                lemma_whole_line(before, width as int, line, color@);
            }
            done = true;
        } else {
            proof {
                lemma_step(line, i, j, off);
                lemma_mul_is_distributive_add(line.dx(), j, 1);
                lemma_mul_is_distributive_add(line.dy(), i, 1);
            }
            let e2: i32 = 2 * err;
            if e2 >= dy {
                err = err + dy;
                x = x + sx;
                proof {
                    i = i + 1;
                    off = off - line.dy();
                }
            }
            if e2 <= dx {
                err = err + dx;
                y = y + sy;
                proof {
                    j = j + 1;
                    off = off + line.dx();
                }
            }
        }
    }
}

} // verus!
