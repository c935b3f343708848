use vstd::prelude::*;

use crate::demos::{clear_screen, cleared};
use crate::fixed::{fits_i32, fixed_mul, fx_int, int_bits, lemma_int_bits, lemma_mul_bits_bound, mul_bits, Fx};
use crate::mmio::term::{Colour, Pixel, PixelPos, TermOp, Terminal};

verus! {

/// The error term of the line walk after `along_x` steps in x and `along_y`
/// steps in y, for a line `a` pixels wide and `b` pixels tall.
#[verifier::opaque]
pub open spec fn walk_err(a: int, b: int, along_x: int, along_y: int) -> int {
    a * (along_y + 1) - b * (along_x + 1)
}

/// The walk stands within the line's box.
pub open spec fn walk_inside(a: int, b: int, along_x: int, along_y: int) -> bool {
    0 <= along_x <= a && 0 <= along_y <= b
}

/// The walk steps in x from here.
pub open spec fn steps_x(a: int, b: int, along_x: int, along_y: int) -> bool {
    2 * walk_err(a, b, along_x, along_y) >= -b
}

/// The walk steps in y from here.
pub open spec fn steps_y(a: int, b: int, along_x: int, along_y: int) -> bool {
    2 * walk_err(a, b, along_x, along_y) <= a
}

/// One step of the walk stays within the box, moves at least one way, and so
/// brings the walk closer to the far corner.
pub proof fn lemma_walk_step(a: int, b: int, along_x: int, along_y: int)
    requires
        walk_inside(a, b, along_x, along_y),
        !(along_x == a && along_y == b),
    ensures
        steps_x(a, b, along_x, along_y) ==> along_x < a,
        steps_y(a, b, along_x, along_y) ==> along_y < b,
        steps_x(a, b, along_x, along_y) || steps_y(a, b, along_x, along_y),
{
    reveal(walk_err);
    let e = walk_err(a, b, along_x, along_y);
    if along_x == a {
        assert(along_y < b);
        assert(a * (along_y + 1 - b) <= 0) by (nonlinear_arith)
            requires
                a >= 0,
                along_y + 1 - b <= 0,
        ;
        assert(e == a * (along_y + 1 - b) - b) by (nonlinear_arith)
            requires
                e == a * (along_y + 1) - b * (a + 1),
        ;
    }
    if along_y == b {
        assert(along_x < a);
        assert(b * (a - along_x - 1) >= 0) by (nonlinear_arith)
            requires
                b >= 0,
                a - along_x - 1 >= 0,
        ;
        assert(e == b * (a - along_x - 1) + a) by (nonlinear_arith)
            requires
                e == a * (b + 1) - b * (along_x + 1),
        ;
    }
}

/// The steps of the line walk from the given place to the far corner
/// (`a`, `b`), as (steps in x, steps in y) pairs. At each place the walk
/// steps in x when twice its error term is at least `-b`, and in y when it
/// is at most `a`.
pub open spec fn walk(a: int, b: int, along_x: int, along_y: int) -> Seq<(int, int)>
    decreases (a - along_x) + (b - along_y),
    when walk_inside(a, b, along_x, along_y)
{
    if along_x == a && along_y == b {
        seq![(along_x, along_y)]
    } else {
        proof {
            lemma_walk_step(a, b, along_x, along_y);
        }
        let nx = if steps_x(a, b, along_x, along_y) {
            along_x + 1
        } else {
            along_x
        };
        let ny = if steps_y(a, b, along_x, along_y) {
            along_y + 1
        } else {
            along_y
        };
        seq![(along_x, along_y)] + walk(a, b, nx, ny)
    }
}

/// `from` moved `k` pixels toward `to`.
pub open spec fn toward(from: u8, to: u8, k: int) -> int {
    if from < to {
        from + k
    } else {
        from - k
    }
}

/// The distance between two coordinates.
pub open spec fn span(from: u8, to: u8) -> int {
    if from < to {
        to - from
    } else {
        from - to
    }
}

/// The pixel reached after the given steps from `start` toward `end`.
pub open spec fn walk_pixel(start: PixelPos, end: PixelPos, s: (int, int)) -> PixelPos {
    PixelPos { x: toward(start.x, end.x, s.0) as u8, y: toward(start.y, end.y, s.1) as u8 }
}

/// The pixels reached by a sequence of steps from `start` toward `end`.
pub open spec fn walk_pixels(start: PixelPos, end: PixelPos, steps: Seq<(int, int)>) -> Seq<
    PixelPos,
> {
    steps.map_values(|s: (int, int)| walk_pixel(start, end, s))
}

/// The pixels of the line from `start` to `end`, in drawing order.
pub open spec fn line_points(start: PixelPos, end: PixelPos) -> Seq<PixelPos> {
    walk_pixels(start, end, walk(span(start.x, end.x), span(start.y, end.y), 0, 0))
}

/// The writes that plot each of `points` in `colour`.
pub open spec fn plot_ops(points: Seq<PixelPos>, colour: Colour) -> Seq<TermOp> {
    points.map_values(|p: PixelPos| TermOp::Plotpix(Pixel { pos: p, color: colour }))
}

/// The writes that draw the line from `start` to `end`.
pub open spec fn line_ops(start: PixelPos, end: PixelPos, colour: Colour) -> Seq<TermOp> {
    plot_ops(line_points(start, end), colour)
}

/// How far the walk is off the ideal line, in units of the line's box:
/// `a * along_y - b * along_x`, which is zero exactly on the line.
#[verifier::opaque]
pub open spec fn walk_offset(a: int, b: int, along_x: int, along_y: int) -> int {
    a * along_y - b * along_x
}

/// The walk is within half a pixel of the ideal line along its minor axis.
pub open spec fn walk_close(a: int, b: int, along_x: int, along_y: int) -> bool {
    let m = if a >= b {
        a
    } else {
        b
    };
    -m <= 2 * walk_offset(a, b, along_x, along_y) <= m
}

/// From a place within half a pixel of the line, the walk steps along its
/// major axis every time and stays within half a pixel of the line.
pub proof fn lemma_walk_close_step(a: int, b: int, along_x: int, along_y: int)
    requires
        walk_inside(a, b, along_x, along_y),
        walk_close(a, b, along_x, along_y),
        !(along_x == a && along_y == b),
    ensures
        a >= b ==> steps_x(a, b, along_x, along_y),
        b >= a ==> steps_y(a, b, along_x, along_y),
        walk_close(
            a,
            b,
            if steps_x(a, b, along_x, along_y) {
                along_x + 1
            } else {
                along_x
            },
            if steps_y(a, b, along_x, along_y) {
                along_y + 1
            } else {
                along_y
            },
        ),
{
    reveal(walk_err);
    reveal(walk_offset);
    let d = walk_offset(a, b, along_x, along_y);
    let e = walk_err(a, b, along_x, along_y);
    assert(e == d + a - b) by (nonlinear_arith)
        requires
            e == a * (along_y + 1) - b * (along_x + 1),
            d == a * along_y - b * along_x,
    ;
    let sx = steps_x(a, b, along_x, along_y);
    let sy = steps_y(a, b, along_x, along_y);
    let nx = if sx {
        along_x + 1
    } else {
        along_x
    };
    let ny = if sy {
        along_y + 1
    } else {
        along_y
    };
    let d2 = walk_offset(a, b, nx, ny);
    assert(d2 == d + (if sy {
        a
    } else {
        0
    }) - (if sx {
        b
    } else {
        0
    })) by (nonlinear_arith)
        requires
            d2 == a * ny - b * nx,
            d == a * along_y - b * along_x,
            nx == along_x + (if sx {
                1int
            } else {
                0
            }),
            ny == along_y + (if sy {
                1int
            } else {
                0
            }),
    ;
    lemma_walk_step(a, b, along_x, along_y);
}

/// One step of a walk: one pixel in x, in y, or both.
pub open spec fn walk_steps_once(p: (int, int), q: (int, int)) -> bool {
    &&& (q.0 == p.0 || q.0 == p.0 + 1)
    &&& (q.1 == p.1 || q.1 == p.1 + 1)
    &&& q != p
}

/// A place inside the box and within half a pixel of the line.
pub open spec fn walk_near(a: int, b: int, p: (int, int)) -> bool {
    walk_inside(a, b, p.0, p.1) && walk_close(a, b, p.0, p.1)
}

/// What the walk from a place near the line looks like: it starts there,
/// ends at the far corner, has one more place than steps along the major
/// axis remain, stays inside the box and near the line, and each step moves
/// one pixel in x, in y, or in both.
pub proof fn lemma_walk_shape(a: int, b: int, along_x: int, along_y: int)
    requires
        walk_near(a, b, (along_x, along_y)),
    ensures
        walk(a, b, along_x, along_y).len() >= 1,
        walk(a, b, along_x, along_y)[0] == (along_x, along_y),
        walk(a, b, along_x, along_y).last() == (a, b),
        a >= b ==> walk(a, b, along_x, along_y).len() == a - along_x + 1,
        b >= a ==> walk(a, b, along_x, along_y).len() == b - along_y + 1,
        forall|i: int|
            0 <= i < walk(a, b, along_x, along_y).len() ==> walk_near(
                a,
                b,
                #[trigger] walk(a, b, along_x, along_y)[i],
            ),
        forall|i: int|
            0 <= i < walk(a, b, along_x, along_y).len() - 1 ==> walk_steps_once(
                #[trigger] walk(a, b, along_x, along_y)[i],
                walk(a, b, along_x, along_y)[i + 1],
            ),
    decreases (a - along_x) + (b - along_y),
{
    let w = walk(a, b, along_x, along_y);
    if along_x == a && along_y == b {
        assert(w == seq![(along_x, along_y)]);
    } else {
        lemma_walk_step(a, b, along_x, along_y);
        lemma_walk_close_step(a, b, along_x, along_y);
        let nx = if steps_x(a, b, along_x, along_y) {
            along_x + 1
        } else {
            along_x
        };
        let ny = if steps_y(a, b, along_x, along_y) {
            along_y + 1
        } else {
            along_y
        };
        lemma_walk_shape(a, b, nx, ny);
        let rest = walk(a, b, nx, ny);
        assert(w == seq![(along_x, along_y)] + rest);
        assert forall|i: int| 0 <= i < w.len() - 1 implies walk_steps_once(
            #[trigger] w[i],
            w[i + 1],
        ) by {
            if i > 0 {
                assert(w[i] == rest[i - 1]);
                assert(w[i + 1] == rest[i]);
            }
        }
        assert forall|i: int| 0 <= i < w.len() implies walk_near(a, b, #[trigger] w[i]) by {
            if i > 0 {
                assert(w[i] == rest[i - 1]);
            }
        }
    }
}

/// The line from `start` to `end` starts at `start`, ends at `end`, has one
/// pixel per column or row along its longer side (both ends included), and
/// each pixel touches the one before it: one step in x, in y, or both,
/// always toward `end`.
#[verifier::spinoff_prover]
#[verifier::rlimit(40)]
pub proof fn lemma_line_shape(start: PixelPos, end: PixelPos)
    ensures
        line_points(start, end).len() == (if span(start.x, end.x) >= span(start.y, end.y) {
            span(start.x, end.x)
        } else {
            span(start.y, end.y)
        }) + 1,
        line_points(start, end)[0] == start,
        line_points(start, end).last() == end,
        forall|i: int|
            0 <= i < line_points(start, end).len() - 1 ==> pixels_step_toward(
                #[trigger] line_points(start, end)[i],
                line_points(start, end)[i + 1],
                end,
            ),
{
    let a = span(start.x, end.x);
    let b = span(start.y, end.y);
    assert(walk_offset(a, b, 0, 0) == 0) by {
        reveal(walk_offset);
    }
    lemma_walk_shape(a, b, 0, 0);
    let w = walk(a, b, 0, 0);
    let pts = line_points(start, end);
    assert(pts.len() == w.len());
    assert forall|i: int| 0 <= i < pts.len() - 1 implies pixels_step_toward(
        #[trigger] pts[i],
        pts[i + 1],
        end,
    ) by {
        let s = w[i];
        let t = w[i + 1];
        assert(walk_near(a, b, s));
        assert(walk_near(a, b, t));
        assert(walk_steps_once(s, t));
        assert(pts[i] == walk_pixel(start, end, s));
        assert(pts[i + 1] == walk_pixel(start, end, t));
    }
}

/// `q` touches `p` (one pixel in x, in y, or both) and is no farther from
/// `end` than `p` in either coordinate.
pub open spec fn pixels_step_toward(p: PixelPos, q: PixelPos, end: PixelPos) -> bool {
    &&& span(p.x, q.x) <= 1
    &&& span(p.y, q.y) <= 1
    &&& p != q
    &&& span(q.x, end.x) <= span(p.x, end.x)
    &&& span(q.y, end.y) <= span(p.y, end.y)
}

/// Draws the line from `start` to `end` in `colour`, one pixel at a time,
/// both ends included.
pub fn draw_line(terminal: &mut Terminal, start: PixelPos, end: PixelPos, colour: Colour)
    ensures
        final(terminal)@ == old(terminal)@ + line_ops(start, end, colour),
{
    let mut x0 = start.x as i32;
    let mut y0 = start.y as i32;
    let x1 = end.x as i32;
    let y1 = end.y as i32;
    let dx = if x1 - x0 < 0 {
        -(x1 - x0)
    } else {
        x1 - x0
    };
    let dy = -(if y1 - y0 < 0 {
        -(y1 - y0)
    } else {
        y1 - y0
    });
    let sx: i32 = if x0 < x1 {
        1
    } else {
        -1
    };
    let sy: i32 = if y0 < y1 {
        1
    } else {
        -1
    };
    let mut err = dx + dy;
    let ghost a = span(start.x, end.x);
    let ghost b = span(start.y, end.y);
    let ghost mut along_x: int = 0;
    let ghost mut along_y: int = 0;
    let ghost mut done: Seq<(int, int)> = Seq::empty();
    proof {
        reveal(walk_err);
    }
    assert(walk_err(a, b, 0, 0) == a - b);
    loop
        invariant_except_break
            walk_inside(a, b, along_x, along_y),
            x0 == toward(start.x, end.x, along_x),
            y0 == toward(start.y, end.y, along_y),
            err == walk_err(a, b, along_x, along_y),
            done + walk(a, b, along_x, along_y) == walk(a, b, 0, 0),
        invariant
            a == span(start.x, end.x),
            b == span(start.y, end.y),
            dx == a,
            dy == -b,
            x1 == end.x,
            y1 == end.y,
            sx == (if start.x < end.x {
                1int
            } else {
                -1int
            }),
            sy == (if start.y < end.y {
                1int
            } else {
                -1int
            }),
            0 <= a <= 255,
            0 <= b <= 255,
            terminal@ == old(terminal)@ + plot_ops(walk_pixels(start, end, done), colour),
        ensures
            terminal@ == old(terminal)@ + line_ops(start, end, colour),
        decreases (a - along_x) + (b - along_y),
    {
        proof {
            reveal(walk_err);
        }
        let ghost here = (along_x, along_y);
        assert(0 <= x0 <= 255 && 0 <= y0 <= 255);
        assert(toward(start.x, end.x, along_x) as u8 == x0 as u8);
        assert(toward(start.y, end.y, along_y) as u8 == y0 as u8);
        assert(walk_pixel(start, end, here) == PixelPos { x: x0 as u8, y: y0 as u8 });
        terminal.plotpix(Pixel { pos: PixelPos { x: x0 as u8, y: y0 as u8 }, color: colour });
        proof {
            assert(plot_ops(walk_pixels(start, end, done + seq![here]), colour) =~= plot_ops(
                walk_pixels(start, end, done),
                colour,
            ).push(TermOp::Plotpix(Pixel { pos: walk_pixel(start, end, here), color: colour })));
            done = done + seq![here];
        }
        if x0 == x1 && y0 == y1 {
            assert(along_x == a && along_y == b);
            assert(walk(a, b, along_x, along_y) == seq![here]);
            assert(done =~= walk(a, b, 0, 0));
            break;
        }
        proof {
            lemma_walk_step(a, b, along_x, along_y);
        }
        let ghost moves_x = steps_x(a, b, along_x, along_y);
        let ghost moves_y = steps_y(a, b, along_x, along_y);
        assert(-65536 <= err <= 65536) by (nonlinear_arith)
            requires
                err == a * (along_y + 1) - b * (along_x + 1),
                walk_inside(a, b, along_x, along_y),
                0 <= a <= 255,
                0 <= b <= 255,
        ;
        let twice_err = err * 2;
        if twice_err >= dy {
            err = err + dy;
            x0 = x0 + sx;
        }
        if twice_err <= dx {
            err = err + dx;
            y0 = y0 + sy;
        }
        proof {
            let old_x = along_x;
            let old_y = along_y;
            if moves_x {
                along_x = along_x + 1;
            }
            if moves_y {
                along_y = along_y + 1;
            }
            assert(err == a * (along_y + 1) - b * (along_x + 1)) by (nonlinear_arith)
                requires
                    err == a * (old_y + 1) - b * (old_x + 1) + (if moves_x {
                        -b
                    } else {
                        0
                    }) + (if moves_y {
                        a
                    } else {
                        0
                    }),
                    along_x == old_x + (if moves_x {
                        1int
                    } else {
                        0
                    }),
                    along_y == old_y + (if moves_y {
                        1int
                    } else {
                        0
                    }),
            ;
            assert(walk(a, b, old_x, old_y) == seq![(old_x, old_y)] + walk(
                a,
                b,
                along_x,
                along_y,
            ));
            assert(done + walk(a, b, along_x, along_y) =~= (done.drop_last() + seq![
                (old_x, old_y),
            ]) + walk(a, b, along_x, along_y));
        }
    }
}


const SCREEN_CENTER: i32 = 128;

const CUBE_RADIUS: i32 = 20;

const CAMERA_Z: i32 = 78;

/// Screen pixels per whole unit of height, at unit depth.
const PROJECTION_SCALE: i32 = 36;

/// The twelve edges of the cube, as pairs of corner numbers. Corner `i` has
/// its x, y and z coordinates positive where bits 0, 1 and 2 of `i` are set.
pub const EDGES: [(usize, usize); 12] = [
    (0, 1),
    (1, 3),
    (3, 2),
    (2, 0),
    (4, 5),
    (5, 7),
    (7, 6),
    (6, 4),
    (0, 4),
    (1, 5),
    (2, 6),
    (3, 7),
];

/// 256 times the sine of `i` sixty-fourths of a turn.
pub const SIN: [i32; 64] = [
    0, 25, 50, 74, 98, 121, 142, 162, 181, 198, 213, 226, 237, 245, 251, 255, 256, 255, 251, 245,
    237, 226, 213, 198, 181, 162, 142, 121, 98, 74, 50, 25, 0, -25, -50, -74, -98, -121, -142,
    -162, -181, -198, -213, -226, -237, -245, -251, -255, -256, -255, -251, -245, -237, -226, -213,
    -198, -181, -162, -142, -121, -98, -74, -50, -25,
];

/// The sine table entry for an angle in sixty-fourths of a turn (angles wrap
/// around).
pub open spec fn sine_bits(angle: usize) -> i32 {
    SIN@[(angle & 63usize) as int]
}

/// The cosine, as the sine a quarter turn further on.
pub open spec fn cosine_bits(angle: usize) -> i32 {
    sine_bits(angle.wrapping_add(16))
}

/// Every sine table entry lies between -1 and 1.
pub proof fn lemma_sine_bounds(angle: usize)
    ensures
        -256 <= sine_bits(angle) <= 256,
{
    let i = angle & 63usize;
    assert(i < 64) by (bit_vector)
        requires
            i == angle & 63usize,
    ;
    assert(-256 <= SIN@[i as int] <= 256);
}

/// A point in space, each coordinate with eight fractional bits.
#[derive(Clone, Copy)]
struct Vec3 {
    x: Fx,
    y: Fx,
    z: Fx,
}

impl Vec3 {
    spec fn bits(self) -> (i32, i32, i32) {
        (self.x.bits, self.y.bits, self.z.bits)
    }

    fn new(x: i32, y: i32, z: i32) -> (r: Self)
        ensures
            r.bits() == (int_bits(x), int_bits(y), int_bits(z)),
    {
        Self { x: fx_int(x), y: fx_int(y), z: fx_int(z) }
    }
}

fn sin(angle: usize) -> (r: Fx)
    ensures
        r.bits == sine_bits(angle),
{
    let i = angle & 63;
    assert(i < 64) by (bit_vector)
        requires
            i == angle & 63usize,
    ;
    Fx { bits: SIN[i] }
}

fn cos(angle: usize) -> (r: Fx)
    ensures
        r.bits == cosine_bits(angle),
{
    sin(angle.wrapping_add(16))
}

/// The point turned about the y axis by the angle with sine `s` and cosine
/// `c` (both with eight fractional bits).
pub open spec fn turn_y(v: (i32, i32, i32), s: i32, c: i32) -> (i32, i32, i32) {
    (
        (mul_bits(v.0, c) + mul_bits(v.2, s)) as i32,
        v.1,
        (mul_bits(v.2, c) - mul_bits(v.0, s)) as i32,
    )
}

/// The point turned about the x axis by the angle with sine `s` and cosine
/// `c`.
pub open spec fn turn_x(v: (i32, i32, i32), s: i32, c: i32) -> (i32, i32, i32) {
    (
        v.0,
        (mul_bits(v.1, c) - mul_bits(v.2, s)) as i32,
        (mul_bits(v.1, s) + mul_bits(v.2, c)) as i32,
    )
}

/// Turning about the y axis stays within `i32`.
pub open spec fn turn_y_fits(v: (i32, i32, i32), s: i32, c: i32) -> bool {
    &&& fits_i32(v.0 * c)
    &&& fits_i32(v.2 * s)
    &&& fits_i32(v.2 * c)
    &&& fits_i32(v.0 * s)
    &&& fits_i32(mul_bits(v.0, c) + mul_bits(v.2, s))
    &&& fits_i32(mul_bits(v.2, c) - mul_bits(v.0, s))
}

/// Turning about the x axis stays within `i32`.
pub open spec fn turn_x_fits(v: (i32, i32, i32), s: i32, c: i32) -> bool {
    &&& fits_i32(v.1 * c)
    &&& fits_i32(v.2 * s)
    &&& fits_i32(v.1 * s)
    &&& fits_i32(v.2 * c)
    &&& fits_i32(mul_bits(v.1, c) - mul_bits(v.2, s))
    &&& fits_i32(mul_bits(v.1, s) + mul_bits(v.2, c))
}

fn rotate_y(v: Vec3, sin: Fx, cos: Fx) -> (r: Vec3)
    requires
        turn_y_fits(v.bits(), sin.bits, cos.bits),
    ensures
        r.bits() == turn_y(v.bits(), sin.bits, cos.bits),
{
    Vec3 {
        x: fixed_mul(v.x, cos).add(fixed_mul(v.z, sin)),
        y: v.y,
        z: fixed_mul(v.z, cos).sub(fixed_mul(v.x, sin)),
    }
}

fn rotate_x(v: Vec3, sin: Fx, cos: Fx) -> (r: Vec3)
    requires
        turn_x_fits(v.bits(), sin.bits, cos.bits),
    ensures
        r.bits() == turn_x(v.bits(), sin.bits, cos.bits),
{
    Vec3 {
        x: v.x,
        y: fixed_mul(v.y, cos).sub(fixed_mul(v.z, sin)),
        z: fixed_mul(v.y, sin).add(fixed_mul(v.z, cos)),
    }
}

/// Integer division rounding toward zero, as Rust's `/` on integers does.
pub open spec fn div_toward_zero(n: int, d: int) -> int {
    if n >= 0 {
        n / d
    } else {
        -((-n) / d)
    }
}

/// The value held to the range 0..=255.
pub open spec fn clamp_byte(v: int) -> u8 {
    if v < 0 {
        0
    } else if v > 255 {
        255
    } else {
        v as u8
    }
}

/// The distance of the point from the camera, in whole units, at least 1.
pub open spec fn depth(v: (i32, i32, i32)) -> int {
    let z = (v.2 >> 8i32) + 78;
    if z < 1 {
        1
    } else {
        z
    }
}

/// The perspective projection of the point onto the screen, held to the
/// screen's edges: whole units scaled by 36 over the depth, about the
/// centre (128, 128), with y pointing down.
pub open spec fn projected(v: (i32, i32, i32)) -> PixelPos {
    PixelPos {
        x: clamp_byte(128 + div_toward_zero((v.0 >> 8i32) * 36, depth(v))),
        y: clamp_byte(128 - div_toward_zero((v.1 >> 8i32) * 36, depth(v))),
    }
}

/// The projection stays within `i32`.
pub open spec fn project_fits(v: (i32, i32, i32)) -> bool {
    &&& fits_i32((v.0 >> 8i32) * 36)
    &&& fits_i32((v.1 >> 8i32) * 36)
    &&& fits_i32(128 + div_toward_zero((v.0 >> 8i32) * 36, depth(v)))
    &&& fits_i32(128 - div_toward_zero((v.1 >> 8i32) * 36, depth(v)))
}

fn project(v: Vec3) -> (r: PixelPos)
    requires
        project_fits(v.bits()),
    ensures
        r == projected(v.bits()),
{
    let zb = v.z.bits;
    assert(-0x80_0000 <= (zb >> 8i32) < 0x80_0000) by (bit_vector);
    let z0 = (zb >> 8i32) + CAMERA_Z;
    let z = if z0 < 1 {
        1
    } else {
        z0
    };
    let x = SCREEN_CENTER + (((v.x.bits >> 8i32) * PROJECTION_SCALE) / z);
    let y = SCREEN_CENTER - (((v.y.bits >> 8i32) * PROJECTION_SCALE) / z);
    let px = if x < 0 {
        0
    } else if x > 255 {
        255
    } else {
        x
    };
    let py = if y < 0 {
        0
    } else if y > 255 {
        255
    } else {
        y
    };
    PixelPos { x: px as u8, y: py as u8 }
}

/// The writes that draw the first `k` edges of the cube whose corners land
/// on `points`.
pub open spec fn cube_ops(points: Seq<PixelPos>, colour: Colour, k: nat) -> Seq<TermOp>
    decreases k,
{
    if k == 0 {
        Seq::empty()
    } else {
        let e = EDGES@[k - 1];
        cube_ops(points, colour, (k - 1) as nat) + line_ops(points[e.0 as int], points[e.1 as int], colour)
    }
}

/// Draws the twelve edges of the cube whose corners land on `points`.
pub fn draw_cube(terminal: &mut Terminal, points: [PixelPos; 8], colour: Colour)
    ensures
        final(terminal)@ == old(terminal)@ + cube_ops(points@, colour, 12),
{
    let mut i: usize = 0;
    assert(old(terminal)@ + cube_ops(points@, colour, 0) =~= old(terminal)@);
    while i < 12
        invariant
            i <= 12,
            terminal@ == old(terminal)@ + cube_ops(points@, colour, i as nat),
        decreases 12 - i,
    {
        let (a, b) = EDGES[i];
        assert(a < 8 && b < 8);
        draw_line(terminal, points[a], points[b], colour);
        i = i + 1;
        assert(terminal@ =~= old(terminal)@ + cube_ops(points@, colour, i as nat));
    }
}

/// Corner `i` of the cube, with eight fractional bits per coordinate.
pub open spec fn cube_corner(i: int) -> (i32, i32, i32) {
    (
        if i % 2 == 1 {
            5120i32
        } else {
            -5120i32
        },
        if (i / 2) % 2 == 1 {
            5120i32
        } else {
            -5120i32
        },
        if i / 4 == 1 {
            5120i32
        } else {
            -5120i32
        },
    )
}

/// Where corner `i` of the cube lands on the screen in frame `angle`: turned
/// about y by `angle` and about x by half of three times `angle`, then
/// projected.
pub open spec fn frame_point(angle: usize, i: int) -> PixelPos {
    let a2 = (angle.wrapping_mul(3) / 2) as usize;
    projected(
        turn_x(
            turn_y(cube_corner(i), sine_bits(angle), cosine_bits(angle)),
            sine_bits(a2),
            cosine_bits(a2),
        ),
    )
}

/// Where corner `i` of the cube is in frame `angle`, before projection:
/// turned about y by `angle`, then about x by half of three times `angle`.
pub open spec fn frame_corner(angle: usize, i: int) -> (i32, i32, i32) {
    let a2 = (angle.wrapping_mul(3) / 2) as usize;
    let about_y = turn_y(cube_corner(i), sine_bits(angle), cosine_bits(angle));
    turn_x(about_y, sine_bits(a2), cosine_bits(a2))
}

/// Where the eight corners of the cube land in frame `angle`.
pub open spec fn frame_points(angle: usize) -> Seq<PixelPos> {
    Seq::new(8, |i: int| frame_point(angle, i))
}

/// The cube's corners stay within `i32` through both turns and the
/// projection, with room to spare.
pub proof fn lemma_corner_fits(v: (i32, i32, i32), sy: i32, cy: i32, sx: i32, cx: i32)
    requires
        -5120 <= v.0 <= 5120,
        -5120 <= v.1 <= 5120,
        -5120 <= v.2 <= 5120,
        -256 <= sy <= 256,
        -256 <= cy <= 256,
        -256 <= sx <= 256,
        -256 <= cx <= 256,
    ensures
        turn_y_fits(v, sy, cy),
        turn_x_fits(turn_y(v, sy, cy), sx, cx),
        project_fits(turn_x(turn_y(v, sy, cy), sx, cx)),
{
    lemma_mul_bits_bound(v.0, cy, 5120);
    lemma_mul_bits_bound(v.2, sy, 5120);
    lemma_mul_bits_bound(v.2, cy, 5120);
    lemma_mul_bits_bound(v.0, sy, 5120);
    let w = turn_y(v, sy, cy);
    lemma_mul_bits_bound(w.1, cx, 10240);
    lemma_mul_bits_bound(w.2, sx, 10240);
    lemma_mul_bits_bound(w.1, sx, 10240);
    lemma_mul_bits_bound(w.2, cx, 10240);
    let u = turn_x(w, sx, cx);
    let (x, y) = (u.0, u.1);
    assert(-40 <= (x >> 8i32) <= 40 && -80 <= (y >> 8i32) <= 80) by (bit_vector)
        requires
            -10240 <= x <= 10240,
            -20480 <= y <= 20480,
    ;
    let d = depth(u);
    assert(d >= 1);
    let nx = (x >> 8i32) * 36;
    let ny = (y >> 8i32) * 36;
    assert(-2880 <= div_toward_zero(nx as int, d) <= 2880) by {
        if nx >= 0 {
            assert(nx as int / d <= nx as int) by (nonlinear_arith)
                requires
                    nx >= 0,
                    d >= 1,
            ;
        } else {
            assert((-nx) as int / d <= -nx) by (nonlinear_arith)
                requires
                    nx < 0,
                    d >= 1,
            ;
        }
    }
    assert(-2880 <= div_toward_zero(ny as int, d) <= 2880) by {
        if ny >= 0 {
            assert(ny as int / d <= ny as int) by (nonlinear_arith)
                requires
                    ny >= 0,
                    d >= 1,
            ;
        } else {
            assert((-ny) as int / d <= -ny) by (nonlinear_arith)
                requires
                    ny < 0,
                    d >= 1,
            ;
        }
    }
}

/// Draws one frame of the spinning cube: clears the screen, then draws the
/// cube turned for frame `angle` in colour 11.
pub fn draw_frame(terminal: &mut Terminal, angle: usize)
    ensures
        final(terminal)@ == old(terminal)@ + cleared() + cube_ops(
            frame_points(angle),
            Colour::C11,
            12,
        ),
{
    let vertices = [
        Vec3::new(-CUBE_RADIUS, -CUBE_RADIUS, -CUBE_RADIUS),
        Vec3::new(CUBE_RADIUS, -CUBE_RADIUS, -CUBE_RADIUS),
        Vec3::new(-CUBE_RADIUS, CUBE_RADIUS, -CUBE_RADIUS),
        Vec3::new(CUBE_RADIUS, CUBE_RADIUS, -CUBE_RADIUS),
        Vec3::new(-CUBE_RADIUS, -CUBE_RADIUS, CUBE_RADIUS),
        Vec3::new(CUBE_RADIUS, -CUBE_RADIUS, CUBE_RADIUS),
        Vec3::new(-CUBE_RADIUS, CUBE_RADIUS, CUBE_RADIUS),
        Vec3::new(CUBE_RADIUS, CUBE_RADIUS, CUBE_RADIUS),
    ];
    proof {
        lemma_int_bits(20);
        lemma_int_bits(-20i32);
    }
    assert(forall|i: int| 0 <= i < 8 ==> (#[trigger] vertices@[i]).bits() == cube_corner(i));
    let sin_y = sin(angle);
    let cos_y = cos(angle);
    let a2 = angle.wrapping_mul(3) / 2;
    let sin_x = sin(a2);
    let cos_x = cos(a2);
    proof {
        lemma_sine_bounds(angle);
        lemma_sine_bounds(angle.wrapping_add(16));
        lemma_sine_bounds(a2);
        lemma_sine_bounds(a2.wrapping_add(16));
    }
    let mut projected_points = [PixelPos { x: 0, y: 0 }; 8];
    let mut i: usize = 0;
    while i < 8
        invariant
            i <= 8,
            vertices@.len() == 8,
            projected_points@.len() == 8,
            forall|k: int| 0 <= k < 8 ==> (#[trigger] vertices@[k]).bits() == cube_corner(k),
            sin_y.bits == sine_bits(angle),
            cos_y.bits == cosine_bits(angle),
            sin_x.bits == sine_bits(a2),
            cos_x.bits == cosine_bits(a2),
            a2 == (angle.wrapping_mul(3) / 2) as usize,
            -256 <= sin_y.bits <= 256,
            -256 <= cos_y.bits <= 256,
            -256 <= sin_x.bits <= 256,
            -256 <= cos_x.bits <= 256,
            forall|k: int| 0 <= k < i ==> #[trigger] projected_points@[k] == frame_point(angle, k),
        decreases 8 - i,
    {
        let v = vertices[i];
        proof {
            lemma_corner_fits(v.bits(), sin_y.bits, cos_y.bits, sin_x.bits, cos_x.bits);
        }
        let turned = rotate_x(rotate_y(v, sin_y, cos_y), sin_x, cos_x);
        projected_points[i] = project(turned);
        i = i + 1;
    }
    assert(projected_points@ =~= frame_points(angle));
    clear_screen(terminal);
    draw_cube(terminal, projected_points, Colour::C11);
}

} // verus!
