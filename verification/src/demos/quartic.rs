use vstd::prelude::*;

use crate::demos::numbers::{
    decimal_digits, decimal_value, lemma_decimal_digits, pow10, print_byte, print_u32_decimal,
};
use crate::demos::cube::{clamp_byte, div_toward_zero, draw_line as draw_segment, line_ops};
use crate::demos::{clear_screen, cleared};
use crate::fixed::{fits_i32, fixed_mul, fx_int, int_bits, lemma_mul_bits_floor, mul_bits, Fx};
use crate::mmio::term::{Colour, Pixel, PixelPos, TermOp, Terminal};
use crate::printer::{
    can_wrap, lemma_can_wrap_on_screen, lemma_print_concat, lemma_print_more,
    lemma_print_stays_on_screen, lemma_printed_concat, printed, wrapped, Printer, PrinterView,
};
use vstd::string::StringSliceAdditionalSpecFns;

verus! {

/// The product, held to the `i32` range (as `i32::saturating_mul`).
fn saturating_mul(a: i32, b: i32) -> (r: i32)
    ensures
        r == clamp_i32(a * b),
{
    match a.checked_mul(b) {
        Some(p) => p,
        None => {
            if (a < 0) == (b < 0) {
                assert(a * b >= 0) by (nonlinear_arith)
                    requires
                        (a < 0) == (b < 0),
                ;
                i32::MAX
            } else {
                assert(a * b <= 0) by (nonlinear_arith)
                    requires
                        (a < 0) != (b < 0),
                ;
                i32::MIN
            }
        },
    }
}

/// The sum, held to the `i32` range (as `i32::saturating_add`).
fn saturating_add(a: i32, b: i32) -> (r: i32)
    ensures
        r == clamp_i32(a + b),
{
    match a.checked_add(b) {
        Some(t) => t,
        None => {
            if b < 0 {
                i32::MIN
            } else {
                i32::MAX
            }
        },
    }
}

/// The magnitude, as a `u32` (as `i32::unsigned_abs`).
fn unsigned_abs(a: i32) -> (r: u32)
    ensures
        r == (if a < 0 {
            -a
        } else {
            a as int
        }),
{
    if a == i32::MIN {
        0x8000_0000u32
    } else if a < 0 {
        (-a) as u32
    } else {
        a as u32
    }
}

/// The value held to the `i32` range.
pub open spec fn clamp_i32(v: int) -> i32 {
    if v > i32::MAX {
        i32::MAX
    } else if v < i32::MIN {
        i32::MIN
    } else {
        v as i32
    }
}

/// The input is a prefix of a decimal integer: ASCII digits, with at most a
/// leading minus sign.
pub open spec fn is_i32_prefix(input: Seq<u8>) -> bool {
    forall|i: int|
        0 <= i < input.len() ==> (i == 0 && #[trigger] input[i] == 45) || (48 <= input[i] <= 57)
}

/// Whether `input` is a prefix of a decimal integer: digits, with at most a
/// leading minus sign. The empty input is one.
pub fn valid_i32_prefix(input: &[u8]) -> (r: bool)
    ensures
        r == is_i32_prefix(input@),
{
    if input.len() == 0 {
        return true;
    }
    let mut i: usize = 0;
    while i < input.len()
        invariant
            i <= input@.len(),
            forall|k: int|
                0 <= k < i ==> (k == 0 && #[trigger] input@[k] == 45) || (48 <= input@[k] <= 57),
        decreases input@.len() - i,
    {
        let byte = input[i];
        if byte == 45u8 && i == 0 {
        } else if 48u8 <= byte && byte <= 57u8 {
        } else {
            return false;
        }
        i = i + 1;
    }
    true
}

/// The magnitude read from decimal digits, each step held to the `i32`
/// range as saturating arithmetic does: ten times the value of all but the
/// last digit, plus the last digit's value (a byte's distance from `0`).
pub open spec fn saturating_value(digits: Seq<u8>) -> i32
    decreases digits.len(),
{
    if digits.len() == 0 {
        0
    } else {
        clamp_i32(
            clamp_i32(saturating_value(digits.drop_last()) * 10) + (digits.last() - 48),
        )
    }
}

/// The number `parse_i32` reads: a leading minus sign negates the
/// magnitude read from the rest.
pub open spec fn parsed_i32(input: Seq<u8>) -> i32 {
    if input.len() > 0 && input[0] == 45 {
        (-saturating_value(input.drop_first())) as i32
    } else {
        saturating_value(input)
    }
}

/// Every byte but a leading minus sign is at least the digit `0`.
pub open spec fn parse_i32_ok(input: Seq<u8>) -> bool {
    forall|i: int| 0 <= i < input.len() && !(i == 0 && input[i] == 45) ==> #[trigger] input[i] >= 48
}

proof fn lemma_saturating_value_nonneg(digits: Seq<u8>)
    requires
        forall|i: int| 0 <= i < digits.len() ==> #[trigger] digits[i] >= 48,
    ensures
        0 <= saturating_value(digits),
    decreases digits.len(),
{
    if digits.len() > 0 {
        lemma_saturating_value_nonneg(digits.drop_last());
    }
}

/// Reads a decimal integer: an optional leading minus sign, then digits.
/// The magnitude saturates at `i32::MAX`.
pub fn parse_i32(input: &[u8]) -> (r: i32)
    requires
        parse_i32_ok(input@),
    ensures
        r == parsed_i32(input@),
{
    let mut value: i32 = 0;
    let mut negative = false;
    let ghost digits = if input@.len() > 0 && input@[0] == 45 {
        input@.drop_first()
    } else {
        input@
    };
    let ghost skip: int = if input@.len() > 0 && input@[0] == 45 {
        1
    } else {
        0
    };
    let mut i: usize = 0;
    while i < input.len()
        invariant
            i <= input@.len(),
            parse_i32_ok(input@),
            digits == input@.skip(skip),
            skip == (if input@.len() > 0 && input@[0] == 45 {
                1int
            } else {
                0
            }),
            negative == (i > 0 && skip == 1),
            i >= skip || i == 0,
            value == saturating_value(digits.take(if i >= skip {
                i - skip
            } else {
                0
            })),
            0 <= value,
        decreases input@.len() - i,
    {
        let byte = input[i];
        if byte == 45u8 && i == 0 {
            negative = true;
        } else {
            let ghost n = i - skip;
            assert(digits.take(n + 1).drop_last() =~= digits.take(n));
            assert(digits.take(n + 1).last() == byte);
            value = saturating_add(saturating_mul(value, 10), (byte - 48u8) as i32);
        }
        i = i + 1;
        proof {
            let dd = digits.take(if i >= skip {
                i - skip
            } else {
                0
            });
            assert forall|k: int| 0 <= k < dd.len() implies #[trigger] dd[k] >= 48 by {
                assert(dd[k] == input@[k + skip]);
            }
            lemma_saturating_value_nonneg(dd);
        }
    }
    assert(digits.take(input@.len() - skip) =~= digits);
    if negative {
        -value
    } else {
        value
    }
}

/// The decimal numeral of `v`: a minus sign for negative numbers, then the
/// digits of the magnitude.
pub open spec fn signed_decimal(v: i32) -> Seq<u8> {
    if v < 0 {
        seq![45u8] + decimal_digits((-v) as nat)
    } else {
        decimal_digits(v as nat)
    }
}

/// Prints the decimal numeral of `value`.
pub fn print_i32_decimal(printer: &mut Printer, terminal: &mut Terminal, value: i32)
    requires
        old(printer)@.can_print(signed_decimal(value)),
    ensures
        final(printer)@ == old(printer)@.after_print(signed_decimal(value)),
        final(terminal)@ == old(terminal)@ + printed(signed_decimal(value)),
{
    if value < 0 {
        let ghost p0 = printer@;
        let ghost digits = decimal_digits((-value) as nat);
        proof {
            lemma_print_concat(p0, seq![45u8], digits);
            lemma_printed_concat(seq![45u8], digits);
            reveal_with_fuel(crate::printer::PrinterView::after_print, 2);
            reveal_with_fuel(crate::printer::PrinterView::can_print, 2);
        }
        print_byte(printer, terminal, 45u8);
        print_u32_decimal(printer, terminal, unsigned_abs(value));
    } else {
        print_u32_decimal(printer, terminal, value as u32);
    }
}

/// Reading back the decimal digits of `n` gives `n`, held to `i32::MAX`.
pub proof fn lemma_saturating_value_of_digits(n: nat)
    ensures
        saturating_value(decimal_digits(n)) == clamp_i32(n as int),
    decreases n,
{
    let d = decimal_digits(n);
    if n < 10 {
        assert(d.drop_last() =~= Seq::<u8>::empty());
        assert(saturating_value(d.drop_last()) == 0);
        assert(d.last() - 48 == n);
        assert(saturating_value(d) == clamp_i32(clamp_i32(0int) + n));
    } else {
        lemma_saturating_value_of_digits(n / 10);
        assert(d.drop_last() =~= decimal_digits(n / 10));
        assert(d.last() == (48 + n % 10) as u8);
        let q = n / 10;
        let r = n % 10;
        assert(n == 10 * q + r);
        assert(d.last() - 48 == r);
        let c = clamp_i32(q as int);
        assert(saturating_value(d) == clamp_i32(clamp_i32(c * 10) + r));
        if q > i32::MAX {
            assert(c == i32::MAX);
            assert(clamp_i32(c * 10) == i32::MAX);
        } else {
            assert(c == q);
            if 10 * q > i32::MAX {
                assert(clamp_i32(c * 10) == i32::MAX);
            } else {
                assert(clamp_i32(c * 10) == 10 * q);
            }
        }
    }
}

/// Every numeral that `print_i32_decimal` prints passes `valid_i32_prefix`,
/// and `parse_i32` reads it back as the number printed; `i32::MIN`, whose
/// magnitude saturates, reads back as `-i32::MAX`.
pub proof fn lemma_parse_printed(v: i32)
    ensures
        is_i32_prefix(signed_decimal(v)),
        parse_i32_ok(signed_decimal(v)),
        parsed_i32(signed_decimal(v)) == (if v == i32::MIN {
            -i32::MAX
        } else {
            v as int
        }),
{
    let m: nat = if v < 0 {
        (-v) as nat
    } else {
        v as nat
    };
    reveal_with_fuel(pow10, 11);
    assert(m < pow10(10));
    lemma_decimal_digits(m, 10);
    lemma_saturating_value_of_digits(m);
    let digits = decimal_digits(m);
    let s = signed_decimal(v);
    if v < 0 {
        assert(s.drop_first() =~= digits);
        assert forall|i: int| 0 <= i < s.len() implies (i == 0 && #[trigger] s[i] == 45) || (48
            <= s[i] <= 57) by {
            if i > 0 {
                assert(s[i] == digits[i - 1]);
            }
        }
    } else {
        assert(digits[0] >= 48);
    }
}

const SCREEN_MIN: i32 = 0;

const SCREEN_MAX: i32 = 255;

const X_MAX: i32 = 8;

const X_MIN: i32 = -8;

const Y_MAX: i32 = 12;

const Y_MIN: i32 = -8;

/// The underlying integer of the graph's x at screen column `screen_x`: the
/// columns 0..=255 spread evenly over -8..=8 (eight fractional bits).
pub open spec fn graph_x_bits(screen_x: int) -> i32 {
    (-2048 + (screen_x * 4096) / 255) as i32
}

/// The screen row of the graph's y, given by its underlying integer: -8..=12
/// spread over the rows 255..=0 (rounding toward zero).
pub open spec fn screen_row(y: i32) -> int {
    255 - div_toward_zero((y + 2048) * 255, 5120)
}

/// The polynomial `a x^4 + b x^3 + c x^2 + d x + e` at `x`, evaluated in
/// Horner's form with eight fractional bits per step, as underlying
/// integers.
pub open spec fn curve_y(a: i32, b: i32, c: i32, d: i32, e: i32, x: i32) -> i32 {
    let t2 = (mul_bits(a, x) + b) as i32;
    let t4 = (mul_bits(t2, x) + c) as i32;
    let t6 = (mul_bits(t4, x) + d) as i32;
    (mul_bits(t6, x) + e) as i32
}

/// Every step of evaluating the polynomial at `x`, and of placing the
/// result on the screen, stays within `i32`.
pub open spec fn curve_fits(a: i32, b: i32, c: i32, d: i32, e: i32, x: i32) -> bool {
    let t2 = (mul_bits(a, x) + b) as i32;
    let t4 = (mul_bits(t2, x) + c) as i32;
    let t6 = (mul_bits(t4, x) + d) as i32;
    let y = curve_y(a, b, c, d, e, x);
    &&& fits_i32(a * x)
    &&& fits_i32(mul_bits(a, x) + b)
    &&& fits_i32(t2 * x)
    &&& fits_i32(mul_bits(t2, x) + c)
    &&& fits_i32(t4 * x)
    &&& fits_i32(mul_bits(t4, x) + d)
    &&& fits_i32(t6 * x)
    &&& fits_i32(mul_bits(t6, x) + e)
    &&& fits_i32(y + 2048)
    &&& fits_i32((y + 2048) * 255)
}

/// The graph can be plotted without leaving `i32` in any column.
pub open spec fn plot_fits(a: i32, b: i32, c: i32, d: i32, e: i32) -> bool {
    forall|sx: int| 0 <= sx <= 255 ==> #[trigger] curve_fits(a, b, c, d, e, graph_x_bits(sx))
}

/// The graph's point in screen column `screen_x`, held to the screen.
pub open spec fn curve_point(a: i32, b: i32, c: i32, d: i32, e: i32, screen_x: int) -> PixelPos {
    PixelPos {
        x: screen_x as u8,
        y: clamp_byte(screen_row(curve_y(a, b, c, d, e, graph_x_bits(screen_x)))),
    }
}

/// The writes that plot the graph up to screen column `k`: the first point,
/// then a line from each point to the next, in colour 10.
pub open spec fn curve_ops(a: i32, b: i32, c: i32, d: i32, e: i32, k: nat) -> Seq<TermOp>
    decreases k,
{
    if k == 0 {
        seq![TermOp::Plotpix(Pixel { pos: curve_point(a, b, c, d, e, 0), color: Colour::C10 })]
    } else {
        curve_ops(a, b, c, d, e, (k - 1) as nat) + line_ops(
            curve_point(a, b, c, d, e, k - 1),
            curve_point(a, b, c, d, e, k as int),
            Colour::C10,
        )
    }
}

/// The writes that draw both axes in colour 8: the x axis along row 153
/// and the y axis along column 127, where the graph's zero lands.
pub open spec fn axes_ops() -> Seq<TermOp> {
    line_ops(PixelPos { x: 0, y: 153 }, PixelPos { x: 255, y: 153 }, Colour::C8) + line_ops(
        PixelPos { x: 127, y: 0 },
        PixelPos { x: 127, y: 255 },
        Colour::C8,
    )
}

fn to_screen(v: i32) -> (r: u8)
    ensures
        r == clamp_byte(v as int),
{
    let held = if v < SCREEN_MIN {
        SCREEN_MIN
    } else if v > SCREEN_MAX {
        SCREEN_MAX
    } else {
        v
    };
    held as u8
}

fn screen_x_to_graph_x(screen_x: u8) -> (r: Fx)
    ensures
        r.bits == graph_x_bits(screen_x as int),
{
    let range = X_MAX - X_MIN;
    let sx = screen_x as i32;
    assert((X_MIN << 8i32) == -2048i32) by (bit_vector)
        requires
            X_MIN == -8i32,
    ;
    let scaled = sx * range;
    assert((scaled << 8i32) == scaled * 256) by (bit_vector)
        requires
            0 <= scaled <= 4080,
    ;
    Fx { bits: (X_MIN << 8i32) + ((scaled << 8i32) / SCREEN_MAX) }
}

fn graph_x_to_screen_x(x: Fx) -> (r: i32)
    requires
        fits_i32(x.bits + 2048),
        fits_i32((x.bits + 2048) * 255),
    ensures
        r == div_toward_zero((x.bits + 2048) * 255, 4096),
{
    assert((X_MIN << 8i32) == -2048i32) by (bit_vector)
        requires
            X_MIN == -8i32,
    ;
    let span = X_MAX - X_MIN;
    assert((span << 8i32) == 4096i32) by (bit_vector)
        requires
            span == 16i32,
    ;
    ((x.bits - (X_MIN << 8i32)) * SCREEN_MAX) / (span << 8i32)
}

fn graph_y_to_screen_y(y: Fx) -> (r: i32)
    requires
        fits_i32(y.bits + 2048),
        fits_i32((y.bits + 2048) * 255),
    ensures
        r == screen_row(y.bits),
{
    assert((Y_MIN << 8i32) == -2048i32) by (bit_vector)
        requires
            Y_MIN == -8i32,
    ;
    let span = Y_MAX - Y_MIN;
    assert((span << 8i32) == 5120i32) by (bit_vector)
        requires
            span == 20i32,
    ;
    let q = ((y.bits - (Y_MIN << 8i32)) * SCREEN_MAX) / (span << 8i32);
    assert(-420000 <= q <= 420000) by (nonlinear_arith)
        requires
            q == div_toward_zero((y.bits + 2048) * 255, 5120),
            fits_i32((y.bits + 2048) * 255),
    ;
    SCREEN_MAX - q
}

fn plot_pixel(terminal: &mut Terminal, x: u8, y: u8, colour: Colour)
    ensures
        final(terminal)@ == old(terminal)@.push(
            TermOp::Plotpix(Pixel { pos: PixelPos { x, y }, color: colour }),
        ),
{
    terminal.plotpix(Pixel { pos: PixelPos { x, y }, color: colour });
}

fn draw_line(terminal: &mut Terminal, start: PixelPos, end: PixelPos, colour: Colour)
    ensures
        final(terminal)@ == old(terminal)@ + line_ops(start, end, colour),
{
    draw_segment(terminal, start, end, colour);
}

/// Draws the x and y axes through the graph's zero.
fn draw_axes(terminal: &mut Terminal)
    ensures
        final(terminal)@ == old(terminal)@ + axes_ops(),
{
    let zero = fx_int(0);
    assert(zero.bits == 0) by {
        assert((0i32 << 8i32) == 0i32) by (bit_vector);
    }
    let x_axis_y = to_screen(graph_y_to_screen_y(zero));
    let y_axis_x = to_screen(graph_x_to_screen_x(zero));
    assert(x_axis_y == 153 && y_axis_x == 127);
    draw_line(
        terminal,
        PixelPos { x: SCREEN_MIN as u8, y: x_axis_y },
        PixelPos { x: SCREEN_MAX as u8, y: x_axis_y },
        Colour::C8,
    );
    draw_line(
        terminal,
        PixelPos { x: y_axis_x, y: SCREEN_MIN as u8 },
        PixelPos { x: y_axis_x, y: SCREEN_MAX as u8 },
        Colour::C8,
    );
    assert(terminal@ =~= old(terminal)@ + axes_ops());
}

/// Plots the graph of `a x^4 + b x^3 + c x^2 + d x + e` across the screen,
/// joining the points of neighbouring columns with lines.
fn plot_quartic(terminal: &mut Terminal, a: Fx, b: Fx, c: Fx, d: Fx, e: Fx)
    requires
        plot_fits(a.bits, b.bits, c.bits, d.bits, e.bits),
    ensures
        final(terminal)@ == old(terminal)@ + curve_ops(a.bits, b.bits, c.bits, d.bits, e.bits, 255),
{
    let ghost (ab, bb, cb, db, eb) = (a.bits, b.bits, c.bits, d.bits, e.bits);
    let mut previous: Option<PixelPos> = None;
    let mut screen_x: u16 = 0;
    while screen_x <= 255
        invariant
            screen_x <= 256,
            plot_fits(ab, bb, cb, db, eb),
            ab == a.bits && bb == b.bits && cb == c.bits && db == d.bits && eb == e.bits,
            screen_x == 0 ==> previous is None && terminal@ == old(terminal)@,
            screen_x > 0 ==> previous == Some(curve_point(ab, bb, cb, db, eb, screen_x - 1))
                && terminal@ == old(terminal)@ + curve_ops(
                ab,
                bb,
                cb,
                db,
                eb,
                (screen_x - 1) as nat,
            ),
        decreases 256 - screen_x,
    {
        let x = screen_x_to_graph_x(screen_x as u8);
        assert(curve_fits(ab, bb, cb, db, eb, graph_x_bits(screen_x as int)));
        let y = fixed_mul(fixed_mul(fixed_mul(fixed_mul(a, x).add(b), x).add(c), x).add(d), x).add(e);
        let row = to_screen(graph_y_to_screen_y(y));
        let point = PixelPos { x: screen_x as u8, y: row };
        assert(point == curve_point(ab, bb, cb, db, eb, screen_x as int));
        match previous {
            Some(start) => {
                draw_line(terminal, start, point, Colour::C10);
            },
            None => {
                plot_pixel(terminal, point.x, point.y, Colour::C10);
            },
        }
        previous = Some(point);
        screen_x = screen_x + 1;
        assert(terminal@ =~= old(terminal)@ + curve_ops(ab, bb, cb, db, eb, (screen_x - 1) as nat));
    }
}

/// Clears the screen, then draws the axes and the graph of
/// `a x^4 + b x^3 + c x^2 + d x + e` for the whole-number coefficients
/// given.
pub fn draw_graph(terminal: &mut Terminal, a: i32, b: i32, c: i32, d: i32, e: i32)
    requires
        plot_fits(int_bits(a), int_bits(b), int_bits(c), int_bits(d), int_bits(e)),
    ensures
        final(terminal)@ == old(terminal)@ + cleared() + axes_ops() + curve_ops(
            int_bits(a),
            int_bits(b),
            int_bits(c),
            int_bits(d),
            int_bits(e),
            255,
        ),
{
    clear_screen(terminal);
    draw_axes(terminal);
    plot_quartic(terminal, fx_int(a), fx_int(b), fx_int(c), fx_int(d), fx_int(e));
}

fn curve_fits_at(a: i32, b: i32, c: i32, d: i32, e: i32, x: i32) -> (r: bool)
    ensures
        r == curve_fits(a, b, c, d, e, x),
{
    let p1 = match a.checked_mul(x) {
        Some(p) => p,
        None => return false,
    };
    let t2 = match (p1 >> 8i32).checked_add(b) {
        Some(t) => t,
        None => return false,
    };
    let p3 = match t2.checked_mul(x) {
        Some(p) => p,
        None => return false,
    };
    let t4 = match (p3 >> 8i32).checked_add(c) {
        Some(t) => t,
        None => return false,
    };
    let p5 = match t4.checked_mul(x) {
        Some(p) => p,
        None => return false,
    };
    let t6 = match (p5 >> 8i32).checked_add(d) {
        Some(t) => t,
        None => return false,
    };
    let p7 = match t6.checked_mul(x) {
        Some(p) => p,
        None => return false,
    };
    let y = match (p7 >> 8i32).checked_add(e) {
        Some(t) => t,
        None => return false,
    };
    let y2 = match y.checked_add(2048) {
        Some(t) => t,
        None => return false,
    };
    match y2.checked_mul(255) {
        Some(_) => true,
        None => false,
    }
}

/// Whether the graph of `a x^4 + b x^3 + c x^2 + d x + e` for these
/// whole-number coefficients can be plotted without leaving `i32`.
pub fn graph_fits(a: i32, b: i32, c: i32, d: i32, e: i32) -> (r: bool)
    ensures
        r == plot_fits(int_bits(a), int_bits(b), int_bits(c), int_bits(d), int_bits(e)),
{
    let ab = fx_int(a).bits;
    let bb = fx_int(b).bits;
    let cb = fx_int(c).bits;
    let db = fx_int(d).bits;
    let eb = fx_int(e).bits;
    let mut screen_x: u16 = 0;
    while screen_x <= 255
        invariant
            screen_x <= 256,
            ab == int_bits(a) && bb == int_bits(b) && cb == int_bits(c) && db == int_bits(d) && eb
                == int_bits(e),
            forall|k: int|
                0 <= k < screen_x ==> #[trigger] curve_fits(ab, bb, cb, db, eb, graph_x_bits(k)),
        decreases 256 - screen_x,
    {
        let x = screen_x_to_graph_x(screen_x as u8).bits;
        if !curve_fits_at(ab, bb, cb, db, eb, x) {
            return false;
        }
        screen_x = screen_x + 1;
    }
    true
}

/// The text the plotter shows before asking for coefficients; the last
/// line, `intro_note`, is printed word-wrapped after it.
pub open spec fn intro_text() -> Seq<u8> {
    "quartic plotter\n".spec_bytes() + "\ny = ax^4 + bx^3 + cx^2 + dx + e\n\n".spec_bytes()
        + "plot bounds:\n".spec_bytes() + "x: ".spec_bytes() + signed_decimal(-8i32)
        + " to ".spec_bytes() + signed_decimal(8i32) + "\ny: ".spec_bytes() + signed_decimal(
        -8i32,
    ) + " to ".spec_bytes() + signed_decimal(12i32) + "\n\n".spec_bytes()
        + "press any key after plotted\n\n".spec_bytes()
}

/// The closing note of the plotter's introduction.
pub open spec fn intro_note() -> Seq<u8> {
    "out of bounds y will be shown for progress\n\n".spec_bytes()
}

/// The printer once the introduction's main text is printed.
pub open spec fn after_intro_text(p: PrinterView) -> PrinterView {
    p.after_clear().after_print(intro_text())
}

/// Clears the text area and shows the plotter's introduction: the formula,
/// the plot bounds, and how to go on.
pub fn print_intro(printer: &mut Printer, terminal: &mut Terminal)
    requires
        old(printer)@.after_clear().can_print(intro_text()),
        can_wrap(after_intro_text(old(printer)@), intro_note()),
    ensures
        final(printer)@ == wrapped(after_intro_text(old(printer)@), intro_note()).printer,
        old(printer)@.on_screen() ==> final(printer)@.on_screen(),
        final(terminal)@ == old(terminal)@ + old(printer)@.clear_ops() + printed(intro_text())
            + printed(wrapped(after_intro_text(old(printer)@), intro_note()).out),
{
    printer.clear(terminal);
    let ghost p1 = printer@;
    let ghost x1 = "quartic plotter\n".spec_bytes();
    let ghost x2 = "\ny = ax^4 + bx^3 + cx^2 + dx + e\n\n".spec_bytes();
    let ghost x3 = "plot bounds:\n".spec_bytes();
    let ghost x4 = "x: ".spec_bytes();
    let ghost x5 = signed_decimal(X_MIN);
    let ghost x6 = " to ".spec_bytes();
    let ghost x7 = signed_decimal(X_MAX);
    let ghost x8 = "\ny: ".spec_bytes();
    let ghost x9 = signed_decimal(Y_MIN);
    let ghost x10 = " to ".spec_bytes();
    let ghost x11 = signed_decimal(Y_MAX);
    let ghost x12 = "\n\n".spec_bytes();
    let ghost x13 = "press any key after plotted\n\n".spec_bytes();
    let ghost d1 = x1;
    let ghost d2 = d1 + x2;
    let ghost d3 = d2 + x3;
    let ghost d4 = d3 + x4;
    let ghost d5 = d4 + x5;
    let ghost d6 = d5 + x6;
    let ghost d7 = d6 + x7;
    let ghost d8 = d7 + x8;
    let ghost d9 = d8 + x9;
    let ghost d10 = d9 + x10;
    let ghost d11 = d10 + x11;
    let ghost d12 = d11 + x12;
    let ghost d13 = d12 + x13;
    assert(d13 == intro_text());
    proof {
        lemma_print_more(p1, d12, x13);
        lemma_print_more(p1, d11, x12);
        lemma_print_more(p1, d10, x11);
        lemma_print_more(p1, d9, x10);
        lemma_print_more(p1, d8, x9);
        lemma_print_more(p1, d7, x8);
        lemma_print_more(p1, d6, x7);
        lemma_print_more(p1, d5, x6);
        lemma_print_more(p1, d4, x5);
        lemma_print_more(p1, d3, x4);
        lemma_print_more(p1, d2, x3);
        lemma_print_more(p1, d1, x2);
        if old(printer)@.on_screen() {
            lemma_print_stays_on_screen(p1, intro_text());
            lemma_can_wrap_on_screen(after_intro_text(old(printer)@), intro_note());
        }
    }
    printer.print(terminal, "quartic plotter\n");
    printer.print(terminal, "\ny = ax^4 + bx^3 + cx^2 + dx + e\n\n");
    printer.print(terminal, "plot bounds:\n");
    printer.print(terminal, "x: ");
    print_i32_decimal(printer, terminal, X_MIN);
    printer.print(terminal, " to ");
    print_i32_decimal(printer, terminal, X_MAX);
    printer.print(terminal, "\ny: ");
    print_i32_decimal(printer, terminal, Y_MIN);
    printer.print(terminal, " to ");
    print_i32_decimal(printer, terminal, Y_MAX);
    printer.print(terminal, "\n\n");
    printer.print(terminal, "press any key after plotted\n\n");
    printer.print_with_breaks(terminal, "out of bounds y will be shown for progress\n\n");
}

/// The polynomial `a X^4 + b X^3 + c X^2 + d X + e` at `X`, where the
/// coefficients and `X` are numbers with eight fractional bits given by
/// their underlying integers, as an underlying integer scaled up by
/// `2^32` (so that it is exact).
pub open spec fn quartic_value(a: int, b: int, c: int, d: int, e: int, x: int) -> int {
    a * (x * x * x * x) + 256 * b * (x * x * x) + 65536 * c * (x * x) + 16777216 * d * x
        + 4294967296 * e
}

/// The most that rounding each of the four products down can lose at `x`,
/// on the scale of `quartic_value`.
pub open spec fn quartic_slack(x: int) -> int {
    let m = if x < 0 {
        -x
    } else {
        x
    };
    256 * (m * m * m) + 65536 * (m * m) + 16777216 * m + 4294967296
}

/// The graph's value in each column is the polynomial
/// `a x^4 + b x^3 + c x^2 + d x + e` at that column's x, up to the
/// rounding of fixed-point arithmetic.
pub proof fn lemma_curve_is_the_polynomial(a: i32, b: i32, c: i32, d: i32, e: i32, x: i32)
    requires
        curve_fits(a, b, c, d, e, x),
    ensures
        -quartic_slack(x as int) <= 4294967296 * curve_y(a, b, c, d, e, x) - quartic_value(
            a as int,
            b as int,
            c as int,
            d as int,
            e as int,
            x as int,
        ) <= quartic_slack(x as int),
{
    let t2 = (mul_bits(a, x) + b) as i32;
    let t4 = (mul_bits(t2, x) + c) as i32;
    let t6 = (mul_bits(t4, x) + d) as i32;
    let y = curve_y(a, b, c, d, e, x);
    lemma_mul_bits_floor(a, x);
    lemma_mul_bits_floor(t2, x);
    lemma_mul_bits_floor(t4, x);
    lemma_mul_bits_floor(t6, x);
    let (xi, ai, bi, ci, di, ei) = (x as int, a as int, b as int, c as int, d as int, e as int);
    let r1 = ai * xi - 256 * mul_bits(a, x);
    let r2 = t2 * xi - 256 * mul_bits(t2, x);
    let r3 = t4 * xi - 256 * mul_bits(t4, x);
    let r4 = t6 * xi - 256 * mul_bits(t6, x);
    assert(0 <= r1 < 256 && 0 <= r2 < 256 && 0 <= r3 < 256 && 0 <= r4 < 256);
    assert(t2 == mul_bits(a, x) + b && t4 == mul_bits(t2, x) + c && t6 == mul_bits(t4, x) + d);
    assert(y == mul_bits(t6, x) + e);
    let x2 = xi * xi;
    let x3 = xi * xi * xi;
    let x4 = xi * xi * xi * xi;
    // Unfold Horner's form one step at a time.
    assert(256 * y == t6 * xi - r4 + 256 * ei);
    assert(256 * t6 == t4 * xi - r3 + 256 * di);
    assert(256 * t4 == t2 * xi - r2 + 256 * ci);
    assert(256 * t2 == ai * xi - r1 + 256 * bi);
    assert(65536 * y == t4 * x2 - r3 * xi + 256 * di * xi - 256 * r4 + 65536 * ei)
        by (nonlinear_arith)
        requires
            256 * y == t6 * xi - r4 + 256 * ei,
            256 * t6 == t4 * xi - r3 + 256 * di,
            x2 == xi * xi,
    ;
    assert(16777216 * y == t2 * x3 - r2 * x2 + 256 * ci * x2 - 256 * r3 * xi + 65536 * di * xi
        - 65536 * r4 + 16777216 * ei) by (nonlinear_arith)
        requires
            65536 * y == t4 * x2 - r3 * xi + 256 * di * xi - 256 * r4 + 65536 * ei,
            256 * t4 == t2 * xi - r2 + 256 * ci,
            x2 == xi * xi,
            x3 == xi * xi * xi,
    ;
    let p = t2 * x3;
    assert(256 * p == ai * x4 - r1 * x3 + 256 * (bi * x3)) by (nonlinear_arith)
        requires
            256 * t2 == ai * xi - r1 + 256 * bi,
            p == t2 * x3,
            x3 == xi * xi * xi,
            x4 == xi * xi * xi * xi,
    ;
    assert(4294967296 * y == ai * x4 - r1 * x3 + 256 * (bi * x3) - 256 * (r2 * x2) + 65536 * (ci
        * x2) - 65536 * (r3 * xi) + 16777216 * (di * xi) - 16777216 * r4 + 4294967296 * ei)
        by (nonlinear_arith)
        requires
            16777216 * y == p - r2 * x2 + 256 * ci * x2 - 256 * r3 * xi + 65536 * di * xi - 65536
                * r4 + 16777216 * ei,
            256 * p == ai * x4 - r1 * x3 + 256 * (bi * x3),
    ;
    let m = if xi < 0 {
        -xi
    } else {
        xi
    };
    assert(-256 * (m * m * m) <= r1 * x3 <= 256 * (m * m * m)) by (nonlinear_arith)
        requires
            0 <= r1 < 256,
            x3 == xi * xi * xi,
            m == (if xi < 0 {
                -xi
            } else {
                xi
            }),
    ;
    assert(0 <= r2 * x2 <= 256 * (m * m)) by (nonlinear_arith)
        requires
            0 <= r2 < 256,
            x2 == xi * xi,
            m == (if xi < 0 {
                -xi
            } else {
                xi
            }),
    ;
    assert(-256 * m <= r3 * xi <= 256 * m) by (nonlinear_arith)
        requires
            0 <= r3 < 256,
            m == (if xi < 0 {
                -xi
            } else {
                xi
            }),
    ;
    assert(quartic_value(ai, bi, ci, di, ei, xi) == ai * x4 + 256 * (bi * x3) + 65536 * (ci * x2)
        + 16777216 * (di * xi) + 4294967296 * ei) by (nonlinear_arith)
        requires
            x2 == xi * xi,
            x3 == xi * xi * xi,
            x4 == xi * xi * xi * xi,
    ;
}

/// Rounding toward zero keeps the order of the numbers divided.
proof fn lemma_div_toward_zero_monotone(n1: int, n2: int, d: int)
    requires
        n1 <= n2,
        d > 0,
    ensures
        div_toward_zero(n1, d) <= div_toward_zero(n2, d),
{
    if n1 >= 0 {
        assert(n1 / d <= n2 / d) by (nonlinear_arith)
            requires
                0 <= n1 <= n2,
                d > 0,
        ;
    } else if n2 >= 0 {
        assert(0 <= (-n1) / d) by (nonlinear_arith)
            requires
                n1 < 0,
                d > 0,
        ;
        assert(0 <= n2 / d) by (nonlinear_arith)
            requires
                n2 >= 0,
                d > 0,
        ;
    } else {
        assert((-n2) / d <= (-n1) / d) by (nonlinear_arith)
            requires
                0 < -n2 <= -n1,
                d > 0,
        ;
    }
}

/// Each point of the graph is in its own column, in the graph's row for
/// its value held to the screen: a value above the plot is drawn in the
/// top row and one below it in the bottom row.
pub proof fn lemma_curve_point_on_screen(a: i32, b: i32, c: i32, d: i32, e: i32, screen_x: int)
    requires
        0 <= screen_x <= 255,
    ensures
        curve_point(a, b, c, d, e, screen_x).x == screen_x,
        screen_row(curve_y(a, b, c, d, e, graph_x_bits(screen_x))) < 0 ==> curve_point(
            a,
            b,
            c,
            d,
            e,
            screen_x,
        ).y == 0,
        screen_row(curve_y(a, b, c, d, e, graph_x_bits(screen_x))) > 255 ==> curve_point(
            a,
            b,
            c,
            d,
            e,
            screen_x,
        ).y == 255,
        0 <= screen_row(curve_y(a, b, c, d, e, graph_x_bits(screen_x))) <= 255 ==> curve_point(
            a,
            b,
            c,
            d,
            e,
            screen_x,
        ).y == screen_row(curve_y(a, b, c, d, e, graph_x_bits(screen_x))),
{
}

/// Higher values of the graph are drawn no lower on the screen: between
/// any two columns, the one with the larger value has the smaller (or the
/// same) row.
pub proof fn lemma_curve_rows_follow_values(
    a: i32,
    b: i32,
    c: i32,
    d: i32,
    e: i32,
    sx1: int,
    sx2: int,
)
    requires
        0 <= sx1 <= 255,
        0 <= sx2 <= 255,
        curve_y(a, b, c, d, e, graph_x_bits(sx1)) <= curve_y(a, b, c, d, e, graph_x_bits(sx2)),
    ensures
        curve_point(a, b, c, d, e, sx1).y >= curve_point(a, b, c, d, e, sx2).y,
{
    let y1 = curve_y(a, b, c, d, e, graph_x_bits(sx1));
    let y2 = curve_y(a, b, c, d, e, graph_x_bits(sx2));
    lemma_div_toward_zero_monotone((y1 + 2048) * 255, (y2 + 2048) * 255, 5120);
    assert(screen_row(y1) >= screen_row(y2));
}

/// Reading decimal digits one at a time with saturating arithmetic gives
/// the number they stand for, held to `i32::MAX`.
proof fn lemma_saturating_value_is_clamped(digits: Seq<u8>)
    requires
        forall|i: int| 0 <= i < digits.len() ==> 48 <= #[trigger] digits[i] <= 57,
    ensures
        saturating_value(digits) == clamp_i32(decimal_value(digits) as int),
    decreases digits.len(),
{
    if digits.len() > 0 {
        let init = digits.drop_last();
        lemma_saturating_value_is_clamped(init);
        let n = decimal_value(init);
        let k = (digits.last() - 48) as int;
        assert(0 <= k <= 9);
        assert(decimal_value(digits) == 10 * n + k);
        let cn = clamp_i32(n as int);
        if n > i32::MAX {
            assert(clamp_i32(cn * 10) == i32::MAX);
        } else if 10 * n > i32::MAX {
            assert(clamp_i32(cn * 10) == i32::MAX);
        } else {
            assert(clamp_i32(cn * 10) == 10 * n);
        }
    }
}

/// Every line that the input check accepts is read by `parse_i32` as the
/// integer it spells: the number its digits stand for (held to
/// `i32::MAX`), negated after a leading minus sign.
pub proof fn lemma_accepted_lines_parse(s: Seq<u8>)
    requires
        is_i32_prefix(s),
    ensures
        parse_i32_ok(s),
        parsed_i32(s) == (if s.len() > 0 && s[0] == 45 {
            -clamp_i32(decimal_value(s.drop_first()) as int)
        } else {
            clamp_i32(decimal_value(s) as int) as int
        }),
{
    if s.len() > 0 && s[0] == 45 {
        let rest = s.drop_first();
        assert forall|i: int| 0 <= i < rest.len() implies 48 <= #[trigger] rest[i] <= 57 by {
            assert(rest[i] == s[i + 1]);
        }
        lemma_saturating_value_is_clamped(rest);
    } else {
        lemma_saturating_value_is_clamped(s);
    }
}

/// A line with any byte other than a digit, or a minus sign in front, is
/// refused by the input check.
pub proof fn lemma_other_bytes_refused(s: Seq<u8>, i: int)
    requires
        0 <= i < s.len(),
        !(48 <= s[i] <= 57),
        !(i == 0 && s[i] == 45),
    ensures
        !is_i32_prefix(s),
{
}

} // verus!
