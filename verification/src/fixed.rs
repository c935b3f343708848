use vstd::prelude::*;

use fix::typenum::consts::{N8, U2};
use fix::Fix;

verus! {

/// The value fits an `i32`.
pub open spec fn fits_i32(v: int) -> bool {
    i32::MIN <= v <= i32::MAX
}

/// `fix::Fix` addition on numbers with eight fractional bits, given by their
/// underlying integers. `Fix`'s `Add` adds the underlying integers; that sum
/// must fit an `i32`, as `i32` addition panics otherwise.
#[verifier::external_body]
fn fix_add_bits(a: i32, b: i32) -> (r: i32)
    requires
        fits_i32(a + b),
    ensures
        r == a + b,
{
    (Fix::<i32, U2, N8>::new(a) + Fix::<i32, U2, N8>::new(b)).bits
}

/// `fix::Fix` subtraction on numbers with eight fractional bits, given by
/// their underlying integers. `Fix`'s `Sub` subtracts the underlying
/// integers; that difference must fit an `i32`, as `i32` subtraction panics
/// otherwise.
#[verifier::external_body]
fn fix_sub_bits(a: i32, b: i32) -> (r: i32)
    requires
        fits_i32(a - b),
    ensures
        r == a - b,
{
    (Fix::<i32, U2, N8>::new(a) - Fix::<i32, U2, N8>::new(b)).bits
}

/// A number with eight fractional bits, stored as its underlying integer:
/// it stands for `bits / 256`.
#[derive(Clone, Copy, PartialEq, Eq, Structural, Debug)]
pub struct Fx {
    pub bits: i32,
}

impl Fx {
    pub fn add(self, rhs: Fx) -> (r: Fx)
        requires
            fits_i32(self.bits + rhs.bits),
        ensures
            r.bits == self.bits + rhs.bits,
    {
        Fx { bits: fix_add_bits(self.bits, rhs.bits) }
    }

    pub fn sub(self, rhs: Fx) -> (r: Fx)
        requires
            fits_i32(self.bits - rhs.bits),
        ensures
            r.bits == self.bits - rhs.bits,
    {
        Fx { bits: fix_sub_bits(self.bits, rhs.bits) }
    }
}

/// The underlying integer of the whole number `value` (its top eight bits
/// are shifted out).
pub open spec fn int_bits(value: i32) -> i32 {
    value << 8i32
}

/// The underlying integer of the product of two numbers, given by theirs:
/// the product of the integers shifted right by eight bits (rounding toward
/// minus infinity).
pub open spec fn mul_bits(a: i32, b: i32) -> i32 {
    ((a * b) as i32) >> 8i32
}

/// The whole number `value`.
pub fn fx_int(value: i32) -> (r: Fx)
    ensures
        r.bits == int_bits(value),
{
    Fx { bits: value << 8i32 }
}

/// The product of two numbers; the product of their underlying integers
/// must fit an `i32`.
pub fn fixed_mul(a: Fx, b: Fx) -> (r: Fx)
    requires
        fits_i32(a.bits * b.bits),
    ensures
        r.bits == mul_bits(a.bits, b.bits),
{
    Fx { bits: (a.bits * b.bits) >> 8i32 }
}

/// Small whole numbers are shifted without loss: their underlying integer is
/// 256 times the number.
pub proof fn lemma_int_bits(value: i32)
    requires
        -0x80_0000 <= value < 0x80_0000,
    ensures
        int_bits(value) == value * 256,
{
    assert((value << 8i32) == value * 256) by (bit_vector)
        requires
            -0x80_0000 <= value < 0x80_0000,
    ;
}

/// Multiplying by a number of magnitude at most one keeps a magnitude bound.
pub proof fn lemma_mul_bits_bound(a: i32, s: i32, bound: i32)
    requires
        0 <= bound <= 0x40_0000,
        -bound <= a <= bound,
        -256 <= s <= 256,
    ensures
        fits_i32(a * s),
        -bound <= mul_bits(a, s) <= bound,
{
    let p = a * s;
    assert(-256 * bound <= p <= 256 * bound) by (nonlinear_arith)
        requires
            p == a * s,
            -bound <= a <= bound,
            -256 <= s <= 256,
            0 <= bound,
    ;
    let q = p as i32;
    assert(-bound <= (q >> 8i32) <= bound) by (bit_vector)
        requires
            -256 * bound <= q <= 256 * bound,
            0 <= bound <= 0x40_0000,
    ;
}

/// The product of two numbers is the product of their underlying integers
/// divided by 256, rounded toward minus infinity.
pub proof fn lemma_mul_bits_floor(a: i32, b: i32)
    requires
        fits_i32(a * b),
    ensures
        mul_bits(a, b) == (a * b) / 256,
{
    let v = (a * b) as i32;
    assert((v >> 8i32) * 256 <= v < (v >> 8i32) * 256 + 256) by (bit_vector);
    assert(v == a * b);
}

} // verus!
