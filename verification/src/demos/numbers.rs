use vstd::prelude::*;
use vstd::string::StringSliceAdditionalSpecFns;

use crate::mmio::term::Terminal;
use crate::printer::{
    lemma_print_concat, lemma_print_stays_on_screen, lemma_printed_concat, printed, Printer,
};

verus! {

/// Ten to the power `k`.
pub open spec fn pow10(k: nat) -> nat
    decreases k,
{
    if k == 0 {
        1
    } else {
        10 * pow10((k - 1) as nat)
    }
}

/// The ASCII decimal digits of `n`, most significant first, without leading
/// zeros (0 is the single digit `0`).
pub open spec fn decimal_digits(n: nat) -> Seq<u8>
    decreases n,
{
    if n < 10 {
        seq![(48 + n) as u8]
    } else {
        decimal_digits(n / 10).push((48 + n % 10) as u8)
    }
}

/// The digits of the hexadecimal numerals, upper case.
pub const HEX_DIGITS: [u8; 16] = [48, 49, 50, 51, 52, 53, 54, 55, 56, 57, 65, 66, 67, 68, 69, 70];

/// Nibble `i` of `value`, counting from the most significant (0) to the
/// least significant (7).
pub open spec fn nibble(value: u32, i: int) -> u32 {
    (value >> ((28 - 4 * i) as u32)) & 15u32
}

/// The eight upper-case hexadecimal digits of `value`, most significant
/// first, with leading zeros.
pub open spec fn hex_digits(value: u32) -> Seq<u8> {
    Seq::new(8, |i: int| HEX_DIGITS@[nibble(value, i) as int])
}

/// The eight nibbles put back together give the value.
pub proof fn lemma_nibbles_rebuild(value: u32)
    ensures
        (nibble(value, 0) << 28u32) | (nibble(value, 1) << 24u32) | (nibble(value, 2) << 20u32) | (
        nibble(value, 3) << 16u32) | (nibble(value, 4) << 12u32) | (nibble(value, 5) << 8u32) | (
        nibble(value, 6) << 4u32) | nibble(value, 7) == value,
{
    assert(((value >> 28u32) & 15u32) << 28u32 | ((value >> 24u32) & 15u32) << 24u32 | ((value
        >> 20u32) & 15u32) << 20u32 | ((value >> 16u32) & 15u32) << 16u32 | ((value >> 12u32)
        & 15u32) << 12u32 | ((value >> 8u32) & 15u32) << 8u32 | ((value >> 4u32) & 15u32) << 4u32
        | ((value >> 0u32) & 15u32) == value) by (bit_vector);
}

/// The decimal digits of `n` read back as a number give `n`, and there are
/// at most `k` of them when `n < 10^k`.
pub proof fn lemma_decimal_digits(n: nat, k: nat)
    requires
        n < pow10(k),
    ensures
        decimal_digits(n).len() <= k || (n == 0 && k == 0),
        decimal_value(decimal_digits(n)) == n,
        forall|i: int|
            0 <= i < decimal_digits(n).len() ==> 48 <= #[trigger] decimal_digits(n)[i] <= 57,
    decreases n,
{
    if n >= 10 {
        assert(k >= 1) by {
            if k == 0 {
                assert(pow10(0) == 1);
            }
        }
        assert(n / 10 < pow10((k - 1) as nat)) by (nonlinear_arith)
            requires
                n < 10 * pow10((k - 1) as nat),
        ;
        lemma_decimal_digits(n / 10, (k - 1) as nat);
        let d = decimal_digits(n);
        assert(d.drop_last() =~= decimal_digits(n / 10));
        assert(d.last() == (48 + n % 10) as u8);
        assert(decimal_value(d) == 10 * (n / 10) + n % 10);
    } else {
        if k == 0 {
            assert(pow10(0) == 1);
        }
        let d = decimal_digits(n);
        assert(d.drop_last() =~= Seq::<u8>::empty());
        assert(decimal_value(d) == 10 * decimal_value(Seq::<u8>::empty()) + n);
    }
}

/// The number that ASCII decimal digits stand for.
pub open spec fn decimal_value(digits: Seq<u8>) -> nat
    decreases digits.len(),
{
    if digits.len() == 0 {
        0
    } else {
        10 * decimal_value(digits.drop_last()) + (digits.last() - 48) as nat
    }
}

/// Prints the decimal digits of `value`.
pub fn print_u32_decimal(printer: &mut Printer, terminal: &mut Terminal, value: u32)
    requires
        old(printer)@.can_print(decimal_digits(value as nat)),
    ensures
        final(printer)@ == old(printer)@.after_print(decimal_digits(value as nat)),
        final(terminal)@ == old(terminal)@ + printed(decimal_digits(value as nat)),
{
    let mut buffer = [0u8;10];
    let mut len: usize = 0;
    let mut v = value;
    if v == 0 {
        print_byte(printer, terminal, 48u8);
        proof {
            reveal_with_fuel(crate::printer::PrinterView::after_print, 2);
        }
        return;
    }
    proof {
        reveal_with_fuel(pow10, 11);
    }
    assert(pow10(10) == 10000000000);
    while v != 0
        invariant
            len <= 10,
            buffer@.len() == 10,
            v < pow10((10 - len) as nat),
            value > 0,
            v == 0 ==> decimal_digits(value as nat) =~= Seq::new(
                len as nat,
                |i: int| buffer@[len - 1 - i],
            ),
            v > 0 ==> decimal_digits(value as nat) =~= decimal_digits(v as nat) + Seq::new(
                len as nat,
                |i: int| buffer@[len - 1 - i],
            ),
        decreases v,
    {
        assert(len < 10) by {
            if len == 10 {
                assert(pow10(0) == 1);
            }
        }
        let ghost old_buf = buffer@;
        let ghost old_len = len;
        let ghost old_v = v;
        buffer[len] = 48u8 + (v % 10) as u8;
        v = v / 10;
        len = len + 1;
        assert(v < pow10((10 - len) as nat)) by (nonlinear_arith)
            requires
                old_v < pow10((10 - old_len) as nat),
                pow10((10 - old_len) as nat) == 10 * pow10((10 - len) as nat),
                v == old_v / 10,
        ;
        let ghost tail = Seq::new(len as nat, |i: int| buffer@[len - 1 - i]);
        let ghost old_tail = Seq::new(old_len as nat, |i: int| old_buf[old_len - 1 - i]);
        assert(tail =~= seq![buffer@[old_len as int]] + old_tail);
        if v == 0 {
            assert(decimal_digits(old_v as nat) == seq![(48 + old_v % 10) as u8]);
        } else {
            assert(decimal_digits(old_v as nat) == decimal_digits(v as nat).push(
                (48 + old_v % 10) as u8,
            ));
        }
    }
    let ghost digits = decimal_digits(value as nat);
    let ghost p0 = printer@;
    let ghost t0 = terminal@;
    let total = len;
    while len != 0
        invariant
            len <= total,
            total <= 10,
            buffer@.len() == 10,
            digits =~= Seq::new(total as nat, |i: int| buffer@[total - 1 - i]),
            p0.can_print(digits),
            printer@ == p0.after_print(digits.take(total - len)),
            terminal@ == t0 + printed(digits.take(total - len)),
        decreases len,
    {
        len = len - 1;
        proof {
            let done = digits.take(total - len - 1);
            assert(digits.take(total - len) =~= done + seq![buffer@[len as int]]);
            lemma_print_concat(p0, done, digits.skip(total - len - 1));
            assert(done + digits.skip(total - len - 1) =~= digits);
            lemma_print_concat(p0.after_print(done), seq![buffer@[len as int]], digits.skip(total - len));
            assert(seq![buffer@[len as int]] + digits.skip(total - len) =~= digits.skip(total - len - 1));
            lemma_print_concat(p0, done, seq![buffer@[len as int]]);
            lemma_printed_concat(done, seq![buffer@[len as int]]);
            reveal_with_fuel(crate::printer::PrinterView::after_print, 2);
            reveal_with_fuel(crate::printer::PrinterView::can_print, 2);
        }
        print_byte(printer, terminal, buffer[len]);
    }
    assert(digits.take(total as int) =~= digits);
}

/// Prints the eight upper-case hexadecimal digits of `value`.
pub fn print_u32_hex(printer: &mut Printer, terminal: &mut Terminal, value: u32)
    requires
        old(printer)@.can_print(hex_digits(value)),
    ensures
        final(printer)@ == old(printer)@.after_print(hex_digits(value)),
        final(terminal)@ == old(terminal)@ + printed(hex_digits(value)),
{
    let ghost digits = hex_digits(value);
    let mut k: u32 = 0;
    while k < 8
        invariant
            k <= 8,
            digits == hex_digits(value),
            old(printer)@.can_print(digits),
            printer@ == old(printer)@.after_print(digits.take(k as int)),
            terminal@ == old(terminal)@ + printed(digits.take(k as int)),
        decreases 8 - k,
    {
        let shift = 28 - 4 * k;
        let d = (value >> shift) & 0xF;
        assert(d < 16) by (bit_vector)
            requires
                d == (value >> shift) & 15u32,
        ;
        assert(HEX_DIGITS[d as int] == digits[k as int]);
        proof {
            let done = digits.take(k as int);
            let b = digits[k as int];
            assert(digits.take(k + 1) =~= done + seq![b]);
            lemma_print_concat(old(printer)@, done, digits.skip(k as int));
            assert(done + digits.skip(k as int) =~= digits);
            lemma_print_concat(old(printer)@.after_print(done), seq![b], digits.skip(k + 1));
            assert(seq![b] + digits.skip(k + 1) =~= digits.skip(k as int));
            lemma_print_concat(old(printer)@, done, seq![b]);
            lemma_printed_concat(done, seq![b]);
            reveal_with_fuel(crate::printer::PrinterView::after_print, 2);
            reveal_with_fuel(crate::printer::PrinterView::can_print, 2);
        }
        print_byte(printer, terminal, HEX_DIGITS[d as usize]);
        k = k + 1;
    }
    assert(digits.take(8) =~= digits);
}

/// Prints the single byte `byte`.
pub fn print_byte(printer: &mut Printer, terminal: &mut Terminal, byte: u8)
    requires
        old(printer)@.can_put(byte),
    ensures
        final(printer)@ == old(printer)@.after_put(byte),
        final(terminal)@ == old(terminal)@ + printed(seq![byte]),
{
    printer.put(terminal, byte);
}

/// The line that shows a frame count and a random value: `F: `, the frame
/// count in decimal, ` R: 0x`, the random value in hexadecimal, and a
/// newline.
pub open spec fn sample_line(frame: u32, random: u32) -> Seq<u8> {
    "F: ".spec_bytes() + decimal_digits(frame as nat) + " R: 0x".spec_bytes() + hex_digits(random)
        + "\n".spec_bytes()
}

/// Prints one line of the frame-counter demo: the frame count and a random
/// value.
pub fn print_sample(printer: &mut Printer, terminal: &mut Terminal, frame: u32, random: u32)
    requires
        old(printer)@.can_print(sample_line(frame, random)),
    ensures
        final(printer)@ == old(printer)@.after_print(sample_line(frame, random)),
        old(printer)@.on_screen() ==> final(printer)@.on_screen(),
        final(terminal)@ == old(terminal)@ + printed(sample_line(frame, random)),
{
    let ghost p0 = printer@;
    let ghost a = "F: ".spec_bytes();
    let ghost b = decimal_digits(frame as nat);
    let ghost c = " R: 0x".spec_bytes();
    let ghost d = hex_digits(random);
    let ghost e = "\n".spec_bytes();
    proof {
        lemma_print_concat(p0, a + b + c + d, e);
        lemma_print_concat(p0, a + b + c, d);
        lemma_print_concat(p0, a + b, c);
        lemma_print_concat(p0, a, b);
        lemma_printed_concat(a, b);
        lemma_printed_concat(a + b, c);
        lemma_printed_concat(a + b + c, d);
        lemma_printed_concat(a + b + c + d, e);
        if p0.on_screen() {
            lemma_print_stays_on_screen(p0, sample_line(frame, random));
        }
    }
    printer.print(terminal, "F: ");
    print_u32_decimal(printer, terminal, frame);
    printer.print(terminal, " R: 0x");
    print_u32_hex(printer, terminal, random);
    printer.print(terminal, "\n");
}

} // verus!
