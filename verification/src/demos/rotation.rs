use vstd::prelude::*;

use crate::demos::cube::{
    cosine_bits, cube_corner, frame_corner, frame_point, lemma_corner_fits, lemma_sine_bounds,
    projected, sine_bits, turn_x, turn_y, turn_x_fits, turn_y_fits, SIN,
};
use crate::fixed::{fits_i32, lemma_mul_bits_floor, mul_bits};

verus! {

/// The squared length of a sine/cosine pair from the table, for table
/// entry `i`: the sine is entry `i`, the cosine entry `i + 16` (a quarter
/// turn on).
pub open spec fn table_norm(i: int) -> int {
    SIN@[i] * SIN@[i] + SIN@[(i + 16) % 64] * SIN@[(i + 16) % 64]
}

/// The sine/cosine pairs of table entries 0 to 15, checked one by one.
proof fn lemma_table_norm_first_quarter(i: int)
    requires
        0 <= i < 16,
    ensures
        65448 <= table_norm(i) <= 65773,
{
    assert(table_norm(0) == 65536) by {
        let (s, c) = (SIN@[0], SIN@[16]);
        assert(s == 0 && c == 256);
        assert(s * s + c * c == 65536) by (nonlinear_arith)
            requires
                s == 0,
                c == 256,
        ;
    }
    assert(table_norm(1) == 65650) by {
        let (s, c) = (SIN@[1], SIN@[17]);
        assert(s == 25 && c == 255);
        assert(s * s + c * c == 65650) by (nonlinear_arith)
            requires
                s == 25,
                c == 255,
        ;
    }
    assert(table_norm(2) == 65501) by {
        let (s, c) = (SIN@[2], SIN@[18]);
        assert(s == 50 && c == 251);
        assert(s * s + c * c == 65501) by (nonlinear_arith)
            requires
                s == 50,
                c == 251,
        ;
    }
    assert(table_norm(3) == 65501) by {
        let (s, c) = (SIN@[3], SIN@[19]);
        assert(s == 74 && c == 245);
        assert(s * s + c * c == 65501) by (nonlinear_arith)
            requires
                s == 74,
                c == 245,
        ;
    }
    assert(table_norm(4) == 65773) by {
        let (s, c) = (SIN@[4], SIN@[20]);
        assert(s == 98 && c == 237);
        assert(s * s + c * c == 65773) by (nonlinear_arith)
            requires
                s == 98,
                c == 237,
        ;
    }
    assert(table_norm(5) == 65717) by {
        let (s, c) = (SIN@[5], SIN@[21]);
        assert(s == 121 && c == 226);
        assert(s * s + c * c == 65717) by (nonlinear_arith)
            requires
                s == 121,
                c == 226,
        ;
    }
    assert(table_norm(6) == 65533) by {
        let (s, c) = (SIN@[6], SIN@[22]);
        assert(s == 142 && c == 213);
        assert(s * s + c * c == 65533) by (nonlinear_arith)
            requires
                s == 142,
                c == 213,
        ;
    }
    assert(table_norm(7) == 65448) by {
        let (s, c) = (SIN@[7], SIN@[23]);
        assert(s == 162 && c == 198);
        assert(s * s + c * c == 65448) by (nonlinear_arith)
            requires
                s == 162,
                c == 198,
        ;
    }
    assert(table_norm(8) == 65522) by {
        let (s, c) = (SIN@[8], SIN@[24]);
        assert(s == 181 && c == 181);
        assert(s * s + c * c == 65522) by (nonlinear_arith)
            requires
                s == 181,
                c == 181,
        ;
    }
    assert(table_norm(9) == 65448) by {
        let (s, c) = (SIN@[9], SIN@[25]);
        assert(s == 198 && c == 162);
        assert(s * s + c * c == 65448) by (nonlinear_arith)
            requires
                s == 198,
                c == 162,
        ;
    }
    assert(table_norm(10) == 65533) by {
        let (s, c) = (SIN@[10], SIN@[26]);
        assert(s == 213 && c == 142);
        assert(s * s + c * c == 65533) by (nonlinear_arith)
            requires
                s == 213,
                c == 142,
        ;
    }
    assert(table_norm(11) == 65717) by {
        let (s, c) = (SIN@[11], SIN@[27]);
        assert(s == 226 && c == 121);
        assert(s * s + c * c == 65717) by (nonlinear_arith)
            requires
                s == 226,
                c == 121,
        ;
    }
    assert(table_norm(12) == 65773) by {
        let (s, c) = (SIN@[12], SIN@[28]);
        assert(s == 237 && c == 98);
        assert(s * s + c * c == 65773) by (nonlinear_arith)
            requires
                s == 237,
                c == 98,
        ;
    }
    assert(table_norm(13) == 65501) by {
        let (s, c) = (SIN@[13], SIN@[29]);
        assert(s == 245 && c == 74);
        assert(s * s + c * c == 65501) by (nonlinear_arith)
            requires
                s == 245,
                c == 74,
        ;
    }
    assert(table_norm(14) == 65501) by {
        let (s, c) = (SIN@[14], SIN@[30]);
        assert(s == 251 && c == 50);
        assert(s * s + c * c == 65501) by (nonlinear_arith)
            requires
                s == 251,
                c == 50,
        ;
    }
    assert(table_norm(15) == 65650) by {
        let (s, c) = (SIN@[15], SIN@[31]);
        assert(s == 255 && c == 25);
        assert(s * s + c * c == 65650) by (nonlinear_arith)
            requires
                s == 255,
                c == 25,
        ;
    }
    assert(i == 0 || i == 1 || i == 2 || i == 3 || i == 4 || i == 5 || i == 6 || i == 7 || i == 8 || i == 9 || i == 10 || i == 11 || i == 12 || i == 13 || i == 14 || i == 15);
}

/// The sine/cosine pairs of table entries 16 to 31, checked one by one.
proof fn lemma_table_norm_second_quarter(i: int)
    requires
        16 <= i < 32,
    ensures
        65448 <= table_norm(i) <= 65773,
{
    assert(table_norm(16) == 65536) by {
        let (s, c) = (SIN@[16], SIN@[32]);
        assert(s == 256 && c == 0);
        assert(s * s + c * c == 65536) by (nonlinear_arith)
            requires
                s == 256,
                c == 0,
        ;
    }
    assert(table_norm(17) == 65650) by {
        let (s, c) = (SIN@[17], SIN@[33]);
        assert(s == 255 && c == -25);
        assert(s * s + c * c == 65650) by (nonlinear_arith)
            requires
                s == 255,
                c == -25,
        ;
    }
    assert(table_norm(18) == 65501) by {
        let (s, c) = (SIN@[18], SIN@[34]);
        assert(s == 251 && c == -50);
        assert(s * s + c * c == 65501) by (nonlinear_arith)
            requires
                s == 251,
                c == -50,
        ;
    }
    assert(table_norm(19) == 65501) by {
        let (s, c) = (SIN@[19], SIN@[35]);
        assert(s == 245 && c == -74);
        assert(s * s + c * c == 65501) by (nonlinear_arith)
            requires
                s == 245,
                c == -74,
        ;
    }
    assert(table_norm(20) == 65773) by {
        let (s, c) = (SIN@[20], SIN@[36]);
        assert(s == 237 && c == -98);
        assert(s * s + c * c == 65773) by (nonlinear_arith)
            requires
                s == 237,
                c == -98,
        ;
    }
    assert(table_norm(21) == 65717) by {
        let (s, c) = (SIN@[21], SIN@[37]);
        assert(s == 226 && c == -121);
        assert(s * s + c * c == 65717) by (nonlinear_arith)
            requires
                s == 226,
                c == -121,
        ;
    }
    assert(table_norm(22) == 65533) by {
        let (s, c) = (SIN@[22], SIN@[38]);
        assert(s == 213 && c == -142);
        assert(s * s + c * c == 65533) by (nonlinear_arith)
            requires
                s == 213,
                c == -142,
        ;
    }
    assert(table_norm(23) == 65448) by {
        let (s, c) = (SIN@[23], SIN@[39]);
        assert(s == 198 && c == -162);
        assert(s * s + c * c == 65448) by (nonlinear_arith)
            requires
                s == 198,
                c == -162,
        ;
    }
    assert(table_norm(24) == 65522) by {
        let (s, c) = (SIN@[24], SIN@[40]);
        assert(s == 181 && c == -181);
        assert(s * s + c * c == 65522) by (nonlinear_arith)
            requires
                s == 181,
                c == -181,
        ;
    }
    assert(table_norm(25) == 65448) by {
        let (s, c) = (SIN@[25], SIN@[41]);
        assert(s == 162 && c == -198);
        assert(s * s + c * c == 65448) by (nonlinear_arith)
            requires
                s == 162,
                c == -198,
        ;
    }
    assert(table_norm(26) == 65533) by {
        let (s, c) = (SIN@[26], SIN@[42]);
        assert(s == 142 && c == -213);
        assert(s * s + c * c == 65533) by (nonlinear_arith)
            requires
                s == 142,
                c == -213,
        ;
    }
    assert(table_norm(27) == 65717) by {
        let (s, c) = (SIN@[27], SIN@[43]);
        assert(s == 121 && c == -226);
        assert(s * s + c * c == 65717) by (nonlinear_arith)
            requires
                s == 121,
                c == -226,
        ;
    }
    assert(table_norm(28) == 65773) by {
        let (s, c) = (SIN@[28], SIN@[44]);
        assert(s == 98 && c == -237);
        assert(s * s + c * c == 65773) by (nonlinear_arith)
            requires
                s == 98,
                c == -237,
        ;
    }
    assert(table_norm(29) == 65501) by {
        let (s, c) = (SIN@[29], SIN@[45]);
        assert(s == 74 && c == -245);
        assert(s * s + c * c == 65501) by (nonlinear_arith)
            requires
                s == 74,
                c == -245,
        ;
    }
    assert(table_norm(30) == 65501) by {
        let (s, c) = (SIN@[30], SIN@[46]);
        assert(s == 50 && c == -251);
        assert(s * s + c * c == 65501) by (nonlinear_arith)
            requires
                s == 50,
                c == -251,
        ;
    }
    assert(table_norm(31) == 65650) by {
        let (s, c) = (SIN@[31], SIN@[47]);
        assert(s == 25 && c == -255);
        assert(s * s + c * c == 65650) by (nonlinear_arith)
            requires
                s == 25,
                c == -255,
        ;
    }
    assert(i == 16 || i == 17 || i == 18 || i == 19 || i == 20 || i == 21 || i == 22 || i == 23 || i == 24 || i == 25 || i == 26 || i == 27 || i == 28 || i == 29 || i == 30 || i == 31);
}

/// The sine/cosine pairs of table entries 32 to 47, checked one by one.
proof fn lemma_table_norm_third_quarter(i: int)
    requires
        32 <= i < 48,
    ensures
        65448 <= table_norm(i) <= 65773,
{
    assert(table_norm(32) == 65536) by {
        let (s, c) = (SIN@[32], SIN@[48]);
        assert(s == 0 && c == -256);
        assert(s * s + c * c == 65536) by (nonlinear_arith)
            requires
                s == 0,
                c == -256,
        ;
    }
    assert(table_norm(33) == 65650) by {
        let (s, c) = (SIN@[33], SIN@[49]);
        assert(s == -25 && c == -255);
        assert(s * s + c * c == 65650) by (nonlinear_arith)
            requires
                s == -25,
                c == -255,
        ;
    }
    assert(table_norm(34) == 65501) by {
        let (s, c) = (SIN@[34], SIN@[50]);
        assert(s == -50 && c == -251);
        assert(s * s + c * c == 65501) by (nonlinear_arith)
            requires
                s == -50,
                c == -251,
        ;
    }
    assert(table_norm(35) == 65501) by {
        let (s, c) = (SIN@[35], SIN@[51]);
        assert(s == -74 && c == -245);
        assert(s * s + c * c == 65501) by (nonlinear_arith)
            requires
                s == -74,
                c == -245,
        ;
    }
    assert(table_norm(36) == 65773) by {
        let (s, c) = (SIN@[36], SIN@[52]);
        assert(s == -98 && c == -237);
        assert(s * s + c * c == 65773) by (nonlinear_arith)
            requires
                s == -98,
                c == -237,
        ;
    }
    assert(table_norm(37) == 65717) by {
        let (s, c) = (SIN@[37], SIN@[53]);
        assert(s == -121 && c == -226);
        assert(s * s + c * c == 65717) by (nonlinear_arith)
            requires
                s == -121,
                c == -226,
        ;
    }
    assert(table_norm(38) == 65533) by {
        let (s, c) = (SIN@[38], SIN@[54]);
        assert(s == -142 && c == -213);
        assert(s * s + c * c == 65533) by (nonlinear_arith)
            requires
                s == -142,
                c == -213,
        ;
    }
    assert(table_norm(39) == 65448) by {
        let (s, c) = (SIN@[39], SIN@[55]);
        assert(s == -162 && c == -198);
        assert(s * s + c * c == 65448) by (nonlinear_arith)
            requires
                s == -162,
                c == -198,
        ;
    }
    assert(table_norm(40) == 65522) by {
        let (s, c) = (SIN@[40], SIN@[56]);
        assert(s == -181 && c == -181);
        assert(s * s + c * c == 65522) by (nonlinear_arith)
            requires
                s == -181,
                c == -181,
        ;
    }
    assert(table_norm(41) == 65448) by {
        let (s, c) = (SIN@[41], SIN@[57]);
        assert(s == -198 && c == -162);
        assert(s * s + c * c == 65448) by (nonlinear_arith)
            requires
                s == -198,
                c == -162,
        ;
    }
    assert(table_norm(42) == 65533) by {
        let (s, c) = (SIN@[42], SIN@[58]);
        assert(s == -213 && c == -142);
        assert(s * s + c * c == 65533) by (nonlinear_arith)
            requires
                s == -213,
                c == -142,
        ;
    }
    assert(table_norm(43) == 65717) by {
        let (s, c) = (SIN@[43], SIN@[59]);
        assert(s == -226 && c == -121);
        assert(s * s + c * c == 65717) by (nonlinear_arith)
            requires
                s == -226,
                c == -121,
        ;
    }
    assert(table_norm(44) == 65773) by {
        let (s, c) = (SIN@[44], SIN@[60]);
        assert(s == -237 && c == -98);
        assert(s * s + c * c == 65773) by (nonlinear_arith)
            requires
                s == -237,
                c == -98,
        ;
    }
    assert(table_norm(45) == 65501) by {
        let (s, c) = (SIN@[45], SIN@[61]);
        assert(s == -245 && c == -74);
        assert(s * s + c * c == 65501) by (nonlinear_arith)
            requires
                s == -245,
                c == -74,
        ;
    }
    assert(table_norm(46) == 65501) by {
        let (s, c) = (SIN@[46], SIN@[62]);
        assert(s == -251 && c == -50);
        assert(s * s + c * c == 65501) by (nonlinear_arith)
            requires
                s == -251,
                c == -50,
        ;
    }
    assert(table_norm(47) == 65650) by {
        let (s, c) = (SIN@[47], SIN@[63]);
        assert(s == -255 && c == -25);
        assert(s * s + c * c == 65650) by (nonlinear_arith)
            requires
                s == -255,
                c == -25,
        ;
    }
    assert(i == 32 || i == 33 || i == 34 || i == 35 || i == 36 || i == 37 || i == 38 || i == 39 || i == 40 || i == 41 || i == 42 || i == 43 || i == 44 || i == 45 || i == 46 || i == 47);
}

/// The sine/cosine pairs of table entries 48 to 63, checked one by one.
proof fn lemma_table_norm_fourth_quarter(i: int)
    requires
        48 <= i < 64,
    ensures
        65448 <= table_norm(i) <= 65773,
{
    assert(table_norm(48) == 65536) by {
        let (s, c) = (SIN@[48], SIN@[0]);
        assert(s == -256 && c == 0);
        assert(s * s + c * c == 65536) by (nonlinear_arith)
            requires
                s == -256,
                c == 0,
        ;
    }
    assert(table_norm(49) == 65650) by {
        let (s, c) = (SIN@[49], SIN@[1]);
        assert(s == -255 && c == 25);
        assert(s * s + c * c == 65650) by (nonlinear_arith)
            requires
                s == -255,
                c == 25,
        ;
    }
    assert(table_norm(50) == 65501) by {
        let (s, c) = (SIN@[50], SIN@[2]);
        assert(s == -251 && c == 50);
        assert(s * s + c * c == 65501) by (nonlinear_arith)
            requires
                s == -251,
                c == 50,
        ;
    }
    assert(table_norm(51) == 65501) by {
        let (s, c) = (SIN@[51], SIN@[3]);
        assert(s == -245 && c == 74);
        assert(s * s + c * c == 65501) by (nonlinear_arith)
            requires
                s == -245,
                c == 74,
        ;
    }
    assert(table_norm(52) == 65773) by {
        let (s, c) = (SIN@[52], SIN@[4]);
        assert(s == -237 && c == 98);
        assert(s * s + c * c == 65773) by (nonlinear_arith)
            requires
                s == -237,
                c == 98,
        ;
    }
    assert(table_norm(53) == 65717) by {
        let (s, c) = (SIN@[53], SIN@[5]);
        assert(s == -226 && c == 121);
        assert(s * s + c * c == 65717) by (nonlinear_arith)
            requires
                s == -226,
                c == 121,
        ;
    }
    assert(table_norm(54) == 65533) by {
        let (s, c) = (SIN@[54], SIN@[6]);
        assert(s == -213 && c == 142);
        assert(s * s + c * c == 65533) by (nonlinear_arith)
            requires
                s == -213,
                c == 142,
        ;
    }
    assert(table_norm(55) == 65448) by {
        let (s, c) = (SIN@[55], SIN@[7]);
        assert(s == -198 && c == 162);
        assert(s * s + c * c == 65448) by (nonlinear_arith)
            requires
                s == -198,
                c == 162,
        ;
    }
    assert(table_norm(56) == 65522) by {
        let (s, c) = (SIN@[56], SIN@[8]);
        assert(s == -181 && c == 181);
        assert(s * s + c * c == 65522) by (nonlinear_arith)
            requires
                s == -181,
                c == 181,
        ;
    }
    assert(table_norm(57) == 65448) by {
        let (s, c) = (SIN@[57], SIN@[9]);
        assert(s == -162 && c == 198);
        assert(s * s + c * c == 65448) by (nonlinear_arith)
            requires
                s == -162,
                c == 198,
        ;
    }
    assert(table_norm(58) == 65533) by {
        let (s, c) = (SIN@[58], SIN@[10]);
        assert(s == -142 && c == 213);
        assert(s * s + c * c == 65533) by (nonlinear_arith)
            requires
                s == -142,
                c == 213,
        ;
    }
    assert(table_norm(59) == 65717) by {
        let (s, c) = (SIN@[59], SIN@[11]);
        assert(s == -121 && c == 226);
        assert(s * s + c * c == 65717) by (nonlinear_arith)
            requires
                s == -121,
                c == 226,
        ;
    }
    assert(table_norm(60) == 65773) by {
        let (s, c) = (SIN@[60], SIN@[12]);
        assert(s == -98 && c == 237);
        assert(s * s + c * c == 65773) by (nonlinear_arith)
            requires
                s == -98,
                c == 237,
        ;
    }
    assert(table_norm(61) == 65501) by {
        let (s, c) = (SIN@[61], SIN@[13]);
        assert(s == -74 && c == 245);
        assert(s * s + c * c == 65501) by (nonlinear_arith)
            requires
                s == -74,
                c == 245,
        ;
    }
    assert(table_norm(62) == 65501) by {
        let (s, c) = (SIN@[62], SIN@[14]);
        assert(s == -50 && c == 251);
        assert(s * s + c * c == 65501) by (nonlinear_arith)
            requires
                s == -50,
                c == 251,
        ;
    }
    assert(table_norm(63) == 65650) by {
        let (s, c) = (SIN@[63], SIN@[15]);
        assert(s == -25 && c == 255);
        assert(s * s + c * c == 65650) by (nonlinear_arith)
            requires
                s == -25,
                c == 255,
        ;
    }
    assert(i == 48 || i == 49 || i == 50 || i == 51 || i == 52 || i == 53 || i == 54 || i == 55 || i == 56 || i == 57 || i == 58 || i == 59 || i == 60 || i == 61 || i == 62 || i == 63);
}

/// The sine and cosine of every angle come from the same angle: their
/// squares add up to 256 squared (65536), up to the table's rounding.
#[verifier::spinoff_prover]
pub proof fn lemma_sine_cosine_norm(angle: usize)
    ensures
        65448 <= sine_bits(angle) * sine_bits(angle) + cosine_bits(angle) * cosine_bits(angle)
            <= 65773,
{
    let w = angle.wrapping_add(16);
    assert((angle & 63usize) == angle % 64) by (bit_vector);
    assert((w & 63usize) == w % 64) by (bit_vector);
    let i = (angle % 64) as int;
    assert(w % 64 == (i + 16) % 64) by {
        if angle + 16 > usize::MAX {
            assert(usize::MAX == 0xffff_ffff || usize::MAX == 0xffff_ffff_ffff_ffff);
            assert(w == angle + 16 - (usize::MAX + 1));
        } else {
            assert(w == angle + 16);
        }
    }
    assert(sine_bits(angle) == SIN@[i]);
    assert(cosine_bits(angle) == SIN@[(i + 16) % 64]);
    if i < 16 {
        lemma_table_norm_first_quarter(i);
    } else if i < 32 {
        lemma_table_norm_second_quarter(i);
    } else if i < 48 {
        lemma_table_norm_third_quarter(i);
    } else {
        lemma_table_norm_fourth_quarter(i);
    }
}

/// Rounding each product of a rotation down to whole units moves the
/// squared length by at most a fraction of a percent: `(big_p, big_q)` is
/// the exact rotation of `(p, q)` (scaled by 256), `(p2, q2)` the rounded
/// one.
proof fn lemma_rounded_rotation_length(
    p: int,
    q: int,
    s: int,
    c: int,
    p2: int,
    q2: int,
    big_p: int,
    big_q: int,
)
    requires
        big_p * big_p + big_q * big_q == (p * p + q * q) * (s * s + c * c),
        -512 < big_p - 256 * p2 < 512,
        -512 < big_q - 256 * q2 < 512,
    ensures
        16777216 * (p2 * p2 + q2 * q2) <= 257 * ((p * p + q * q) * (s * s + c * c)) + 65792
            * 524288,
        16777216 * (p2 * p2 + q2 * q2) >= 255 * ((p * p + q * q) * (s * s + c * c)) - 65536
            * 524288,
{
    let e1 = big_p - 256 * p2;
    let e2 = big_q - 256 * q2;
    assert(e1 * e1 <= 261121) by (nonlinear_arith)
        requires
            -512 < e1 < 512,
    ;
    assert(e2 * e2 <= 261121) by (nonlinear_arith)
        requires
            -512 < e2 < 512,
    ;
    assert(16777216 * (p2 * p2) <= 257 * (big_p * big_p) + 65792 * (e1 * e1)
        && 16777216 * (p2 * p2) >= 255 * (big_p * big_p) - 65536 * (e1 * e1))
        by (nonlinear_arith)
        requires
            e1 == big_p - 256 * p2,
    {
        assert((big_p + 256 * e1) * (big_p + 256 * e1) >= 0);
        assert((big_p - 256 * e1) * (big_p - 256 * e1) >= 0);
    }
    assert(16777216 * (q2 * q2) <= 257 * (big_q * big_q) + 65792 * (e2 * e2)
        && 16777216 * (q2 * q2) >= 255 * (big_q * big_q) - 65536 * (e2 * e2))
        by (nonlinear_arith)
        requires
            e2 == big_q - 256 * q2,
    {
        assert((big_q + 256 * e2) * (big_q + 256 * e2) >= 0);
        assert((big_q - 256 * e2) * (big_q - 256 * e2) >= 0);
    }
}

/// Rotating `(x, z)` by a sine and cosine scales its squared length by
/// `s^2 + c^2`.
proof fn lemma_rotation_identity(x: int, z: int, s: int, c: int)
    ensures
        (x * c + z * s) * (x * c + z * s) + (z * c - x * s) * (z * c - x * s) == (x * x + z * z) * (
        s * s + c * c),
{
    let (xc, zs, zc, xs) = (x * c, z * s, z * c, x * s);
    assert((xc + zs) * (xc + zs) == xc * xc + 2 * (xc * zs) + zs * zs) by (nonlinear_arith);
    assert((zc - xs) * (zc - xs) == zc * zc - 2 * (zc * xs) + xs * xs) by (nonlinear_arith);
    assert(xc * zs == zc * xs) by (nonlinear_arith)
        requires
            xc == x * c,
            zs == z * s,
            zc == z * c,
            xs == x * s,
    ;
    assert(xc * xc == (x * x) * (c * c)) by (nonlinear_arith)
        requires
            xc == x * c,
    ;
    assert(zs * zs == (z * z) * (s * s)) by (nonlinear_arith)
        requires
            zs == z * s,
    ;
    assert(zc * zc == (z * z) * (c * c)) by (nonlinear_arith)
        requires
            zc == z * c,
    ;
    assert(xs * xs == (x * x) * (s * s)) by (nonlinear_arith)
        requires
            xs == x * s,
    ;
    let (xx, zz, ss, cc) = (x * x, z * z, s * s, c * c);
    assert((xx + zz) * (ss + cc) == xx * ss + xx * cc + zz * ss + zz * cc) by (nonlinear_arith);
}

/// A product of numbers with eight fractional bits, rounded down: 256 times
/// the result is within 256 below the exact product of the integers.
proof fn lemma_mul_bits_near(a: i32, b: i32)
    requires
        fits_i32(a * b),
    ensures
        a * b - 256 < 256 * mul_bits(a, b) <= a * b,
{
    lemma_mul_bits_floor(a, b);
}

/// Turning about the y axis is a rotation in the x-z plane: y is kept, and
/// the squared distance from the y axis is scaled by `(s^2 + c^2) / 65536`
/// (which is 1 for a sine and cosine of the same angle), up to rounding.
pub proof fn lemma_turn_y_keeps_length(v: (i32, i32, i32), s: i32, c: i32)
    requires
        turn_y_fits(v, s, c),
    ensures
        turn_y(v, s, c).1 == v.1,
        16777216 * (turn_y(v, s, c).0 * turn_y(v, s, c).0 + turn_y(v, s, c).2 * turn_y(v, s, c).2)
            <= 257 * ((v.0 * v.0 + v.2 * v.2) * (s * s + c * c)) + 65792 * 524288,
        16777216 * (turn_y(v, s, c).0 * turn_y(v, s, c).0 + turn_y(v, s, c).2 * turn_y(v, s, c).2)
            >= 255 * ((v.0 * v.0 + v.2 * v.2) * (s * s + c * c)) - 65536 * 524288,
{
    let (x, z) = (v.0, v.2);
    lemma_mul_bits_near(x, c);
    lemma_mul_bits_near(z, s);
    lemma_mul_bits_near(z, c);
    lemma_mul_bits_near(x, s);
    let w = turn_y(v, s, c);
    let big_p = x * c + z * s;
    let big_q = z * c - x * s;
    lemma_rotation_identity(x as int, z as int, s as int, c as int);
    lemma_rounded_rotation_length(x as int, z as int, s as int, c as int, w.0 as int, w.2 as int, big_p, big_q);
}

/// Turning about the x axis is a rotation in the y-z plane: x is kept, and
/// the squared distance from the x axis is scaled by `(s^2 + c^2) / 65536`,
/// up to rounding.
pub proof fn lemma_turn_x_keeps_length(v: (i32, i32, i32), s: i32, c: i32)
    requires
        turn_x_fits(v, s, c),
    ensures
        turn_x(v, s, c).0 == v.0,
        16777216 * (turn_x(v, s, c).1 * turn_x(v, s, c).1 + turn_x(v, s, c).2 * turn_x(v, s, c).2)
            <= 257 * ((v.1 * v.1 + v.2 * v.2) * (s * s + c * c)) + 65792 * 524288,
        16777216 * (turn_x(v, s, c).1 * turn_x(v, s, c).1 + turn_x(v, s, c).2 * turn_x(v, s, c).2)
            >= 255 * ((v.1 * v.1 + v.2 * v.2) * (s * s + c * c)) - 65536 * 524288,
{
    let (y, z) = (v.1, v.2);
    lemma_mul_bits_near(y, c);
    lemma_mul_bits_near(z, s);
    lemma_mul_bits_near(y, s);
    lemma_mul_bits_near(z, c);
    let w = turn_x(v, s, c);
    let big_p = y * c - z * s;
    let big_q = y * s + z * c;
    lemma_rotation_identity(z as int, y as int, s as int, c as int);
    assert(big_q == z * c + y * s);
    assert(z * z + y * y == y * y + z * z);
    lemma_rounded_rotation_length(y as int, z as int, s as int, c as int, w.1 as int, w.2 as int, big_p, big_q);
}

/// A quarter turn about the y axis (table angle 16) takes `(x, y, z)` to
/// `(z, y, -x)`, exactly.
pub proof fn lemma_turn_y_quarter(v: (i32, i32, i32))
    requires
        -0x80_0000 < v.0 < 0x80_0000,
        -0x80_0000 < v.2 < 0x80_0000,
    ensures
        turn_y_fits(v, sine_bits(16), cosine_bits(16)),
        turn_y(v, sine_bits(16), cosine_bits(16)).0 == v.2,
        turn_y(v, sine_bits(16), cosine_bits(16)).1 == v.1,
        turn_y(v, sine_bits(16), cosine_bits(16)).2 == -v.0,
{
    assert(sine_bits(16) == 256 && cosine_bits(16) == 0) by {
        assert((16usize & 63usize) == 16usize) by (bit_vector);
        assert((32usize & 63usize) == 32usize) by (bit_vector);
        assert(SIN@[16] == 256 && SIN@[32] == 0);
    }
    lemma_times_one(v.0);
    lemma_times_one(v.2);
}

/// A quarter turn about the x axis (table angle 16) takes `(x, y, z)` to
/// `(x, -z, y)`, exactly.
pub proof fn lemma_turn_x_quarter(v: (i32, i32, i32))
    requires
        -0x80_0000 < v.1 < 0x80_0000,
        -0x80_0000 < v.2 < 0x80_0000,
    ensures
        turn_x_fits(v, sine_bits(16), cosine_bits(16)),
        turn_x(v, sine_bits(16), cosine_bits(16)).0 == v.0,
        turn_x(v, sine_bits(16), cosine_bits(16)).1 == -v.2,
        turn_x(v, sine_bits(16), cosine_bits(16)).2 == v.1,
{
    assert(sine_bits(16) == 256 && cosine_bits(16) == 0) by {
        assert((16usize & 63usize) == 16usize) by (bit_vector);
        assert((32usize & 63usize) == 32usize) by (bit_vector);
        assert(SIN@[16] == 256 && SIN@[32] == 0);
    }
    lemma_times_one(v.1);
    lemma_times_one(v.2);
}

/// Multiplying by one (256 with eight fractional bits) keeps a number, and
/// multiplying by zero gives zero.
proof fn lemma_times_one(v: i32)
    requires
        -0x80_0000 < v < 0x80_0000,
    ensures
        fits_i32(v * 256),
        mul_bits(v, 256) == v,
        fits_i32(v * 0),
        mul_bits(v, 0) == 0,
{
    lemma_mul_bits_floor(v, 256);
    lemma_mul_bits_floor(v, 0);
}

/// The squared distance of a point from the cube's centre (in units with
/// eight fractional bits, so 65536 per square unit).
pub open spec fn distance_squared(v: (i32, i32, i32)) -> int {
    v.0 * v.0 + v.1 * v.1 + v.2 * v.2
}

/// Every frame turns the cube rigidly: each corner of every frame is the
/// perspective image of a point whose distance from the cube's centre is
/// that of a corner, 20 * sqrt(3) units, within 3% (the sine table and
/// the rounding of each product account for less than that).
pub proof fn lemma_frame_corners_on_sphere(angle: usize, i: int)
    requires
        0 <= i < 8,
    ensures
        frame_point(angle, i) == projected(frame_corner(angle, i)),
        76_283_904 <= distance_squared(frame_corner(angle, i)) <= 81_002_496,
{
    let v = cube_corner(i);
    let a2 = (angle.wrapping_mul(3) / 2) as usize;
    let (s1, c1) = (sine_bits(angle), cosine_bits(angle));
    let (s2, c2) = (sine_bits(a2), cosine_bits(a2));
    lemma_sine_bounds(angle);
    lemma_sine_bounds(angle.wrapping_add(16));
    lemma_sine_bounds(a2);
    lemma_sine_bounds(a2.wrapping_add(16));
    lemma_corner_fits(v, s1, c1, s2, c2);
    lemma_sine_cosine_norm(angle);
    lemma_sine_cosine_norm(a2);
    let t1 = s1 * s1 + c1 * c1;
    let t2 = s2 * s2 + c2 * c2;
    let w = turn_y(v, s1, c1);
    let u = turn_x(w, s2, c2);
    assert(u == frame_corner(angle, i));
    lemma_turn_y_keeps_length(v, s1, c1);
    lemma_turn_x_keeps_length(w, s2, c2);
    assert(v.0 * v.0 == 26214400 && v.1 * v.1 == 26214400 && v.2 * v.2 == 26214400);
    let n1 = v.0 * v.0 + v.2 * v.2;
    assert(n1 == 52428800);
    let (w0, w1, w2) = (w.0 * w.0, w.1 * w.1, w.2 * w.2);
    let (u1, u2) = (u.1 * u.1, u.2 * u.2);
    assert(w.1 == v.1 && u.0 == w.0);
    assert(w1 == 26214400);
    let m1 = w0 + w2;
    let n2 = w1 + w2;
    let m2 = u1 + u2;
    assert(16777216 * m1 <= 257 * (n1 * t1) + 65792 * 524288);
    assert(16777216 * m1 >= 255 * (n1 * t1) - 65536 * 524288);
    assert(16777216 * m2 <= 257 * (n2 * t2) + 65792 * 524288);
    assert(16777216 * m2 >= 255 * (n2 * t2) - 65536 * 524288);
    assert(0 <= w0 && 0 <= w2) by (nonlinear_arith)
        requires
            w0 == w.0 * w.0,
            w2 == w.2 * w.2,
    ;
    assert(n2 * 65448 <= n2 * t2 <= n2 * 65773) by (nonlinear_arith)
        requires
            n2 >= 0,
            65448 <= t2 <= 65773,
    ;
    assert(distance_squared(u) == w0 + m2);
}

} // verus!
