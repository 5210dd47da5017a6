//! Wide hex kernels: classification, encoding and decoding of 16, 32
//! and 64 byte blocks, written against the portable vector operations
//! and proved to agree with the scalar codec specification.
//!
//! Classification uses the two-comparison range trick over biased
//! bytes; decoding adds a per-row offset selected by the high nibble
//! through a byte shuffle, then merges the two 4-bit values of each
//! 16-bit lane and gathers the even bytes.

use vstd::prelude::*;
use crate::hex::{is_hex_digit, spec_unhex, spec_hex_char, spec_hex_byte, spec_hex_decode, all_hex};
use crate::vector::{V64, V128, V256, wadd8, wsub8, slt8, lane16};
use crate::vector::{
    u8x16_splat, i8x16_splat, u8x16_sub, u8x16_add, v128_and, v128_or, v128_not, i8x16_lt,
    mask8x16_all, u8x16_highbit_any, u8x16_swizzle, u16x8_shl, u16x8_shr, v128_to_v64x2,
};
use crate::vector::{
    u8x32_splat, i8x32_splat, u8x32_sub, u8x32_add, v256_and, v256_or, v256_not, i8x32_lt,
    mask8x32_all, u8x32_highbit_any, u8x16x2_swizzle, u16x16_shl, u16x16_shr, u16x16_from_u8x16,
    v256_to_v128x2, u64x2_zip_lo, u64x4_unzip_even,
};

verus! {

/// The two biased comparisons of the wide classifier accept exactly
/// the hex digits: the per-byte correctness of the vectorised
/// classification.
pub proof fn lemma_hex_class(c: u8)
    by (bit_vector)
    ensures
        (slt8(wsub8(c, 0xb0), 0x8a) || slt8(wsub8(wsub8(c, 0xb0) & 0xdf, 0x11), 0x86))
            <==> is_hex_digit(c),
{
}

/// Facts about all-ones / all-zeros compare masks.
proof fn lemma_mask_bits(a: u8, b: u8)
    by (bit_vector)
    requires
        a == 0 || a == 0xff,
        b == 0 || b == 0xff,
    ensures
        (a | b) >= 0x80 <==> (a == 0xff || b == 0xff),
        (a | b) == 0 || (a | b) == 0xff,
        !(a | b) == 0 <==> (a == 0xff || b == 0xff),
        !(a | b) == 0 || !(a | b) == 0xff,
        !a >= 0x80 <==> a == 0,
        !a == 0 || !a == 0xff,
{
}

/// A 4-bit value passes a 16-entry shuffle index unchanged.
proof fn lemma_small_index(v: u8)
    by (bit_vector)
    requires
        v < 16,
    ensures
        v & 0x0f == v,
        v < 0x80,
{
}

/// A hex-digit table: 32 bytes holding the digit alphabet of one case
/// in each 16-byte half.
pub open spec fn is_hex_lut(t: Seq<u8>, upper: bool) -> bool {
    t.len() == 32 && forall|j: int| 0 <= j < 32 ==> t[j] == spec_hex_char((j % 16) as u8, upper)
}

/// The per-row offset added to a byte to obtain its hex value: rows 3,
/// 4 and 6 hold the digit rows of the ASCII table.
pub open spec fn spec_hex_dlut(h: u8) -> u8 {
    if h == 3 {
        0xd0
    } else if h == 4 {
        0xc9
    } else if h == 6 {
        0xa9
    } else {
        0
    }
}

/// Adding the row offset of a digit's high nibble yields its value.
proof fn lemma_hex_decode_add(c: u8)
    by (bit_vector)
    ensures
        is_hex_digit(c) ==> wadd8(spec_hex_dlut(c >> 4), c) == spec_unhex(c),
        is_hex_digit(c) ==> spec_unhex(c) < 16,
{
}

/// Byte-level view of the high-nibble extraction through a 16-bit
/// right shift by four and a low-nibble mask.
proof fn lemma_nib_hi(l: u8, h: u8)
    by (bit_vector)
    ensures
        ((((l as u16) | ((h as u16) << 8)) >> 4) as u8) & 0x0f == l >> 4,
        (((((l as u16) | ((h as u16) << 8)) >> 4) >> 8) as u8) & 0x0f == h >> 4,
        l >> 4 < 16,
        h >> 4 < 16,
{
}

/// Byte-level view of the nibble merge: shift each 16-bit lane left by
/// four, shift that right by twelve, and OR; the even byte then holds
/// the merged pair.
proof fn lemma_nib_merge(va: u8, vb: u8)
    by (bit_vector)
    requires
        va < 16,
        vb < 16,
    ensures
        ((((va as u16) | ((vb as u16) << 8)) << 4) as u8) | (((((va as u16) | ((vb as u16) << 8))
            << 4) >> 12) as u8) == ((va << 4) | vb),
{
}

/// The hex alphabet table for the chosen case, one copy per half.
pub fn encode_lut(case: crate::AsciiCase) -> (r: V256)
    ensures
        is_hex_lut(r@, case == crate::AsciiCase::Upper),
{
    let mut out: [u8; 32] = [0; 32];
    let mut j: usize = 0;
    while j < 32
        invariant
            0 <= j <= 32,
            forall|k: int|
                0 <= k < j ==> out@[k] == spec_hex_char((k % 16) as u8, case
                    == crate::AsciiCase::Upper),
        decreases 32 - j,
    {
        out[j] = crate::hex::hex_char((j % 16) as u8, case);
        j += 1;
    }
    V256(out)
}

/// The decode row-offset table.
fn hex_decode_lut() -> (r: V128)
    ensures
        forall|i: int| 0 <= i < 16 ==> r@[i] == spec_hex_dlut(i as u8),
{
    let mut out: [u8; 16] = [0; 16];
    let mut j: usize = 0;
    while j < 16
        invariant
            0 <= j <= 16,
            forall|k: int| 0 <= k < j ==> out@[k] == spec_hex_dlut(k as u8),
        decreases 16 - j,
    {
        out[j] = if j == 3 {
            0xd0
        } else if j == 4 {
            0xc9
        } else if j == 6 {
            0xa9
        } else {
            0
        };
        j += 1;
    }
    V128(out)
}

/// The decode row-offset table, one copy per half.
fn hex_decode_lut_x2() -> (r: V256)
    ensures
        forall|i: int| 0 <= i < 32 ==> r@[i] == spec_hex_dlut((i % 16) as u8),
{
    let mut out: [u8; 32] = [0; 32];
    let mut j: usize = 0;
    while j < 32
        invariant
            0 <= j <= 32,
            forall|k: int| 0 <= k < j ==> out@[k] == spec_hex_dlut((k % 16) as u8),
        decreases 32 - j,
    {
        out[j] = if j % 16 == 3 {
            0xd0
        } else if j % 16 == 4 {
            0xc9
        } else if j % 16 == 6 {
            0xa9
        } else {
            0
        };
        j += 1;
    }
    V256(out)
}

/// The even-byte gather table for one 16-byte half: indices 0, 2, ...,
/// 14, then zeroing indices.
fn uzp1_lut16() -> (r: V128)
    ensures
        forall|i: int|
            0 <= i < 16 ==> r@[i] == (if i < 8 {
                (2 * i) as u8
            } else {
                0x80u8
            }),
{
    let mut out: [u8; 16] = [0; 16];
    let mut j: usize = 0;
    while j < 16
        invariant
            0 <= j <= 16,
            forall|k: int|
                0 <= k < j ==> out@[k] == (if k < 8 {
                    (2 * k) as u8
                } else {
                    0x80u8
                }),
        decreases 16 - j,
    {
        out[j] = if j < 8 {
            (2 * j) as u8
        } else {
            0x80
        };
        j += 1;
    }
    V128(out)
}

/// The even-byte gather table, one copy per half.
fn uzp1_lut32() -> (r: V256)
    ensures
        forall|i: int|
            0 <= i < 32 ==> r@[i] == (if i % 16 < 8 {
                (2 * (i % 16)) as u8
            } else {
                0x80u8
            }),
{
    let mut out: [u8; 32] = [0; 32];
    let mut j: usize = 0;
    while j < 32
        invariant
            0 <= j <= 32,
            forall|k: int|
                0 <= k < j ==> out@[k] == (if k % 16 < 8 {
                    (2 * (k % 16)) as u8
                } else {
                    0x80u8
                }),
        decreases 32 - j,
    {
        out[j] = if j % 16 < 8 {
            (2 * (j % 16)) as u8
        } else {
            0x80
        };
        j += 1;
    }
    V256(out)
}

/// Wide classification of a 16-byte block: true iff every byte is a
/// hex digit of either case.
pub fn check_ascii16(x: V128) -> (r: bool)
    ensures
        r <==> all_hex(x@),
{
    let x1 = u8x16_sub(x, u8x16_splat(0xb0));
    let x2 = v128_and(x1, u8x16_splat(0xdf));
    let x3 = u8x16_sub(x2, u8x16_splat(0x11));
    let x4 = i8x16_lt(x1, i8x16_splat(-118));
    let x5 = i8x16_lt(x3, i8x16_splat(-122));
    let x6 = v128_or(x4, x5);
    proof {
        assert(-118i8 as u8 == 0x8a && -122i8 as u8 == 0x86) by (bit_vector);
        assert forall|i: int| 0 <= i < 16 implies (x6@[i] >= 0x80 <==> is_hex_digit(x@[i])) by {
            lemma_hex_class(x@[i]);
            lemma_mask_bits(x4@[i], x5@[i]);
        }
    }
    mask8x16_all(x6)
}

/// Wide classification of a 32-byte block: true iff every byte is a
/// hex digit of either case.
pub fn check_ascii_xn(x: V256) -> (r: bool)
    ensures
        r <==> all_hex(x@),
{
    let x1 = u8x32_sub(x, u8x32_splat(0xb0));
    let x2 = v256_and(x1, u8x32_splat(0xdf));
    let x3 = u8x32_sub(x2, u8x32_splat(0x11));
    let x4 = i8x32_lt(x1, i8x32_splat(-118));
    let x5 = i8x32_lt(x3, i8x32_splat(-122));
    let x6 = v256_or(x4, x5);
    proof {
        assert(-118i8 as u8 == 0x8a && -122i8 as u8 == 0x86) by (bit_vector);
        assert forall|i: int| 0 <= i < 32 implies (x6@[i] >= 0x80 <==> is_hex_digit(x@[i])) by {
            lemma_hex_class(x@[i]);
            lemma_mask_bits(x4@[i], x5@[i]);
        }
    }
    mask8x32_all(x6)
}

/// Encodes a 16-byte block into its 32 hex digits through the alphabet
/// table `lut`.
pub fn encode_bytes16(x: V128, lut: V256) -> (r: V256)
    ensures
        forall|up: bool|
            is_hex_lut(lut@, up) ==> (forall|i: int|
                0 <= i < 32 ==> r@[i] == spec_hex_char(crate::hex::spec_nibble(x@, i), up)),
{
    let xx = u16x16_from_u8x16(x);
    let hi = u16x16_shl(xx, 8);
    let lo = u16x16_shr(xx, 4);
    let values = v256_and(v256_or(hi, lo), u8x32_splat(0x0f));
    let r = u8x16x2_swizzle(lut, values);
    proof {
        assert forall|i: int| 0 <= i < 32 implies values@[i] == crate::hex::spec_nibble(x@, i)
            && values@[i] < 16 by {
            let p = i / 2;
            assert(i == 2 * p || i == 2 * p + 1);
            let b = x@[p];
            assert(xx@[2 * p] == b && xx@[2 * p + 1] == 0);
            assert(lane16(xx@, p) == (b as u16) | ((0u8 as u16) << 8));
            let v = (b as u16) | ((0u8 as u16) << 8);
            assert(v == b as u16 && ((v << 8) as u8) == 0 && (((v << 8) >> 8) as u8) == b && ((v
                >> 4) as u8) == (b >> 4) && (((v >> 4) >> 8) as u8) == 0 && ((0u8 | (b >> 4))
                & 0x0f) == (b >> 4) && ((b | 0u8) & 0x0f) == (b & 0x0f) && b >> 4 < 16 && b & 0x0f
                < 16) by (bit_vector)
                requires
                    v == (b as u16) | ((0u8 as u16) << 8),
            ;
        }
        assert forall|up: bool| is_hex_lut(lut@, up) implies (forall|i: int|
            0 <= i < 32 ==> r@[i] == spec_hex_char(crate::hex::spec_nibble(x@, i), up)) by {
            assert forall|i: int|
                0 <= i < 32 implies r@[i] == spec_hex_char(crate::hex::spec_nibble(x@, i), up) by {
                lemma_small_index(values@[i]);
                let idx = 16 * (i / 16) + (values@[i] & 0x0f);
                assert(idx % 16 == values@[i] as int) by {
                    vstd::arithmetic::div_mod::lemma_fundamental_div_mod_converse(
                        idx,
                        16,
                        i / 16,
                        values@[i] as int,
                    );
                }
            }
        }
    }
    r
}

/// Encodes a 32-byte block into its 64 hex digits: the first output
/// vector holds the digits of the first 16 bytes, the second the rest.
pub fn encode_bytes32(x: V256, lut: V256) -> (r: (V256, V256))
    ensures
        forall|up: bool|
            is_hex_lut(lut@, up) ==> (forall|i: int|
                0 <= i < 32 ==> r.0@[i] == spec_hex_char(crate::hex::spec_nibble(x@, i), up))
                && (forall|i: int|
                0 <= i < 32 ==> r.1@[i] == spec_hex_char(crate::hex::spec_nibble(x@, 32 + i), up)),
{
    let m = u8x32_splat(0x0f);
    let hi = v256_and(u16x16_shr(x, 4), m);
    let lo = v256_and(x, m);
    let ac = crate::vector::u8x16x2_zip_lo(hi, lo);
    let bd = crate::vector::u8x16x2_zip_hi(hi, lo);
    let ab = crate::vector::v128x2_zip_lo(ac, bd);
    let cd = crate::vector::v128x2_zip_hi(ac, bd);
    let y1 = u8x16x2_swizzle(lut, ab);
    let y2 = u8x16x2_swizzle(lut, cd);
    proof {
        assert forall|i: int| 0 <= i < 32 implies hi@[i] == (x@[i] >> 4) && lo@[i] == (x@[i]
            & 0x0f) && hi@[i] < 16 && lo@[i] < 16 by {
            let p = i / 2;
            assert(i == 2 * p || i == 2 * p + 1);
            let l = x@[2 * p];
            let h = x@[2 * p + 1];
            assert(lane16(x@, p) == (l as u16) | ((h as u16) << 8));
            lemma_nib_hi(l, h);
            assert(l & 0x0f < 16 && h & 0x0f < 16) by (bit_vector);
        }
        assert forall|i: int| 0 <= i < 32 implies ab@[i] == crate::hex::spec_nibble(x@, i)
            && ab@[i] < 16 && cd@[i] == crate::hex::spec_nibble(x@, 32 + i) && cd@[i] < 16 by {
            let p = i / 2;
            assert(i == 2 * p || i == 2 * p + 1);
            if i < 16 {
                assert(ab@[i] == ac@[i]);
                assert(cd@[i] == ac@[16 + i]);
            } else {
                assert(ab@[i] == bd@[i - 16]);
                assert(cd@[i] == bd@[i]);
            }
        }
        assert forall|up: bool| is_hex_lut(lut@, up) implies (forall|i: int|
            0 <= i < 32 ==> y1@[i] == spec_hex_char(crate::hex::spec_nibble(x@, i), up)) && (
        forall|i: int|
            0 <= i < 32 ==> y2@[i] == spec_hex_char(crate::hex::spec_nibble(x@, 32 + i), up)) by {
            assert forall|i: int|
                0 <= i < 32 implies y1@[i] == spec_hex_char(crate::hex::spec_nibble(x@, i), up)
                && y2@[i] == spec_hex_char(crate::hex::spec_nibble(x@, 32 + i), up) by {
                lemma_small_index(ab@[i]);
                lemma_small_index(cd@[i]);
                let idx1 = 16 * (i / 16) + (ab@[i] & 0x0f);
                assert(idx1 % 16 == ab@[i] as int) by {
                    vstd::arithmetic::div_mod::lemma_fundamental_div_mod_converse(
                        idx1,
                        16,
                        i / 16,
                        ab@[i] as int,
                    );
                }
                let idx2 = 16 * (i / 16) + (cd@[i] & 0x0f);
                assert(idx2 % 16 == cd@[i] as int) by {
                    vstd::arithmetic::div_mod::lemma_fundamental_div_mod_converse(
                        idx2,
                        16,
                        i / 16,
                        cd@[i] as int,
                    );
                }
            }
        }
    }
    (y1, y2)
}

/// Merges the two 4-bit values of each 16-bit lane into the lane's
/// even byte: shift left by four, shift that right by twelve, OR.
fn merge_bits(x: V128) -> (r: V128)
    ensures
        forall|p: int|
            0 <= p < 8 ==> r@[2 * p] == (((lane16(x@, p) << 4) as u8) | (((lane16(x@, p) << 4)
                >> 12) as u8)),
{
    let m1 = u16x8_shl(x, 4);
    let m2 = u16x8_shr(m1, 12);
    let mm = v128_or(m1, m2);
    proof {
        assert forall|p: int| 0 <= p < 8 implies mm@[2 * p] == (((lane16(x@, p) << 4) as u8) | (((
        lane16(x@, p) << 4) >> 12) as u8)) by {
            let v = lane16(x@, p);
            assert(m1@[2 * p] == ((v << 4) as u8) && m1@[2 * p + 1] == (((v << 4) >> 8) as u8));
            let w = (v << 4) as u8;
            let w2 = ((v << 4) >> 8) as u8;
            assert(lane16(m1@, p) == (w as u16) | ((w2 as u16) << 8));
            assert(w == (v << 4) as u8 && w2 == ((v << 4) >> 8) as u8 ==> ((((w as u16) | ((w2
                as u16) << 8)) >> 12) as u8) == (((v << 4) >> 12) as u8)) by (bit_vector);
        }
    }
    mm
}

/// The 256-bit nibble merge: as `merge_bits`, per 16-bit lane.
fn merge_bits_x2(x: V256) -> (r: V256)
    ensures
        forall|p: int|
            0 <= p < 16 ==> r@[2 * p] == (((lane16(x@, p) << 4) as u8) | (((lane16(x@, p) << 4)
                >> 12) as u8)),
{
    let m1 = u16x16_shl(x, 4);
    let m2 = u16x16_shr(m1, 12);
    let mm = v256_or(m1, m2);
    proof {
        assert forall|p: int| 0 <= p < 16 implies mm@[2 * p] == (((lane16(x@, p) << 4) as u8) | (((
        lane16(x@, p) << 4) >> 12) as u8)) by {
            let v = lane16(x@, p);
            assert(m1@[2 * p] == ((v << 4) as u8) && m1@[2 * p + 1] == (((v << 4) >> 8) as u8));
            let w = (v << 4) as u8;
            let w2 = ((v << 4) >> 8) as u8;
            assert(lane16(m1@, p) == (w as u16) | ((w2 as u16) << 8));
            assert(w == (v << 4) as u8 && w2 == ((v << 4) >> 8) as u8 ==> ((((w as u16) | ((w2
                as u16) << 8)) >> 12) as u8) == (((v << 4) >> 12) as u8)) by (bit_vector);
        }
    }
    mm
}

/// Classifies and decodes a 16-byte block: the merged decoded bytes in
/// the even lanes, and an invalid mask with all ones in each lane that
/// is not a hex digit.
fn decode16(x: V128) -> (r: (V128, V128))
    ensures
        forall|i: int| 0 <= i < 16 ==> (r.1@[i] == 0 || r.1@[i] == 0xff),
        forall|i: int| 0 <= i < 16 ==> (r.1@[i] == 0 <==> is_hex_digit(x@[i])),
        forall|i: int|
            0 <= i < 16 && i % 2 == 0 ==> (is_hex_digit(x@[i]) && is_hex_digit(x@[i + 1])
                ==> r.0@[i] == spec_hex_byte(spec_unhex(x@[i]), spec_unhex(x@[i + 1]))),
{
    let x1 = u8x16_sub(x, u8x16_splat(0xb0));
    let x2 = v128_and(x1, u8x16_splat(0xdf));
    let x3 = u8x16_sub(x2, u8x16_splat(0x11));
    let x4 = i8x16_lt(x1, i8x16_splat(-118));
    let x5 = i8x16_lt(x3, i8x16_splat(-122));
    let v = v128_or(x4, x5);
    let invalid = v128_not(v);
    let h = v128_and(u16x8_shr(x, 4), u8x16_splat(0x0f));
    let dlut = hex_decode_lut();
    let dc = u8x16_add(u8x16_swizzle(dlut, h), x);
    let mm = merge_bits(dc);
    proof {
        assert(-118i8 as u8 == 0x8a && -122i8 as u8 == 0x86) by (bit_vector);
        assert forall|i: int| 0 <= i < 16 implies (invalid@[i] == 0 || invalid@[i] == 0xff) && (
        invalid@[i] == 0 <==> is_hex_digit(x@[i])) by {
            lemma_hex_class(x@[i]);
            lemma_mask_bits(x4@[i], x5@[i]);
        }
        assert forall|i: int| 0 <= i < 16 implies h@[i] == (x@[i] >> 4) && h@[i] < 16 by {
            let p = i / 2;
            assert(i == 2 * p || i == 2 * p + 1);
            let l = x@[2 * p];
            let hh = x@[2 * p + 1];
            assert(lane16(x@, p) == (l as u16) | ((hh as u16) << 8));
            lemma_nib_hi(l, hh);
        }
        assert forall|i: int| 0 <= i < 16 && is_hex_digit(x@[i]) implies dc@[i] == spec_unhex(
            x@[i],
        ) && spec_unhex(x@[i]) < 16 by {
            lemma_small_index(h@[i]);
            lemma_hex_decode_add(x@[i]);
        }
        assert forall|i: int|
            0 <= i < 16 && i % 2 == 0 && is_hex_digit(x@[i]) && is_hex_digit(x@[i + 1])
            implies mm@[i] == spec_hex_byte(spec_unhex(x@[i]), spec_unhex(x@[i + 1])) by {
            let p = i / 2;
            assert(i == 2 * p);
            if is_hex_digit(x@[2 * p]) && is_hex_digit(x@[2 * p + 1]) {
                let va = dc@[2 * p];
                let vb = dc@[2 * p + 1];
                assert(lane16(dc@, p) == (va as u16) | ((vb as u16) << 8));
                lemma_nib_merge(va, vb);
            }
        }
    }
    (mm, invalid)
}

/// Classifies and decodes a 32-byte block, as `decode16`.
fn decode32(x: V256) -> (r: (V256, V256))
    ensures
        forall|i: int| 0 <= i < 32 ==> (r.1@[i] == 0 || r.1@[i] == 0xff),
        forall|i: int| 0 <= i < 32 ==> (r.1@[i] == 0 <==> is_hex_digit(x@[i])),
        forall|i: int|
            0 <= i < 32 && i % 2 == 0 ==> (is_hex_digit(x@[i]) && is_hex_digit(x@[i + 1])
                ==> r.0@[i] == spec_hex_byte(spec_unhex(x@[i]), spec_unhex(x@[i + 1]))),
{
    let x1 = u8x32_sub(x, u8x32_splat(0xb0));
    let x2 = v256_and(x1, u8x32_splat(0xdf));
    let x3 = u8x32_sub(x2, u8x32_splat(0x11));
    let x4 = i8x32_lt(x1, i8x32_splat(-118));
    let x5 = i8x32_lt(x3, i8x32_splat(-122));
    let v = v256_or(x4, x5);
    let invalid = v256_not(v);
    let h = v256_and(u16x16_shr(x, 4), u8x32_splat(0x0f));
    let dlut = hex_decode_lut_x2();
    let dc = u8x32_add(u8x16x2_swizzle(dlut, h), x);
    let mm = merge_bits_x2(dc);
    proof {
        assert(-118i8 as u8 == 0x8a && -122i8 as u8 == 0x86) by (bit_vector);
        assert forall|i: int| 0 <= i < 32 implies (invalid@[i] == 0 || invalid@[i] == 0xff) && (
        invalid@[i] == 0 <==> is_hex_digit(x@[i])) by {
            lemma_hex_class(x@[i]);
            lemma_mask_bits(x4@[i], x5@[i]);
        }
        assert forall|i: int| 0 <= i < 32 implies h@[i] == (x@[i] >> 4) && h@[i] < 16 by {
            let p = i / 2;
            assert(i == 2 * p || i == 2 * p + 1);
            let l = x@[2 * p];
            let hh = x@[2 * p + 1];
            assert(lane16(x@, p) == (l as u16) | ((hh as u16) << 8));
            lemma_nib_hi(l, hh);
        }
        assert forall|i: int| 0 <= i < 32 && is_hex_digit(x@[i]) implies dc@[i] == spec_unhex(
            x@[i],
        ) && spec_unhex(x@[i]) < 16 by {
            lemma_small_index(h@[i]);
            let idx = 16 * (i / 16) + (h@[i] & 0x0f);
            assert(idx % 16 == h@[i] as int) by {
                vstd::arithmetic::div_mod::lemma_fundamental_div_mod_converse(
                    idx,
                    16,
                    i / 16,
                    h@[i] as int,
                );
            }
            lemma_hex_decode_add(x@[i]);
        }
        assert forall|i: int|
            0 <= i < 32 && i % 2 == 0 && is_hex_digit(x@[i]) && is_hex_digit(x@[i + 1])
            implies mm@[i] == spec_hex_byte(spec_unhex(x@[i]), spec_unhex(x@[i + 1])) by {
            let p = i / 2;
            assert(i == 2 * p);
            if is_hex_digit(x@[2 * p]) && is_hex_digit(x@[2 * p + 1]) {
                let va = dc@[2 * p];
                let vb = dc@[2 * p + 1];
                assert(lane16(dc@, p) == (va as u16) | ((vb as u16) << 8));
                lemma_nib_merge(va, vb);
            }
        }
    }
    (mm, invalid)
}

/// Decodes 16 hex digits into 8 bytes, or fails iff some byte is not a
/// hex digit.
pub fn decode_ascii16(x: V128) -> (r: Result<V64, ()>)
    ensures
        r is Ok <==> all_hex(x@),
        r matches Ok(y) ==> y@ == spec_hex_decode(x@),
{
    let (mm, invalid) = decode16(x);
    let t = u8x16_swizzle(mm, uzp1_lut16());
    let pair = v128_to_v64x2(t);
    let y = pair.0;
    if u8x16_highbit_any(invalid) {
        proof {
            let w = choose|i: int| 0 <= i < 16 && invalid@[i] >= 0x80;
            assert(!is_hex_digit(x@[w]));
        }
        return Err(());
    }
    proof {
        assert forall|i: int| 0 <= i < 16 implies is_hex_digit(x@[i]) by {
            assert(invalid@[i] < 0x80);
        }
        assert forall|p: int| 0 <= p < 8 implies y@[p] == spec_hex_decode(x@)[p] by {
            lemma_small_index((2 * p) as u8);
            assert(t@[p] == mm@[2 * p]);
            assert((2 * p) % 2 == 0 && (2 * p) + 1 == 2 * p + 1);
        }
        assert(y@ =~= spec_hex_decode(x@));
    }
    Ok(y)
}

/// Decodes 32 hex digits into 16 bytes, or fails iff some byte is not
/// a hex digit.
pub fn decode_ascii32(x: V256) -> (r: Result<V128, ()>)
    ensures
        r is Ok <==> all_hex(x@),
        r matches Ok(y) ==> y@ == spec_hex_decode(x@),
{
    let (mm, invalid) = decode32(x);
    let t = u8x16x2_swizzle(mm, uzp1_lut32());
    let halves = v256_to_v128x2(t);
    let y = u64x2_zip_lo(halves.0, halves.1);
    if u8x32_highbit_any(invalid) {
        proof {
            let w = choose|i: int| 0 <= i < 32 && invalid@[i] >= 0x80;
            assert(!is_hex_digit(x@[w]));
        }
        return Err(());
    }
    proof {
        assert forall|i: int| 0 <= i < 32 implies is_hex_digit(x@[i]) by {
            assert(invalid@[i] < 0x80);
        }
        assert forall|p: int| 0 <= p < 16 implies y@[p] == spec_hex_decode(x@)[p] by {
            assert((2 * p) % 2 == 0);
            if p < 8 {
                assert(y@[p] == t@[p]);
                lemma_small_index((2 * p) as u8);
                assert(t@[p] == mm@[16 * (p / 16) + 2 * p]);
                assert(p / 16 == 0);
            } else {
                assert(y@[p] == t@[16 + (p - 8)]);
                let i = 16 + (p - 8);
                lemma_small_index((2 * (i % 16)) as u8);
                assert(i / 16 == 1 && i % 16 == p - 8);
                assert(t@[i] == mm@[16 + 2 * (p - 8)]);
                assert(16 + 2 * (p - 8) == 2 * p);
            }
        }
        assert(y@ =~= spec_hex_decode(x@));
    }
    Ok(y)
}

/// Decodes 64 hex digits into 32 bytes, or fails iff some byte is not
/// a hex digit.
pub fn decode_ascii32x2(x: (V256, V256)) -> (r: Result<V256, ()>)
    ensures
        r is Ok <==> all_hex(x.0@) && all_hex(x.1@),
        r matches Ok(y) ==> y@ == spec_hex_decode(x.0@) + spec_hex_decode(x.1@),
{
    let (mm1, invalid1) = decode32(x.0);
    let (mm2, invalid2) = decode32(x.1);
    let invalid = v256_or(invalid1, invalid2);
    let ab = u8x16x2_swizzle(mm1, uzp1_lut32());
    let cd = u8x16x2_swizzle(mm2, uzp1_lut32());
    let y = u64x4_unzip_even(ab, cd);
    if u8x32_highbit_any(invalid) {
        proof {
            let w = choose|i: int| 0 <= i < 32 && invalid@[i] >= 0x80;
            lemma_mask_bits(invalid1@[w], invalid2@[w]);
            assert(!is_hex_digit(x.0@[w]) || !is_hex_digit(x.1@[w]));
        }
        return Err(());
    }
    proof {
        assert forall|i: int| 0 <= i < 32 implies is_hex_digit(x.0@[i]) by {
            lemma_mask_bits(invalid1@[i], invalid2@[i]);
            assert(invalid@[i] < 0x80);
        }
        assert forall|i: int| 0 <= i < 32 implies is_hex_digit(x.1@[i]) by {
            lemma_mask_bits(invalid1@[i], invalid2@[i]);
            assert(invalid@[i] < 0x80);
        }
        assert forall|j: int| 0 <= j < 32 implies y@[j] == (spec_hex_decode(x.0@) + spec_hex_decode(
            x.1@,
        ))[j] by {
            assert((2 * j) % 2 == 0 && (2 * (j - 16)) % 2 == 0);
            if j < 8 {
                assert(y@[j] == ab@[j]);
                lemma_small_index((2 * j) as u8);
                assert(j / 16 == 0);
                assert(ab@[j] == mm1@[2 * j]);
            } else if j < 16 {
                let i = j + 8;
                assert(y@[j] == ab@[i]);
                lemma_small_index((2 * (i % 16)) as u8);
                assert(i / 16 == 1 && i % 16 == j - 8);
                assert(ab@[i] == mm1@[16 + 2 * (j - 8)]);
                assert(16 + 2 * (j - 8) == 2 * j);
            } else if j < 24 {
                let i = j - 16;
                assert(y@[j] == cd@[i]);
                lemma_small_index((2 * i) as u8);
                assert(i / 16 == 0);
                assert(cd@[i] == mm2@[2 * (j - 16)]);
            } else {
                let i = j - 8;
                assert(y@[j] == cd@[i]);
                lemma_small_index((2 * (i % 16)) as u8);
                assert(i / 16 == 1 && i % 16 == j - 24);
                assert(cd@[i] == mm2@[16 + 2 * (j - 24)]);
                assert(16 + 2 * (j - 24) == 2 * (j - 16));
            }
        }
        assert(y@ =~= spec_hex_decode(x.0@) + spec_hex_decode(x.1@));
    }
    Ok(y)
}

} // verus!
