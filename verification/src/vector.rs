//! A portable lowering of the byte-vector instruction set the codec
//! kernels are written against: vectors of 16 and 32 byte lanes with
//! bitwise, lane-arithmetic, compare, shuffle and zip operations.
//!
//! Every operation is specified lane by lane, so a kernel proved
//! against these contracts computes the same bytes as any lowering
//! that meets them. Wider lanes (16-bit) are reinterpretations of the
//! same bytes, little-endian within each lane. Arithmetic wraps per
//! two's complement; the signed compare is specified through the
//! usual bias trick on unsigned bytes.

use vstd::prelude::*;

verus! {

/// A plain 16-byte block, the memory side of a 128-bit load.
#[derive(Clone, Copy, Debug)]
pub struct Bytes16(pub [u8; 16]);

/// A plain 32-byte block, the memory side of a 256-bit load.
#[derive(Clone, Copy, Debug)]
pub struct Bytes32(pub [u8; 32]);

/// A 64-bit vector of 8 byte lanes.
#[derive(Clone, Copy, Debug)]
pub struct V64(pub [u8; 8]);

/// A 128-bit vector of 16 byte lanes.
#[derive(Clone, Copy, Debug)]
pub struct V128(pub [u8; 16]);

/// A 256-bit vector of 32 byte lanes.
#[derive(Clone, Copy, Debug)]
pub struct V256(pub [u8; 32]);

impl View for Bytes16 {
    type V = Seq<u8>;

    open spec fn view(&self) -> Seq<u8> {
        self.0@
    }
}

impl View for Bytes32 {
    type V = Seq<u8>;

    open spec fn view(&self) -> Seq<u8> {
        self.0@
    }
}

impl View for V64 {
    type V = Seq<u8>;

    open spec fn view(&self) -> Seq<u8> {
        self.0@
    }
}

impl View for V128 {
    type V = Seq<u8>;

    open spec fn view(&self) -> Seq<u8> {
        self.0@
    }
}

impl View for V256 {
    type V = Seq<u8>;

    open spec fn view(&self) -> Seq<u8> {
        self.0@
    }
}

/// Wrapping byte addition.
pub open spec fn wadd8(a: u8, b: u8) -> u8 {
    if a + b > 255 {
        (a + b - 256) as u8
    } else {
        (a + b) as u8
    }
}

/// Wrapping byte subtraction.
pub open spec fn wsub8(a: u8, b: u8) -> u8 {
    if a - b < 0 {
        (a - b + 256) as u8
    } else {
        (a - b) as u8
    }
}

/// Signed byte comparison, written with the usual bias trick:
/// `(a as i8) < (b as i8)` iff the biased unsigned bytes compare so.
pub open spec fn slt8(a: u8, b: u8) -> bool {
    (a ^ 0x80) < (b ^ 0x80)
}

/// The 16-bit lane `i` of a byte sequence, little-endian.
pub open spec fn lane16(s: Seq<u8>, i: int) -> u16
    recommends
        0 <= 2 * i + 1 < s.len(),
{
    (s[2 * i] as u16) | ((s[2 * i + 1] as u16) << 8)
}

/// Lane-wise bitwise AND.
pub fn v128_and(a: V128, b: V128) -> (r: V128)
    ensures
        r@.len() == 16,
        forall|i: int| 0 <= i < 16 ==> r@[i] == (a@[i] & b@[i]),
{
    let mut out: [u8; 16] = [0; 16];
    let mut i: usize = 0;
    while i < 16
        invariant
            0 <= i <= 16,
            forall|k: int| 0 <= k < i ==> out@[k] == (a@[k] & b@[k]),
        decreases 16 - i,
    {
        out[i] = a.0[i] & b.0[i];
        i += 1;
    }
    V128(out)
}

/// Lane-wise bitwise OR.
pub fn v128_or(a: V128, b: V128) -> (r: V128)
    ensures
        r@.len() == 16,
        forall|i: int| 0 <= i < 16 ==> r@[i] == (a@[i] | b@[i]),
{
    let mut out: [u8; 16] = [0; 16];
    let mut i: usize = 0;
    while i < 16
        invariant
            0 <= i <= 16,
            forall|k: int| 0 <= k < i ==> out@[k] == (a@[k] | b@[k]),
        decreases 16 - i,
    {
        out[i] = a.0[i] | b.0[i];
        i += 1;
    }
    V128(out)
}

/// Lane-wise bitwise XOR.
pub fn v128_xor(a: V128, b: V128) -> (r: V128)
    ensures
        r@.len() == 16,
        forall|i: int| 0 <= i < 16 ==> r@[i] == (a@[i] ^ b@[i]),
{
    let mut out: [u8; 16] = [0; 16];
    let mut i: usize = 0;
    while i < 16
        invariant
            0 <= i <= 16,
            forall|k: int| 0 <= k < i ==> out@[k] == (a@[k] ^ b@[k]),
        decreases 16 - i,
    {
        out[i] = a.0[i] ^ b.0[i];
        i += 1;
    }
    V128(out)
}

/// Lane-wise AND of `a` with the complement of `b`.
pub fn v128_andnot(a: V128, b: V128) -> (r: V128)
    ensures
        r@.len() == 16,
        forall|i: int| 0 <= i < 16 ==> r@[i] == (a@[i] & !b@[i]),
{
    let mut out: [u8; 16] = [0; 16];
    let mut i: usize = 0;
    while i < 16
        invariant
            0 <= i <= 16,
            forall|k: int| 0 <= k < i ==> out@[k] == (a@[k] & !b@[k]),
        decreases 16 - i,
    {
        out[i] = a.0[i] & !b.0[i];
        i += 1;
    }
    V128(out)
}

/// Lane-wise bitwise complement.
pub fn v128_not(a: V128) -> (r: V128)
    ensures
        r@.len() == 16,
        forall|i: int| 0 <= i < 16 ==> r@[i] == !a@[i],
{
    let mut out: [u8; 16] = [0; 16];
    let mut i: usize = 0;
    while i < 16
        invariant
            0 <= i <= 16,
            forall|k: int| 0 <= k < i ==> out@[k] == !a@[k],
        decreases 16 - i,
    {
        out[i] = !a.0[i];
        i += 1;
    }
    V128(out)
}

/// Lane-wise wrapping byte addition.
pub fn u8x16_add(a: V128, b: V128) -> (r: V128)
    ensures
        r@.len() == 16,
        forall|i: int| 0 <= i < 16 ==> r@[i] == wadd8(a@[i], b@[i]),
{
    let mut out: [u8; 16] = [0; 16];
    let mut i: usize = 0;
    while i < 16
        invariant
            0 <= i <= 16,
            forall|k: int| 0 <= k < i ==> out@[k] == wadd8(a@[k], b@[k]),
        decreases 16 - i,
    {
        out[i] = a.0[i].wrapping_add(b.0[i]);
        i += 1;
    }
    V128(out)
}

/// Lane-wise wrapping byte subtraction.
pub fn u8x16_sub(a: V128, b: V128) -> (r: V128)
    ensures
        r@.len() == 16,
        forall|i: int| 0 <= i < 16 ==> r@[i] == wsub8(a@[i], b@[i]),
{
    let mut out: [u8; 16] = [0; 16];
    let mut i: usize = 0;
    while i < 16
        invariant
            0 <= i <= 16,
            forall|k: int| 0 <= k < i ==> out@[k] == wsub8(a@[k], b@[k]),
        decreases 16 - i,
    {
        out[i] = a.0[i].wrapping_sub(b.0[i]);
        i += 1;
    }
    V128(out)
}

/// Lane-wise signed compare: all ones where `a < b` as signed\n/// bytes, all zeros elsewhere.
pub fn i8x16_lt(a: V128, b: V128) -> (r: V128)
    ensures
        r@.len() == 16,
        forall|i: int| 0 <= i < 16 ==> r@[i] == (if slt8(a@[i], b@[i]) {
            0xffu8
        } else {
            0u8
        }),
{
    let mut out: [u8; 16] = [0; 16];
    let mut i: usize = 0;
    while i < 16
        invariant
            0 <= i <= 16,
            forall|k: int| 0 <= k < i ==> out@[k] == (if slt8(a@[k], b@[k]) {
            0xffu8
        } else {
            0u8
        }),
        decreases 16 - i,
    {
        out[i] = if (a.0[i] ^ 0x80) < (b.0[i] ^ 0x80) {
            0xff
        } else {
            0
        };
        i += 1;
    }
    V128(out)
}

/// Broadcasts one byte to every lane.
pub fn u8x16_splat(x: u8) -> (r: V128)
    ensures
        r@.len() == 16,
        forall|i: int| 0 <= i < 16 ==> r@[i] == x,
{
    V128([x; 16])
}

/// Broadcasts one signed byte to every lane.
pub fn i8x16_splat(x: i8) -> (r: V128)
    ensures
        r@.len() == 16,
        forall|i: int| 0 <= i < 16 ==> r@[i] == x as u8,
{
    V128([x as u8; 16])
}

/// Logical left shift of each 16-bit lane by `sh` bits.
pub fn u16x8_shl(a: V128, sh: u16) -> (r: V128)
    requires
        sh < 16,
    ensures
        r@.len() == 16,
        forall|i: int|
            0 <= i < 8 ==> r@[2 * i] == ((lane16(a@, i) << sh) as u8) && r@[2 * i + 1] == (((
            lane16(a@, i) << sh) >> 8) as u8),
{
    let mut out: [u8; 16] = [0; 16];
    let mut i: usize = 0;
    while i < 8
        invariant
            0 <= i <= 8,
            sh < 16,
            forall|k: int|
                0 <= k < i ==> out@[2 * k] == ((lane16(a@, k) << sh) as u8) && out@[2 * k + 1]
                    == (((lane16(a@, k) << sh) >> 8) as u8),
        decreases 8 - i,
    {
        let v: u16 = (a.0[2 * i] as u16) | ((a.0[2 * i + 1] as u16) << 8);
        let w: u16 = v << sh;
        out[2 * i] = w as u8;
        out[2 * i + 1] = (w >> 8) as u8;
        i += 1;
    }
    V128(out)
}

/// Logical right shift of each 16-bit lane by `sh` bits.
pub fn u16x8_shr(a: V128, sh: u16) -> (r: V128)
    requires
        sh < 16,
    ensures
        r@.len() == 16,
        forall|i: int|
            0 <= i < 8 ==> r@[2 * i] == ((lane16(a@, i) >> sh) as u8) && r@[2 * i + 1] == (((
            lane16(a@, i) >> sh) >> 8) as u8),
{
    let mut out: [u8; 16] = [0; 16];
    let mut i: usize = 0;
    while i < 8
        invariant
            0 <= i <= 8,
            sh < 16,
            forall|k: int|
                0 <= k < i ==> out@[2 * k] == ((lane16(a@, k) >> sh) as u8) && out@[2 * k + 1]
                    == (((lane16(a@, k) >> sh) >> 8) as u8),
        decreases 8 - i,
    {
        let v: u16 = (a.0[2 * i] as u16) | ((a.0[2 * i + 1] as u16) << 8);
        let w: u16 = v >> sh;
        out[2 * i] = w as u8;
        out[2 * i + 1] = (w >> 8) as u8;
        i += 1;
    }
    V128(out)
}

/// Lane-wise bitwise AND.
pub fn v256_and(a: V256, b: V256) -> (r: V256)
    ensures
        r@.len() == 32,
        forall|i: int| 0 <= i < 32 ==> r@[i] == (a@[i] & b@[i]),
{
    let mut out: [u8; 32] = [0; 32];
    let mut i: usize = 0;
    while i < 32
        invariant
            0 <= i <= 32,
            forall|k: int| 0 <= k < i ==> out@[k] == (a@[k] & b@[k]),
        decreases 32 - i,
    {
        out[i] = a.0[i] & b.0[i];
        i += 1;
    }
    V256(out)
}

/// Lane-wise bitwise OR.
pub fn v256_or(a: V256, b: V256) -> (r: V256)
    ensures
        r@.len() == 32,
        forall|i: int| 0 <= i < 32 ==> r@[i] == (a@[i] | b@[i]),
{
    let mut out: [u8; 32] = [0; 32];
    let mut i: usize = 0;
    while i < 32
        invariant
            0 <= i <= 32,
            forall|k: int| 0 <= k < i ==> out@[k] == (a@[k] | b@[k]),
        decreases 32 - i,
    {
        out[i] = a.0[i] | b.0[i];
        i += 1;
    }
    V256(out)
}

/// Lane-wise bitwise complement.
pub fn v256_not(a: V256) -> (r: V256)
    ensures
        r@.len() == 32,
        forall|i: int| 0 <= i < 32 ==> r@[i] == !a@[i],
{
    let mut out: [u8; 32] = [0; 32];
    let mut i: usize = 0;
    while i < 32
        invariant
            0 <= i <= 32,
            forall|k: int| 0 <= k < i ==> out@[k] == !a@[k],
        decreases 32 - i,
    {
        out[i] = !a.0[i];
        i += 1;
    }
    V256(out)
}

/// Lane-wise wrapping byte addition.
pub fn u8x32_add(a: V256, b: V256) -> (r: V256)
    ensures
        r@.len() == 32,
        forall|i: int| 0 <= i < 32 ==> r@[i] == wadd8(a@[i], b@[i]),
{
    let mut out: [u8; 32] = [0; 32];
    let mut i: usize = 0;
    while i < 32
        invariant
            0 <= i <= 32,
            forall|k: int| 0 <= k < i ==> out@[k] == wadd8(a@[k], b@[k]),
        decreases 32 - i,
    {
        out[i] = a.0[i].wrapping_add(b.0[i]);
        i += 1;
    }
    V256(out)
}

/// Lane-wise wrapping byte subtraction.
pub fn u8x32_sub(a: V256, b: V256) -> (r: V256)
    ensures
        r@.len() == 32,
        forall|i: int| 0 <= i < 32 ==> r@[i] == wsub8(a@[i], b@[i]),
{
    let mut out: [u8; 32] = [0; 32];
    let mut i: usize = 0;
    while i < 32
        invariant
            0 <= i <= 32,
            forall|k: int| 0 <= k < i ==> out@[k] == wsub8(a@[k], b@[k]),
        decreases 32 - i,
    {
        out[i] = a.0[i].wrapping_sub(b.0[i]);
        i += 1;
    }
    V256(out)
}

/// Lane-wise signed compare: all ones where `a < b` as signed\n/// bytes, all zeros elsewhere.
pub fn i8x32_lt(a: V256, b: V256) -> (r: V256)
    ensures
        r@.len() == 32,
        forall|i: int| 0 <= i < 32 ==> r@[i] == (if slt8(a@[i], b@[i]) {
            0xffu8
        } else {
            0u8
        }),
{
    let mut out: [u8; 32] = [0; 32];
    let mut i: usize = 0;
    while i < 32
        invariant
            0 <= i <= 32,
            forall|k: int| 0 <= k < i ==> out@[k] == (if slt8(a@[k], b@[k]) {
            0xffu8
        } else {
            0u8
        }),
        decreases 32 - i,
    {
        out[i] = if (a.0[i] ^ 0x80) < (b.0[i] ^ 0x80) {
            0xff
        } else {
            0
        };
        i += 1;
    }
    V256(out)
}

/// Broadcasts one byte to every lane.
pub fn u8x32_splat(x: u8) -> (r: V256)
    ensures
        r@.len() == 32,
        forall|i: int| 0 <= i < 32 ==> r@[i] == x,
{
    V256([x; 32])
}

/// Broadcasts one signed byte to every lane.
pub fn i8x32_splat(x: i8) -> (r: V256)
    ensures
        r@.len() == 32,
        forall|i: int| 0 <= i < 32 ==> r@[i] == x as u8,
{
    V256([x as u8; 32])
}

/// Logical left shift of each 16-bit lane by `sh` bits.
pub fn u16x16_shl(a: V256, sh: u16) -> (r: V256)
    requires
        sh < 16,
    ensures
        r@.len() == 32,
        forall|i: int|
            0 <= i < 16 ==> r@[2 * i] == ((lane16(a@, i) << sh) as u8) && r@[2 * i + 1] == (((
            lane16(a@, i) << sh) >> 8) as u8),
{
    let mut out: [u8; 32] = [0; 32];
    let mut i: usize = 0;
    while i < 16
        invariant
            0 <= i <= 16,
            sh < 16,
            forall|k: int|
                0 <= k < i ==> out@[2 * k] == ((lane16(a@, k) << sh) as u8) && out@[2 * k + 1]
                    == (((lane16(a@, k) << sh) >> 8) as u8),
        decreases 16 - i,
    {
        let v: u16 = (a.0[2 * i] as u16) | ((a.0[2 * i + 1] as u16) << 8);
        let w: u16 = v << sh;
        out[2 * i] = w as u8;
        out[2 * i + 1] = (w >> 8) as u8;
        i += 1;
    }
    V256(out)
}

/// Logical right shift of each 16-bit lane by `sh` bits.
pub fn u16x16_shr(a: V256, sh: u16) -> (r: V256)
    requires
        sh < 16,
    ensures
        r@.len() == 32,
        forall|i: int|
            0 <= i < 16 ==> r@[2 * i] == ((lane16(a@, i) >> sh) as u8) && r@[2 * i + 1] == (((
            lane16(a@, i) >> sh) >> 8) as u8),
{
    let mut out: [u8; 32] = [0; 32];
    let mut i: usize = 0;
    while i < 16
        invariant
            0 <= i <= 16,
            sh < 16,
            forall|k: int|
                0 <= k < i ==> out@[2 * k] == ((lane16(a@, k) >> sh) as u8) && out@[2 * k + 1]
                    == (((lane16(a@, k) >> sh) >> 8) as u8),
        decreases 16 - i,
    {
        let v: u16 = (a.0[2 * i] as u16) | ((a.0[2 * i + 1] as u16) << 8);
        let w: u16 = v >> sh;
        out[2 * i] = w as u8;
        out[2 * i + 1] = (w >> 8) as u8;
        i += 1;
    }
    V256(out)
}

/// PSHUFB-style byte shuffle: each output lane takes `table[idx & 15]`,
/// or zero when the index byte has its high bit set.
pub fn u8x16_swizzle(table: V128, idx: V128) -> (r: V128)
    ensures
        r@.len() == 16,
        forall|i: int|
            0 <= i < 16 ==> r@[i] == (if idx@[i] >= 0x80 {
                0u8
            } else {
                table@[(idx@[i] & 0x0f) as int]
            }),
{
    let mut out: [u8; 16] = [0; 16];
    let mut i: usize = 0;
    while i < 16
        invariant
            0 <= i <= 16,
            forall|k: int|
                0 <= k < i ==> out@[k] == (if idx@[k] >= 0x80 {
                    0u8
                } else {
                    table@[(idx@[k] & 0x0f) as int]
                }),
        decreases 16 - i,
    {
        let j = idx.0[i];
        if j >= 0x80 {
            out[i] = 0;
        } else {
            assert(j & 0x0f < 16) by (bit_vector);
            out[i] = table.0[(j & 0x0f) as usize];
        }
        i += 1;
    }
    V128(out)
}

/// The 32-lane shuffle as two independent 16-entry lookups: lanes of
/// each 128-bit half index into that half of the table.
pub fn u8x16x2_swizzle(table: V256, idx: V256) -> (r: V256)
    ensures
        r@.len() == 32,
        forall|i: int|
            0 <= i < 32 ==> r@[i] == (if idx@[i] >= 0x80 {
                0u8
            } else {
                table@[16 * (i / 16) + (idx@[i] & 0x0f)]
            }),
{
    let mut out: [u8; 32] = [0; 32];
    let mut i: usize = 0;
    while i < 32
        invariant
            0 <= i <= 32,
            forall|k: int|
                0 <= k < i ==> out@[k] == (if idx@[k] >= 0x80 {
                    0u8
                } else {
                    table@[16 * (k / 16) + (idx@[k] & 0x0f)]
                }),
        decreases 32 - i,
    {
        let j = idx.0[i];
        if j >= 0x80 {
            out[i] = 0;
        } else {
            assert(j & 0x0f < 16) by (bit_vector);
            let base = if i < 16 {
                0
            } else {
                16
            };
            assert(base == 16 * (i as int / 16));
            out[i] = table.0[base + (j & 0x0f) as usize];
        }
        i += 1;
    }
    V256(out)
}

/// Interleaves the low 8 lanes of each 128-bit half of `a` with those
/// of `b`: output lane `i` is lane `16*(i/16) + (i%16)/2` of `a` when
/// `i` is even, of `b` when `i` is odd.
pub fn u8x16x2_zip_lo(a: V256, b: V256) -> (r: V256)
    ensures
        r@.len() == 32,
        forall|i: int|
            0 <= i < 32 ==> r@[i] == (if i % 2 == 0 {
                a@[16 * (i / 16) + (i % 16) / 2]
            } else {
                b@[16 * (i / 16) + (i % 16) / 2]
            }),
{
    let mut out: [u8; 32] = [0; 32];
    let mut i: usize = 0;
    while i < 32
        invariant
            0 <= i <= 32,
            forall|k: int|
                0 <= k < i ==> out@[k] == (if k % 2 == 0 {
                    a@[16 * (k / 16) + (k % 16) / 2]
                } else {
                    b@[16 * (k / 16) + (k % 16) / 2]
                }),
        decreases 32 - i,
    {
        let src = 16 * (i / 16) + (i % 16) / 2;
        if i % 2 == 0 {
            out[i] = a.0[src];
        } else {
            out[i] = b.0[src];
        }
        i += 1;
    }
    V256(out)
}

/// Interleaves the high 8 lanes of each 128-bit half of `a` with those
/// of `b`: as `u8x16x2_zip_lo`, but reading lanes `8..16` of each half.
pub fn u8x16x2_zip_hi(a: V256, b: V256) -> (r: V256)
    ensures
        r@.len() == 32,
        forall|i: int|
            0 <= i < 32 ==> r@[i] == (if i % 2 == 0 {
                a@[16 * (i / 16) + (i % 16) / 2 + 8]
            } else {
                b@[16 * (i / 16) + (i % 16) / 2 + 8]
            }),
{
    let mut out: [u8; 32] = [0; 32];
    let mut i: usize = 0;
    while i < 32
        invariant
            0 <= i <= 32,
            forall|k: int|
                0 <= k < i ==> out@[k] == (if k % 2 == 0 {
                    a@[16 * (k / 16) + (k % 16) / 2 + 8]
                } else {
                    b@[16 * (k / 16) + (k % 16) / 2 + 8]
                }),
        decreases 32 - i,
    {
        let src = 16 * (i / 16) + (i % 16) / 2 + 8;
        if i % 2 == 0 {
            out[i] = a.0[src];
        } else {
            out[i] = b.0[src];
        }
        i += 1;
    }
    V256(out)
}

/// The low 128-bit halves of `a` and `b`, side by side.
pub fn v128x2_zip_lo(a: V256, b: V256) -> (r: V256)
    ensures
        r@.len() == 32,
        forall|i: int|
            0 <= i < 32 ==> r@[i] == (if i < 16 {
                a@[i]
            } else {
                b@[i - 16]
            }),
{
    let mut out: [u8; 32] = [0; 32];
    let mut i: usize = 0;
    while i < 32
        invariant
            0 <= i <= 32,
            forall|k: int|
                0 <= k < i ==> out@[k] == (if k < 16 {
                    a@[k]
                } else {
                    b@[k - 16]
                }),
        decreases 32 - i,
    {
        if i < 16 {
            out[i] = a.0[i];
        } else {
            out[i] = b.0[i - 16];
        }
        i += 1;
    }
    V256(out)
}

/// The high 128-bit halves of `a` and `b`, side by side.
pub fn v128x2_zip_hi(a: V256, b: V256) -> (r: V256)
    ensures
        r@.len() == 32,
        forall|i: int|
            0 <= i < 32 ==> r@[i] == (if i < 16 {
                a@[i + 16]
            } else {
                b@[i]
            }),
{
    let mut out: [u8; 32] = [0; 32];
    let mut i: usize = 0;
    while i < 32
        invariant
            0 <= i <= 32,
            forall|k: int|
                0 <= k < i ==> out@[k] == (if k < 16 {
                    a@[k + 16]
                } else {
                    b@[k]
                }),
        decreases 32 - i,
    {
        if i < 16 {
            out[i] = a.0[i + 16];
        } else {
            out[i] = b.0[i];
        }
        i += 1;
    }
    V256(out)
}

/// The low 64-bit lanes of `a` and `b`, side by side.
pub fn u64x2_zip_lo(a: V128, b: V128) -> (r: V128)
    ensures
        r@.len() == 16,
        forall|i: int|
            0 <= i < 16 ==> r@[i] == (if i < 8 {
                a@[i]
            } else {
                b@[i - 8]
            }),
{
    let mut out: [u8; 16] = [0; 16];
    let mut i: usize = 0;
    while i < 16
        invariant
            0 <= i <= 16,
            forall|k: int|
                0 <= k < i ==> out@[k] == (if k < 8 {
                    a@[k]
                } else {
                    b@[k - 8]
                }),
        decreases 16 - i,
    {
        if i < 8 {
            out[i] = a.0[i];
        } else {
            out[i] = b.0[i - 8];
        }
        i += 1;
    }
    V128(out)
}

/// The even 64-bit lanes of the concatenation of `a` and `b`.
pub fn u64x4_unzip_even(a: V256, b: V256) -> (r: V256)
    ensures
        r@.len() == 32,
        forall|i: int|
            0 <= i < 32 ==> r@[i] == (if i < 8 {
                a@[i]
            } else if i < 16 {
                a@[i + 8]
            } else if i < 24 {
                b@[i - 16]
            } else {
                b@[i - 8]
            }),
{
    let mut out: [u8; 32] = [0; 32];
    let mut i: usize = 0;
    while i < 32
        invariant
            0 <= i <= 32,
            forall|k: int|
                0 <= k < i ==> out@[k] == (if k < 8 {
                    a@[k]
                } else if k < 16 {
                    a@[k + 8]
                } else if k < 24 {
                    b@[k - 16]
                } else {
                    b@[k - 8]
                }),
        decreases 32 - i,
    {
        if i < 8 {
            out[i] = a.0[i];
        } else if i < 16 {
            out[i] = a.0[i + 8];
        } else if i < 24 {
            out[i] = b.0[i - 16];
        } else {
            out[i] = b.0[i - 8];
        }
        i += 1;
    }
    V256(out)
}

/// Widens 16 byte lanes to 16-bit lanes: each even output byte holds
/// the input byte, each odd one zero.
pub fn u16x16_from_u8x16(a: V128) -> (r: V256)
    ensures
        r@.len() == 32,
        forall|i: int|
            0 <= i < 32 ==> r@[i] == (if i % 2 == 0 {
                a@[i / 2]
            } else {
                0u8
            }),
{
    let mut out: [u8; 32] = [0; 32];
    let mut i: usize = 0;
    while i < 32
        invariant
            0 <= i <= 32,
            forall|k: int|
                0 <= k < i ==> out@[k] == (if k % 2 == 0 {
                    a@[k / 2]
                } else {
                    0u8
                }),
        decreases 32 - i,
    {
        if i % 2 == 0 {
            out[i] = a.0[i / 2];
        } else {
            out[i] = 0;
        }
        i += 1;
    }
    V256(out)
}

/// True iff every lane has its high bit set.
pub fn mask8x16_all(a: V128) -> (r: bool)
    ensures
        r <==> forall|i: int| 0 <= i < 16 ==> a@[i] >= 0x80,
{
    let mut i: usize = 0;
    while i < 16
        invariant
            0 <= i <= 16,
            forall|k: int| 0 <= k < i ==> a@[k] >= 0x80,
        decreases 16 - i,
    {
        if a.0[i] < 0x80 {
            proof {
                assert(a@[i as int] < 0x80);
            }
            return false;
        }
        i += 1;
    }
    true
}

/// True iff every lane has its high bit set.
pub fn mask8x32_all(a: V256) -> (r: bool)
    ensures
        r <==> forall|i: int| 0 <= i < 32 ==> a@[i] >= 0x80,
{
    let mut i: usize = 0;
    while i < 32
        invariant
            0 <= i <= 32,
            forall|k: int| 0 <= k < i ==> a@[k] >= 0x80,
        decreases 32 - i,
    {
        if a.0[i] < 0x80 {
            proof {
                assert(a@[i as int] < 0x80);
            }
            return false;
        }
        i += 1;
    }
    true
}

/// True iff some lane has its high bit set.
pub fn u8x16_highbit_any(a: V128) -> (r: bool)
    ensures
        r <==> exists|i: int| 0 <= i < 16 && a@[i] >= 0x80,
{
    let mut i: usize = 0;
    while i < 16
        invariant
            0 <= i <= 16,
            forall|k: int| 0 <= k < i ==> a@[k] < 0x80,
        decreases 16 - i,
    {
        if a.0[i] >= 0x80 {
            proof {
                assert((i as int) < a@.len() && a@[i as int] >= 0x80);
            }
            return true;
        }
        i += 1;
    }
    false
}

/// True iff some lane has its high bit set.
pub fn u8x32_highbit_any(a: V256) -> (r: bool)
    ensures
        r <==> exists|i: int| 0 <= i < 32 && a@[i] >= 0x80,
{
    let mut i: usize = 0;
    while i < 32
        invariant
            0 <= i <= 32,
            forall|k: int| 0 <= k < i ==> a@[k] < 0x80,
        decreases 32 - i,
    {
        if a.0[i] >= 0x80 {
            proof {
                assert((i as int) < a@.len() && a@[i as int] >= 0x80);
            }
            return true;
        }
        i += 1;
    }
    false
}

/// Bit select: bits of `a` where `mask` has ones, bits of `b` elsewhere.
pub fn v128_bsl(mask: V128, a: V128, b: V128) -> (r: V128)
    ensures
        r@.len() == 16,
        forall|i: int| 0 <= i < 16 ==> r@[i] == ((a@[i] & mask@[i]) | (b@[i] & !mask@[i])),
{
    let mut out: [u8; 16] = [0; 16];
    let mut i: usize = 0;
    while i < 16
        invariant
            0 <= i <= 16,
            forall|k: int| 0 <= k < i ==> out@[k] == ((a@[k] & mask@[k]) | (b@[k] & !mask@[k])),
        decreases 16 - i,
    {
        out[i] = (a.0[i] & mask.0[i]) | (b.0[i] & !mask.0[i]);
        i += 1;
    }
    V128(out)
}

/// Bit select over 256 bits: two independent 128-bit bit selects.
pub fn v256_bsl(mask: V256, a: V256, b: V256) -> (r: V256)
    ensures
        r@.len() == 32,
        forall|i: int| 0 <= i < 32 ==> r@[i] == ((a@[i] & mask@[i]) | (b@[i] & !mask@[i])),
{
    let mut out: [u8; 32] = [0; 32];
    let mut i: usize = 0;
    while i < 32
        invariant
            0 <= i <= 32,
            forall|k: int| 0 <= k < i ==> out@[k] == ((a@[k] & mask@[k]) | (b@[k] & !mask@[k])),
        decreases 32 - i,
    {
        out[i] = (a.0[i] & mask.0[i]) | (b.0[i] & !mask.0[i]);
        i += 1;
    }
    V256(out)
}

/// Loads a vector from an aligned 16-byte block.
pub fn v128_load(src: &Bytes16) -> (r: V128)
    ensures
        r@ == src@,
{
    V128(src.0)
}

/// Loads a vector from an aligned 32-byte block.
pub fn v256_load(src: &Bytes32) -> (r: V256)
    ensures
        r@ == src@,
{
    V256(src.0)
}

/// Loads 16 bytes of a slice, starting at `off`.
pub fn v128_load_slice(s: &[u8], off: usize) -> (r: V128)
    requires
        off + 16 <= s@.len(),
    ensures
        r@.len() == 16,
        forall|i: int| 0 <= i < 16 ==> r@[i] == s@[off + i],
{
    let n = s.len();
    let mut out: [u8; 16] = [0; 16];
    let mut i: usize = 0;
    while i < 16
        invariant
            0 <= i <= 16,
            off + 16 <= n,
            n == s@.len(),
            forall|k: int| 0 <= k < i ==> out@[k] == s@[off + k],
        decreases 16 - i,
    {
        out[i] = s[off + i];
        i += 1;
    }
    V128(out)
}

/// Loads 32 bytes of a slice, starting at `off`.
pub fn v256_load_slice(s: &[u8], off: usize) -> (r: V256)
    requires
        off + 32 <= s@.len(),
    ensures
        r@.len() == 32,
        forall|i: int| 0 <= i < 32 ==> r@[i] == s@[off + i],
{
    let n = s.len();
    let mut out: [u8; 32] = [0; 32];
    let mut i: usize = 0;
    while i < 32
        invariant
            0 <= i <= 32,
            off + 32 <= n,
            n == s@.len(),
            forall|k: int| 0 <= k < i ==> out@[k] == s@[off + k],
        decreases 32 - i,
    {
        out[i] = s[off + i];
        i += 1;
    }
    V256(out)
}

/// The two 64-bit halves of a 128-bit vector.
pub fn v128_to_v64x2(a: V128) -> (r: (V64, V64))
    ensures
        r.0@.len() == 8 && r.1@.len() == 8,
        forall|i: int| 0 <= i < 8 ==> r.0@[i] == a@[i],
        forall|i: int| 0 <= i < 8 ==> r.1@[i] == a@[i + 8],
{
    let mut lo: [u8; 8] = [0; 8];
    let mut hi: [u8; 8] = [0; 8];
    let mut i: usize = 0;
    while i < 8
        invariant
            0 <= i <= 8,
            forall|k: int| 0 <= k < i ==> lo@[k] == a@[k],
            forall|k: int| 0 <= k < i ==> hi@[k] == a@[k + 8],
        decreases 8 - i,
    {
        lo[i] = a.0[i];
        hi[i] = a.0[8 + i];
        i += 1;
    }
    (V64(lo), V64(hi))
}

/// The two 128-bit halves of a 256-bit vector.
pub fn v256_to_v128x2(a: V256) -> (r: (V128, V128))
    ensures
        r.0@.len() == 16 && r.1@.len() == 16,
        forall|i: int| 0 <= i < 16 ==> r.0@[i] == a@[i],
        forall|i: int| 0 <= i < 16 ==> r.1@[i] == a@[i + 16],
{
    let mut lo: [u8; 16] = [0; 16];
    let mut hi: [u8; 16] = [0; 16];
    let mut i: usize = 0;
    while i < 16
        invariant
            0 <= i <= 16,
            forall|k: int| 0 <= k < i ==> lo@[k] == a@[k],
            forall|k: int| 0 <= k < i ==> hi@[k] == a@[k + 16],
        decreases 16 - i,
    {
        lo[i] = a.0[i];
        hi[i] = a.0[16 + i];
        i += 1;
    }
    (V128(lo), V128(hi))
}

/// A 256-bit vector from its two 128-bit halves.
pub fn v256_from_v128x2(lo: V128, hi: V128) -> (r: V256)
    ensures
        r@.len() == 32,
        forall|i: int|
            0 <= i < 32 ==> r@[i] == (if i < 16 {
                lo@[i]
            } else {
                hi@[i - 16]
            }),
{
    let mut out: [u8; 32] = [0; 32];
    let mut i: usize = 0;
    while i < 32
        invariant
            0 <= i <= 32,
            forall|k: int|
                0 <= k < i ==> out@[k] == (if k < 16 {
                    lo@[k]
                } else {
                    hi@[k - 16]
                }),
        decreases 32 - i,
    {
        if i < 16 {
            out[i] = lo.0[i];
        } else {
            out[i] = hi.0[i - 16];
        }
        i += 1;
    }
    V256(out)
}

/// Stores the 8 lanes of a vector into `dst` at `off`.
pub fn v64_store_vec(dst: &mut Vec<u8>, off: usize, v: V64)
    requires
        off + 8 <= old(dst)@.len(),
    ensures
        final(dst)@.len() == old(dst)@.len(),
        forall|k: int| 0 <= k < 8 ==> final(dst)@[off + k] == v@[k],
        forall|k: int| 0 <= k < old(dst)@.len() && !(off <= k < off + 8) ==> final(dst)@[k] == old(
            dst,
        )@[k],
{
    let n = dst.len();
    let mut i: usize = 0;
    while i < 8
        invariant
            0 <= i <= 8,
            off + 8 <= n,
            n == dst@.len(),
            dst@.len() == old(dst)@.len(),
            forall|k: int| 0 <= k < i ==> dst@[off + k] == v@[k],
            forall|k: int| 0 <= k < dst@.len() && !(off <= k < off + i) ==> dst@[k] == old(dst)@[k],
        decreases 8 - i,
    {
        dst[off + i] = v.0[i];
        i += 1;
    }
}

/// Stores the 16 lanes of a vector into `dst` at `off`.
pub fn v128_store_vec(dst: &mut Vec<u8>, off: usize, v: V128)
    requires
        off + 16 <= old(dst)@.len(),
    ensures
        final(dst)@.len() == old(dst)@.len(),
        forall|k: int| 0 <= k < 16 ==> final(dst)@[off + k] == v@[k],
        forall|k: int|
            0 <= k < old(dst)@.len() && !(off <= k < off + 16) ==> final(dst)@[k] == old(dst)@[k],
{
    let n = dst.len();
    let mut i: usize = 0;
    while i < 16
        invariant
            0 <= i <= 16,
            off + 16 <= n,
            n == dst@.len(),
            dst@.len() == old(dst)@.len(),
            forall|k: int| 0 <= k < i ==> dst@[off + k] == v@[k],
            forall|k: int| 0 <= k < dst@.len() && !(off <= k < off + i) ==> dst@[k] == old(dst)@[k],
        decreases 16 - i,
    {
        dst[off + i] = v.0[i];
        i += 1;
    }
}

/// Stores the 32 lanes of a vector into `dst` at `off`.
pub fn v256_store_vec(dst: &mut Vec<u8>, off: usize, v: V256)
    requires
        off + 32 <= old(dst)@.len(),
    ensures
        final(dst)@.len() == old(dst)@.len(),
        forall|k: int| 0 <= k < 32 ==> final(dst)@[off + k] == v@[k],
        forall|k: int|
            0 <= k < old(dst)@.len() && !(off <= k < off + 32) ==> final(dst)@[k] == old(dst)@[k],
{
    let n = dst.len();
    let mut i: usize = 0;
    while i < 32
        invariant
            0 <= i <= 32,
            off + 32 <= n,
            n == dst@.len(),
            dst@.len() == old(dst)@.len(),
            forall|k: int| 0 <= k < i ==> dst@[off + k] == v@[k],
            forall|k: int| 0 <= k < dst@.len() && !(off <= k < off + i) ==> dst@[k] == old(dst)@[k],
        decreases 32 - i,
    {
        dst[off + i] = v.0[i];
        i += 1;
    }
}

/// The 32-bit lane `i` of a byte sequence, little-endian.
pub open spec fn lane32(s: Seq<u8>, i: int) -> u32
    recommends
        0 <= 4 * i + 3 < s.len(),
{
    (s[4 * i] as u32) | ((s[4 * i + 1] as u32) << 8) | ((s[4 * i + 2] as u32) << 16) | ((s[4 * i
        + 3] as u32) << 24)
}

/// The 64-bit lane `i` of a byte sequence, little-endian.
pub open spec fn lane64(s: Seq<u8>, i: int) -> u64
    recommends
        0 <= 8 * i + 7 < s.len(),
{
    (s[8 * i] as u64) | ((s[8 * i + 1] as u64) << 8) | ((s[8 * i + 2] as u64) << 16) | ((s[8 * i
        + 3] as u64) << 24) | ((s[8 * i + 4] as u64) << 32) | ((s[8 * i + 5] as u64) << 40) | ((
    s[8 * i + 6] as u64) << 48) | ((s[8 * i + 7] as u64) << 56)
}

/// Wrapping 16-bit addition.
pub open spec fn wadd16(a: u16, b: u16) -> u16 {
    if a + b > 0xffff {
        (a + b - 0x10000) as u16
    } else {
        (a + b) as u16
    }
}

/// Wrapping 16-bit subtraction.
pub open spec fn wsub16(a: u16, b: u16) -> u16 {
    if a - b < 0 {
        (a - b + 0x10000) as u16
    } else {
        (a - b) as u16
    }
}

/// Wrapping 32-bit addition.
pub open spec fn wadd32(a: u32, b: u32) -> u32 {
    if a + b > 0xffff_ffff {
        (a + b - 0x1_0000_0000) as u32
    } else {
        (a + b) as u32
    }
}

/// Wrapping 32-bit subtraction.
pub open spec fn wsub32(a: u32, b: u32) -> u32 {
    if a - b < 0 {
        (a - b + 0x1_0000_0000) as u32
    } else {
        (a - b) as u32
    }
}

/// Wrapping 64-bit addition.
pub open spec fn wadd64(a: u64, b: u64) -> u64 {
    if a + b > 0xffff_ffff_ffff_ffff {
        (a + b - 0x1_0000_0000_0000_0000) as u64
    } else {
        (a + b) as u64
    }
}

/// Wrapping 64-bit subtraction.
pub open spec fn wsub64(a: u64, b: u64) -> u64 {
    if a - b < 0 {
        (a - b + 0x1_0000_0000_0000_0000) as u64
    } else {
        (a - b) as u64
    }
}

/// The low 16 bits of a 16-bit product; the same bits whether the
/// factors are read signed or unsigned.
pub open spec fn wmul16(a: u16, b: u16) -> u16 {
    ((a as nat * b as nat) % 0x10000) as u16
}

/// Signed 16-bit comparison through the bias trick.
pub open spec fn slt16(a: u16, b: u16) -> bool {
    (a ^ 0x8000) < (b ^ 0x8000)
}

/// Signed 32-bit comparison through the bias trick.
pub open spec fn slt32(a: u32, b: u32) -> bool {
    (a ^ 0x8000_0000) < (b ^ 0x8000_0000)
}

/// Lane-wise compare: all ones where the bytes are equal.
pub fn u8x16_eq(a: V128, b: V128) -> (r: V128)
    ensures
        r@.len() == 16,
        forall|i: int| 0 <= i < 16 ==> r@[i] == (if a@[i] == b@[i] {
            0xffu8
        } else {
            0u8
        }),
{
    let mut out: [u8; 16] = [0; 16];
    let mut i: usize = 0;
    while i < 16
        invariant
            0 <= i <= 16,
            forall|k: int| 0 <= k < i ==> out@[k] == (if a@[k] == b@[k] {
            0xffu8
        } else {
            0u8
        }),
        decreases 16 - i,
    {
        out[i] = if a.0[i] == b.0[i] {
            0xff
        } else {
            0
        };
        i += 1;
    }
    V128(out)
}

/// Lane-wise unsigned compare: all ones where `a < b`.
pub fn u8x16_lt(a: V128, b: V128) -> (r: V128)
    ensures
        r@.len() == 16,
        forall|i: int| 0 <= i < 16 ==> r@[i] == (if a@[i] < b@[i] {
            0xffu8
        } else {
            0u8
        }),
{
    let mut out: [u8; 16] = [0; 16];
    let mut i: usize = 0;
    while i < 16
        invariant
            0 <= i <= 16,
            forall|k: int| 0 <= k < i ==> out@[k] == (if a@[k] < b@[k] {
            0xffu8
        } else {
            0u8
        }),
        decreases 16 - i,
    {
        out[i] = if a.0[i] < b.0[i] {
            0xff
        } else {
            0
        };
        i += 1;
    }
    V128(out)
}

/// Lane-wise unsigned minimum.
pub fn u8x16_min(a: V128, b: V128) -> (r: V128)
    ensures
        r@.len() == 16,
        forall|i: int| 0 <= i < 16 ==> r@[i] == (if a@[i] < b@[i] {
            a@[i]
        } else {
            b@[i]
        }),
{
    let mut out: [u8; 16] = [0; 16];
    let mut i: usize = 0;
    while i < 16
        invariant
            0 <= i <= 16,
            forall|k: int| 0 <= k < i ==> out@[k] == (if a@[k] < b@[k] {
            a@[k]
        } else {
            b@[k]
        }),
        decreases 16 - i,
    {
        out[i] = if a.0[i] < b.0[i] {
            a.0[i]
        } else {
            b.0[i]
        };
        i += 1;
    }
    V128(out)
}

/// Lane-wise unsigned maximum.
pub fn u8x16_max(a: V128, b: V128) -> (r: V128)
    ensures
        r@.len() == 16,
        forall|i: int| 0 <= i < 16 ==> r@[i] == (if a@[i] > b@[i] {
            a@[i]
        } else {
            b@[i]
        }),
{
    let mut out: [u8; 16] = [0; 16];
    let mut i: usize = 0;
    while i < 16
        invariant
            0 <= i <= 16,
            forall|k: int| 0 <= k < i ==> out@[k] == (if a@[k] > b@[k] {
            a@[k]
        } else {
            b@[k]
        }),
        decreases 16 - i,
    {
        out[i] = if a.0[i] > b.0[i] {
            a.0[i]
        } else {
            b.0[i]
        };
        i += 1;
    }
    V128(out)
}

/// Lane-wise signed minimum, through the bias trick.
pub fn i8x16_min(a: V128, b: V128) -> (r: V128)
    ensures
        r@.len() == 16,
        forall|i: int| 0 <= i < 16 ==> r@[i] == (if slt8(a@[i], b@[i]) {
            a@[i]
        } else {
            b@[i]
        }),
{
    let mut out: [u8; 16] = [0; 16];
    let mut i: usize = 0;
    while i < 16
        invariant
            0 <= i <= 16,
            forall|k: int| 0 <= k < i ==> out@[k] == (if slt8(a@[k], b@[k]) {
            a@[k]
        } else {
            b@[k]
        }),
        decreases 16 - i,
    {
        out[i] = if (a.0[i] ^ 0x80) < (b.0[i] ^ 0x80) {
            a.0[i]
        } else {
            b.0[i]
        };
        i += 1;
    }
    V128(out)
}

/// Lane-wise signed maximum, through the bias trick.
pub fn i8x16_max(a: V128, b: V128) -> (r: V128)
    ensures
        r@.len() == 16,
        forall|i: int| 0 <= i < 16 ==> r@[i] == (if slt8(a@[i], b@[i]) {
            b@[i]
        } else {
            a@[i]
        }),
{
    let mut out: [u8; 16] = [0; 16];
    let mut i: usize = 0;
    while i < 16
        invariant
            0 <= i <= 16,
            forall|k: int| 0 <= k < i ==> out@[k] == (if slt8(a@[k], b@[k]) {
            b@[k]
        } else {
            a@[k]
        }),
        decreases 16 - i,
    {
        out[i] = if (a.0[i] ^ 0x80) < (b.0[i] ^ 0x80) {
            b.0[i]
        } else {
            a.0[i]
        };
        i += 1;
    }
    V128(out)
}

/// Lane-wise unsigned saturating subtraction.
pub fn u8x16_sub_sat(a: V128, b: V128) -> (r: V128)
    ensures
        r@.len() == 16,
        forall|i: int| 0 <= i < 16 ==> r@[i] == (if a@[i] < b@[i] {
            0u8
        } else {
            (a@[i] - b@[i]) as u8
        }),
{
    let mut out: [u8; 16] = [0; 16];
    let mut i: usize = 0;
    while i < 16
        invariant
            0 <= i <= 16,
            forall|k: int| 0 <= k < i ==> out@[k] == (if a@[k] < b@[k] {
            0u8
        } else {
            (a@[k] - b@[k]) as u8
        }),
        decreases 16 - i,
    {
        out[i] = if a.0[i] < b.0[i] {
            0
        } else {
            a.0[i] - b.0[i]
        };
        i += 1;
    }
    V128(out)
}

/// True iff some lane is zero.
pub fn u8x16_any_zero(a: V128) -> (r: bool)
    ensures
        r <==> exists|i: int| 0 <= i < 16 && a@[i] == 0,
{
    let mut i: usize = 0;
    while i < 16
        invariant
            0 <= i <= 16,
            forall|k: int| 0 <= k < i ==> a@[k] != 0,
        decreases 16 - i,
    {
        if a.0[i] == 0 {
            proof {
                assert((i as int) < a@.len() && a@[i as int] == 0);
            }
            return true;
        }
        i += 1;
    }
    false
}

/// True iff every lane is zero.
pub fn v128_all_zero(a: V128) -> (r: bool)
    ensures
        r <==> forall|i: int| 0 <= i < 16 ==> a@[i] == 0,
{
    let mut i: usize = 0;
    while i < 16
        invariant
            0 <= i <= 16,
            forall|k: int| 0 <= k < i ==> a@[k] == 0,
        decreases 16 - i,
    {
        if a.0[i] != 0 {
            proof {
                assert((i as int) < a@.len() && a@[i as int] != 0);
            }
            return false;
        }
        i += 1;
    }
    true
}

/// Byte swap of each 16-bit lane.
pub fn u16x8_bswap(a: V128) -> (r: V128)
    ensures
        r@.len() == 16,
        forall|i: int|
            0 <= i < 16 ==> r@[i] == (if i % 2 == 0 {
                a@[i + 1]
            } else {
                a@[i - 1]
            }),
{
    let mut out: [u8; 16] = [0; 16];
    let mut i: usize = 0;
    while i < 16
        invariant
            0 <= i <= 16,
            forall|k: int|
                0 <= k < i ==> out@[k] == (if k % 2 == 0 {
                    a@[k + 1]
                } else {
                    a@[k - 1]
                }),
        decreases 16 - i,
    {
        if i % 2 == 0 {
            out[i] = a.0[i + 1];
        } else {
            out[i] = a.0[i - 1];
        }
        i += 1;
    }
    V128(out)
}

/// Byte swap of each 32-bit lane.
pub fn u32x4_bswap(a: V128) -> (r: V128)
    ensures
        r@.len() == 16,
        forall|i: int| 0 <= i < 16 ==> r@[i] == a@[4 * (i / 4) + 3 - (i % 4)],
{
    let mut out: [u8; 16] = [0; 16];
    let mut i: usize = 0;
    while i < 16
        invariant
            0 <= i <= 16,
            forall|k: int| 0 <= k < i ==> out@[k] == a@[4 * (k / 4) + 3 - (k % 4)],
        decreases 16 - i,
    {
        out[i] = a.0[4 * (i / 4) + 3 - (i % 4)];
        i += 1;
    }
    V128(out)
}

/// Byte swap of each 64-bit lane.
pub fn u64x2_bswap(a: V128) -> (r: V128)
    ensures
        r@.len() == 16,
        forall|i: int| 0 <= i < 16 ==> r@[i] == a@[8 * (i / 8) + 7 - (i % 8)],
{
    let mut out: [u8; 16] = [0; 16];
    let mut i: usize = 0;
    while i < 16
        invariant
            0 <= i <= 16,
            forall|k: int| 0 <= k < i ==> out@[k] == a@[8 * (k / 8) + 7 - (k % 8)],
        decreases 16 - i,
    {
        out[i] = a.0[8 * (i / 8) + 7 - (i % 8)];
        i += 1;
    }
    V128(out)
}

/// Broadcasts one u16 to every 16-bit lane, little-endian.
pub fn u16x8_splat(x: u16) -> (r: V128)
    ensures
        r@.len() == 16,
        forall|i: int|
            0 <= i < 16 ==> r@[i] == (if i % 2 == 0 {
                x as u8
            } else {
                (x >> 8) as u8
            }),
{
    let mut out: [u8; 16] = [0; 16];
    let mut i: usize = 0;
    while i < 16
        invariant
            0 <= i <= 16,
            forall|k: int|
                0 <= k < i ==> out@[k] == (if k % 2 == 0 {
                    x as u8
                } else {
                    (x >> 8) as u8
                }),
        decreases 16 - i,
    {
        if i % 2 == 0 {
            out[i] = x as u8;
        } else {
            out[i] = (x >> 8) as u8;
        }
        i += 1;
    }
    V128(out)
}

/// Broadcasts one u32 to every 32-bit lane, little-endian.
pub fn u32x4_splat(x: u32) -> (r: V128)
    ensures
        r@.len() == 16,
        forall|i: int|
            0 <= i < 16 ==> r@[i] == (if i % 4 == 0 {
                x as u8
            } else if i % 4 == 1 {
                (x >> 8) as u8
            } else if i % 4 == 2 {
                (x >> 16) as u8
            } else {
                (x >> 24) as u8
            }),
{
    let mut out: [u8; 16] = [0; 16];
    let mut i: usize = 0;
    while i < 16
        invariant
            0 <= i <= 16,
            forall|k: int|
                0 <= k < i ==> out@[k] == (if k % 4 == 0 {
                    x as u8
                } else if k % 4 == 1 {
                    (x >> 8) as u8
                } else if k % 4 == 2 {
                    (x >> 16) as u8
                } else {
                    (x >> 24) as u8
                }),
        decreases 16 - i,
    {
        if i % 4 == 0 {
            out[i] = x as u8;
        } else if i % 4 == 1 {
            out[i] = (x >> 8) as u8;
        } else if i % 4 == 2 {
            out[i] = (x >> 16) as u8;
        } else {
            out[i] = (x >> 24) as u8;
        }
        i += 1;
    }
    V128(out)
}

/// Broadcasts one u64 to every 64-bit lane, little-endian.
pub fn u64x2_splat(x: u64) -> (r: V128)
    ensures
        r@.len() == 16,
        forall|i: int| 0 <= i < 16 ==> r@[i] == ((x >> (8 * ((i % 8) as u64))) as u8),
{
    let mut out: [u8; 16] = [0; 16];
    let mut i: usize = 0;
    while i < 16
        invariant
            0 <= i <= 16,
            forall|k: int| 0 <= k < i ==> out@[k] == ((x >> (8 * ((k % 8) as u64))) as u8),
        decreases 16 - i,
    {
        let sh: u64 = 8 * ((i % 8) as u64);
        out[i] = (x >> sh) as u8;
        i += 1;
    }
    V128(out)
}

/// Lane-wise wrapping 16-bit addition.
pub fn u16x8_add(a: V128, b: V128) -> (r: V128)
    ensures
        r@.len() == 16,
        forall|i: int| 0 <= i < 8 ==> r@[2 * i] == (wadd16(lane16(a@, i), lane16(b@, i)) as u8) && r@[2 * i + 1] == ((wadd16(lane16(a@, i), lane16(b@, i)) >> 8) as u8),
{
    let mut out: [u8; 16] = [0; 16];
    let mut i: usize = 0;
    while i < 8
        invariant
            0 <= i <= 8,
            forall|k: int| 0 <= k < i ==> out@[2 * k] == (wadd16(lane16(a@, k), lane16(b@, k)) as u8) && out@[2 * k + 1] == ((wadd16(lane16(a@, k), lane16(b@, k)) >> 8) as u8),
        decreases 8 - i,
    {
        let va: u16 = (a.0[2 * i] as u16) | ((a.0[2 * i + 1] as u16) << 8);
        let vb: u16 = (b.0[2 * i] as u16) | ((b.0[2 * i + 1] as u16) << 8);
        let w2: u16 = va.wrapping_add(vb);
        out[2 * i] = w2 as u8;
        out[2 * i + 1] = (w2 >> 8) as u8;
        i += 1;
    }
    V128(out)
}

/// Lane-wise wrapping 16-bit subtraction.
pub fn u16x8_sub(a: V128, b: V128) -> (r: V128)
    ensures
        r@.len() == 16,
        forall|i: int| 0 <= i < 8 ==> r@[2 * i] == (wsub16(lane16(a@, i), lane16(b@, i)) as u8) && r@[2 * i + 1] == ((wsub16(lane16(a@, i), lane16(b@, i)) >> 8) as u8),
{
    let mut out: [u8; 16] = [0; 16];
    let mut i: usize = 0;
    while i < 8
        invariant
            0 <= i <= 8,
            forall|k: int| 0 <= k < i ==> out@[2 * k] == (wsub16(lane16(a@, k), lane16(b@, k)) as u8) && out@[2 * k + 1] == ((wsub16(lane16(a@, k), lane16(b@, k)) >> 8) as u8),
        decreases 8 - i,
    {
        let va: u16 = (a.0[2 * i] as u16) | ((a.0[2 * i + 1] as u16) << 8);
        let vb: u16 = (b.0[2 * i] as u16) | ((b.0[2 * i + 1] as u16) << 8);
        let w2: u16 = va.wrapping_sub(vb);
        out[2 * i] = w2 as u8;
        out[2 * i + 1] = (w2 >> 8) as u8;
        i += 1;
    }
    V128(out)
}

/// The low 16 bits of each lane product; identical for a\n/// signed or an unsigned reading of the lanes.
pub fn i16x8_mul_lo(a: V128, b: V128) -> (r: V128)
    ensures
        r@.len() == 16,
        forall|i: int| 0 <= i < 8 ==> r@[2 * i] == (wmul16(lane16(a@, i), lane16(b@, i)) as u8) && r@[2 * i + 1] == ((wmul16(lane16(a@, i), lane16(b@, i)) >> 8) as u8),
{
    let mut out: [u8; 16] = [0; 16];
    let mut i: usize = 0;
    while i < 8
        invariant
            0 <= i <= 8,
            forall|k: int| 0 <= k < i ==> out@[2 * k] == (wmul16(lane16(a@, k), lane16(b@, k)) as u8) && out@[2 * k + 1] == ((wmul16(lane16(a@, k), lane16(b@, k)) >> 8) as u8),
        decreases 8 - i,
    {
        let va: u16 = (a.0[2 * i] as u16) | ((a.0[2 * i + 1] as u16) << 8);
        let vb: u16 = (b.0[2 * i] as u16) | ((b.0[2 * i + 1] as u16) << 8);
        let w2: u16 = va.wrapping_mul(vb);
        out[2 * i] = w2 as u8;
        out[2 * i + 1] = (w2 >> 8) as u8;
        i += 1;
    }
    V128(out)
}

/// Lane-wise wrapping 32-bit addition.
pub fn u32x4_add(a: V128, b: V128) -> (r: V128)
    ensures
        r@.len() == 16,
        forall|i: int| 0 <= i < 4 ==> r@[4 * i] == (wadd32(lane32(a@, i), lane32(b@, i)) as u8) && r@[4 * i + 1] == ((wadd32(lane32(a@, i), lane32(b@, i)) >> 8) as u8) && r@[4 * i + 2] == ((wadd32(lane32(a@, i), lane32(b@, i)) >> 16) as u8) && r@[4 * i + 3] == ((wadd32(lane32(a@, i), lane32(b@, i)) >> 24) as u8),
{
    let mut out: [u8; 16] = [0; 16];
    let mut i: usize = 0;
    while i < 4
        invariant
            0 <= i <= 4,
            forall|k: int| 0 <= k < i ==> out@[4 * k] == (wadd32(lane32(a@, k), lane32(b@, k)) as u8) && out@[4 * k + 1] == ((wadd32(lane32(a@, k), lane32(b@, k)) >> 8) as u8) && out@[4 * k + 2] == ((wadd32(lane32(a@, k), lane32(b@, k)) >> 16) as u8) && out@[4 * k + 3] == ((wadd32(lane32(a@, k), lane32(b@, k)) >> 24) as u8),
        decreases 4 - i,
    {
        let va: u32 = (a.0[4 * i] as u32) | ((a.0[4 * i + 1] as u32) << 8) | ((a.0[4 * i + 2] as u32) << 16) | ((a.0[4 * i + 3] as u32) << 24);
        let vb: u32 = (b.0[4 * i] as u32) | ((b.0[4 * i + 1] as u32) << 8) | ((b.0[4 * i + 2] as u32) << 16) | ((b.0[4 * i + 3] as u32) << 24);
        let w2: u32 = va.wrapping_add(vb);
        out[4 * i] = w2 as u8;
        out[4 * i + 1] = (w2 >> 8) as u8;
        out[4 * i + 2] = (w2 >> 16) as u8;
        out[4 * i + 3] = (w2 >> 24) as u8;
        i += 1;
    }
    V128(out)
}

/// Lane-wise wrapping 32-bit subtraction.
pub fn u32x4_sub(a: V128, b: V128) -> (r: V128)
    ensures
        r@.len() == 16,
        forall|i: int| 0 <= i < 4 ==> r@[4 * i] == (wsub32(lane32(a@, i), lane32(b@, i)) as u8) && r@[4 * i + 1] == ((wsub32(lane32(a@, i), lane32(b@, i)) >> 8) as u8) && r@[4 * i + 2] == ((wsub32(lane32(a@, i), lane32(b@, i)) >> 16) as u8) && r@[4 * i + 3] == ((wsub32(lane32(a@, i), lane32(b@, i)) >> 24) as u8),
{
    let mut out: [u8; 16] = [0; 16];
    let mut i: usize = 0;
    while i < 4
        invariant
            0 <= i <= 4,
            forall|k: int| 0 <= k < i ==> out@[4 * k] == (wsub32(lane32(a@, k), lane32(b@, k)) as u8) && out@[4 * k + 1] == ((wsub32(lane32(a@, k), lane32(b@, k)) >> 8) as u8) && out@[4 * k + 2] == ((wsub32(lane32(a@, k), lane32(b@, k)) >> 16) as u8) && out@[4 * k + 3] == ((wsub32(lane32(a@, k), lane32(b@, k)) >> 24) as u8),
        decreases 4 - i,
    {
        let va: u32 = (a.0[4 * i] as u32) | ((a.0[4 * i + 1] as u32) << 8) | ((a.0[4 * i + 2] as u32) << 16) | ((a.0[4 * i + 3] as u32) << 24);
        let vb: u32 = (b.0[4 * i] as u32) | ((b.0[4 * i + 1] as u32) << 8) | ((b.0[4 * i + 2] as u32) << 16) | ((b.0[4 * i + 3] as u32) << 24);
        let w2: u32 = va.wrapping_sub(vb);
        out[4 * i] = w2 as u8;
        out[4 * i + 1] = (w2 >> 8) as u8;
        out[4 * i + 2] = (w2 >> 16) as u8;
        out[4 * i + 3] = (w2 >> 24) as u8;
        i += 1;
    }
    V128(out)
}

/// Lane-wise wrapping 64-bit addition.
pub fn u64x2_add(a: V128, b: V128) -> (r: V128)
    ensures
        r@.len() == 16,
        forall|i: int| 0 <= i < 2 ==> r@[8 * i] == (wadd64(lane64(a@, i), lane64(b@, i)) as u8) && r@[8 * i + 1] == ((wadd64(lane64(a@, i), lane64(b@, i)) >> 8) as u8) && r@[8 * i + 2] == ((wadd64(lane64(a@, i), lane64(b@, i)) >> 16) as u8) && r@[8 * i + 3] == ((wadd64(lane64(a@, i), lane64(b@, i)) >> 24) as u8) && r@[8 * i + 4] == ((wadd64(lane64(a@, i), lane64(b@, i)) >> 32) as u8) && r@[8 * i + 5] == ((wadd64(lane64(a@, i), lane64(b@, i)) >> 40) as u8) && r@[8 * i + 6] == ((wadd64(lane64(a@, i), lane64(b@, i)) >> 48) as u8) && r@[8 * i + 7] == ((wadd64(lane64(a@, i), lane64(b@, i)) >> 56) as u8),
{
    let mut out: [u8; 16] = [0; 16];
    let mut i: usize = 0;
    while i < 2
        invariant
            0 <= i <= 2,
            forall|k: int| 0 <= k < i ==> out@[8 * k] == (wadd64(lane64(a@, k), lane64(b@, k)) as u8) && out@[8 * k + 1] == ((wadd64(lane64(a@, k), lane64(b@, k)) >> 8) as u8) && out@[8 * k + 2] == ((wadd64(lane64(a@, k), lane64(b@, k)) >> 16) as u8) && out@[8 * k + 3] == ((wadd64(lane64(a@, k), lane64(b@, k)) >> 24) as u8) && out@[8 * k + 4] == ((wadd64(lane64(a@, k), lane64(b@, k)) >> 32) as u8) && out@[8 * k + 5] == ((wadd64(lane64(a@, k), lane64(b@, k)) >> 40) as u8) && out@[8 * k + 6] == ((wadd64(lane64(a@, k), lane64(b@, k)) >> 48) as u8) && out@[8 * k + 7] == ((wadd64(lane64(a@, k), lane64(b@, k)) >> 56) as u8),
        decreases 2 - i,
    {
        let va: u64 = (a.0[8 * i] as u64) | ((a.0[8 * i + 1] as u64) << 8) | ((a.0[8 * i + 2] as u64) << 16) | ((a.0[8 * i + 3] as u64) << 24) | ((a.0[8 * i + 4] as u64) << 32) | ((a.0[8 * i + 5] as u64) << 40) | ((a.0[8 * i + 6] as u64) << 48) | ((a.0[8 * i + 7] as u64) << 56);
        let vb: u64 = (b.0[8 * i] as u64) | ((b.0[8 * i + 1] as u64) << 8) | ((b.0[8 * i + 2] as u64) << 16) | ((b.0[8 * i + 3] as u64) << 24) | ((b.0[8 * i + 4] as u64) << 32) | ((b.0[8 * i + 5] as u64) << 40) | ((b.0[8 * i + 6] as u64) << 48) | ((b.0[8 * i + 7] as u64) << 56);
        let w2: u64 = va.wrapping_add(vb);
        out[8 * i] = w2 as u8;
        out[8 * i + 1] = (w2 >> 8) as u8;
        out[8 * i + 2] = (w2 >> 16) as u8;
        out[8 * i + 3] = (w2 >> 24) as u8;
        out[8 * i + 4] = (w2 >> 32) as u8;
        out[8 * i + 5] = (w2 >> 40) as u8;
        out[8 * i + 6] = (w2 >> 48) as u8;
        out[8 * i + 7] = (w2 >> 56) as u8;
        i += 1;
    }
    V128(out)
}

/// Lane-wise wrapping 64-bit subtraction.
pub fn u64x2_sub(a: V128, b: V128) -> (r: V128)
    ensures
        r@.len() == 16,
        forall|i: int| 0 <= i < 2 ==> r@[8 * i] == (wsub64(lane64(a@, i), lane64(b@, i)) as u8) && r@[8 * i + 1] == ((wsub64(lane64(a@, i), lane64(b@, i)) >> 8) as u8) && r@[8 * i + 2] == ((wsub64(lane64(a@, i), lane64(b@, i)) >> 16) as u8) && r@[8 * i + 3] == ((wsub64(lane64(a@, i), lane64(b@, i)) >> 24) as u8) && r@[8 * i + 4] == ((wsub64(lane64(a@, i), lane64(b@, i)) >> 32) as u8) && r@[8 * i + 5] == ((wsub64(lane64(a@, i), lane64(b@, i)) >> 40) as u8) && r@[8 * i + 6] == ((wsub64(lane64(a@, i), lane64(b@, i)) >> 48) as u8) && r@[8 * i + 7] == ((wsub64(lane64(a@, i), lane64(b@, i)) >> 56) as u8),
{
    let mut out: [u8; 16] = [0; 16];
    let mut i: usize = 0;
    while i < 2
        invariant
            0 <= i <= 2,
            forall|k: int| 0 <= k < i ==> out@[8 * k] == (wsub64(lane64(a@, k), lane64(b@, k)) as u8) && out@[8 * k + 1] == ((wsub64(lane64(a@, k), lane64(b@, k)) >> 8) as u8) && out@[8 * k + 2] == ((wsub64(lane64(a@, k), lane64(b@, k)) >> 16) as u8) && out@[8 * k + 3] == ((wsub64(lane64(a@, k), lane64(b@, k)) >> 24) as u8) && out@[8 * k + 4] == ((wsub64(lane64(a@, k), lane64(b@, k)) >> 32) as u8) && out@[8 * k + 5] == ((wsub64(lane64(a@, k), lane64(b@, k)) >> 40) as u8) && out@[8 * k + 6] == ((wsub64(lane64(a@, k), lane64(b@, k)) >> 48) as u8) && out@[8 * k + 7] == ((wsub64(lane64(a@, k), lane64(b@, k)) >> 56) as u8),
        decreases 2 - i,
    {
        let va: u64 = (a.0[8 * i] as u64) | ((a.0[8 * i + 1] as u64) << 8) | ((a.0[8 * i + 2] as u64) << 16) | ((a.0[8 * i + 3] as u64) << 24) | ((a.0[8 * i + 4] as u64) << 32) | ((a.0[8 * i + 5] as u64) << 40) | ((a.0[8 * i + 6] as u64) << 48) | ((a.0[8 * i + 7] as u64) << 56);
        let vb: u64 = (b.0[8 * i] as u64) | ((b.0[8 * i + 1] as u64) << 8) | ((b.0[8 * i + 2] as u64) << 16) | ((b.0[8 * i + 3] as u64) << 24) | ((b.0[8 * i + 4] as u64) << 32) | ((b.0[8 * i + 5] as u64) << 40) | ((b.0[8 * i + 6] as u64) << 48) | ((b.0[8 * i + 7] as u64) << 56);
        let w2: u64 = va.wrapping_sub(vb);
        out[8 * i] = w2 as u8;
        out[8 * i + 1] = (w2 >> 8) as u8;
        out[8 * i + 2] = (w2 >> 16) as u8;
        out[8 * i + 3] = (w2 >> 24) as u8;
        out[8 * i + 4] = (w2 >> 32) as u8;
        out[8 * i + 5] = (w2 >> 40) as u8;
        out[8 * i + 6] = (w2 >> 48) as u8;
        out[8 * i + 7] = (w2 >> 56) as u8;
        i += 1;
    }
    V128(out)
}

/// All ones in each 16-bit lane where the lanes are equal.
pub fn u16x8_eq(a: V128, b: V128) -> (r: V128)
    ensures
        r@.len() == 16,
        forall|i: int| 0 <= i < 8 ==> r@[2 * i] == (if lane16(a@, i) == lane16(b@, i) { 0xffu8 } else { 0u8 }) && r@[2 * i + 1] == (if lane16(a@, i) == lane16(b@, i) { 0xffu8 } else { 0u8 }),
{
    let mut out: [u8; 16] = [0; 16];
    let mut i: usize = 0;
    while i < 8
        invariant
            0 <= i <= 8,
            forall|k: int| 0 <= k < i ==> out@[2 * k] == (if lane16(a@, k) == lane16(b@, k) { 0xffu8 } else { 0u8 }) && out@[2 * k + 1] == (if lane16(a@, k) == lane16(b@, k) { 0xffu8 } else { 0u8 }),
        decreases 8 - i,
    {
        let va: u16 = (a.0[2 * i] as u16) | ((a.0[2 * i + 1] as u16) << 8);
        let vb: u16 = (b.0[2 * i] as u16) | ((b.0[2 * i + 1] as u16) << 8);
        let m: u8 = if va == vb {
            0xff
        } else {
            0
        };
        out[2 * i] = m;
        out[2 * i + 1] = m;
        i += 1;
    }
    V128(out)
}

/// All ones in each 16-bit lane where `a < b` unsigned.
pub fn u16x8_lt(a: V128, b: V128) -> (r: V128)
    ensures
        r@.len() == 16,
        forall|i: int| 0 <= i < 8 ==> r@[2 * i] == (if lane16(a@, i) < lane16(b@, i) { 0xffu8 } else { 0u8 }) && r@[2 * i + 1] == (if lane16(a@, i) < lane16(b@, i) { 0xffu8 } else { 0u8 }),
{
    let mut out: [u8; 16] = [0; 16];
    let mut i: usize = 0;
    while i < 8
        invariant
            0 <= i <= 8,
            forall|k: int| 0 <= k < i ==> out@[2 * k] == (if lane16(a@, k) < lane16(b@, k) { 0xffu8 } else { 0u8 }) && out@[2 * k + 1] == (if lane16(a@, k) < lane16(b@, k) { 0xffu8 } else { 0u8 }),
        decreases 8 - i,
    {
        let va: u16 = (a.0[2 * i] as u16) | ((a.0[2 * i + 1] as u16) << 8);
        let vb: u16 = (b.0[2 * i] as u16) | ((b.0[2 * i + 1] as u16) << 8);
        let m: u8 = if va < vb {
            0xff
        } else {
            0
        };
        out[2 * i] = m;
        out[2 * i + 1] = m;
        i += 1;
    }
    V128(out)
}

/// All ones in each 16-bit lane where `a < b` signed.
pub fn i16x8_lt(a: V128, b: V128) -> (r: V128)
    ensures
        r@.len() == 16,
        forall|i: int| 0 <= i < 8 ==> r@[2 * i] == (if slt16(lane16(a@, i), lane16(b@, i)) { 0xffu8 } else { 0u8 }) && r@[2 * i + 1] == (if slt16(lane16(a@, i), lane16(b@, i)) { 0xffu8 } else { 0u8 }),
{
    let mut out: [u8; 16] = [0; 16];
    let mut i: usize = 0;
    while i < 8
        invariant
            0 <= i <= 8,
            forall|k: int| 0 <= k < i ==> out@[2 * k] == (if slt16(lane16(a@, k), lane16(b@, k)) { 0xffu8 } else { 0u8 }) && out@[2 * k + 1] == (if slt16(lane16(a@, k), lane16(b@, k)) { 0xffu8 } else { 0u8 }),
        decreases 8 - i,
    {
        let va: u16 = (a.0[2 * i] as u16) | ((a.0[2 * i + 1] as u16) << 8);
        let vb: u16 = (b.0[2 * i] as u16) | ((b.0[2 * i + 1] as u16) << 8);
        let m: u8 = if (va ^ 0x8000) < (vb ^ 0x8000) {
            0xff
        } else {
            0
        };
        out[2 * i] = m;
        out[2 * i + 1] = m;
        i += 1;
    }
    V128(out)
}

/// All ones in each 32-bit lane where the lanes are equal.
pub fn u32x4_eq(a: V128, b: V128) -> (r: V128)
    ensures
        r@.len() == 16,
        forall|i: int| 0 <= i < 4 ==> r@[4 * i] == (if lane32(a@, i) == lane32(b@, i) { 0xffu8 } else { 0u8 }) && r@[4 * i + 1] == (if lane32(a@, i) == lane32(b@, i) { 0xffu8 } else { 0u8 }) && r@[4 * i + 2] == (if lane32(a@, i) == lane32(b@, i) { 0xffu8 } else { 0u8 }) && r@[4 * i + 3] == (if lane32(a@, i) == lane32(b@, i) { 0xffu8 } else { 0u8 }),
{
    let mut out: [u8; 16] = [0; 16];
    let mut i: usize = 0;
    while i < 4
        invariant
            0 <= i <= 4,
            forall|k: int| 0 <= k < i ==> out@[4 * k] == (if lane32(a@, k) == lane32(b@, k) { 0xffu8 } else { 0u8 }) && out@[4 * k + 1] == (if lane32(a@, k) == lane32(b@, k) { 0xffu8 } else { 0u8 }) && out@[4 * k + 2] == (if lane32(a@, k) == lane32(b@, k) { 0xffu8 } else { 0u8 }) && out@[4 * k + 3] == (if lane32(a@, k) == lane32(b@, k) { 0xffu8 } else { 0u8 }),
        decreases 4 - i,
    {
        let va: u32 = (a.0[4 * i] as u32) | ((a.0[4 * i + 1] as u32) << 8) | ((a.0[4 * i + 2] as u32) << 16) | ((a.0[4 * i + 3] as u32) << 24);
        let vb: u32 = (b.0[4 * i] as u32) | ((b.0[4 * i + 1] as u32) << 8) | ((b.0[4 * i + 2] as u32) << 16) | ((b.0[4 * i + 3] as u32) << 24);
        let m: u8 = if va == vb {
            0xff
        } else {
            0
        };
        out[4 * i] = m;
        out[4 * i + 1] = m;
        out[4 * i + 2] = m;
        out[4 * i + 3] = m;
        i += 1;
    }
    V128(out)
}

/// All ones in each 32-bit lane where `a < b` unsigned.
pub fn u32x4_lt(a: V128, b: V128) -> (r: V128)
    ensures
        r@.len() == 16,
        forall|i: int| 0 <= i < 4 ==> r@[4 * i] == (if lane32(a@, i) < lane32(b@, i) { 0xffu8 } else { 0u8 }) && r@[4 * i + 1] == (if lane32(a@, i) < lane32(b@, i) { 0xffu8 } else { 0u8 }) && r@[4 * i + 2] == (if lane32(a@, i) < lane32(b@, i) { 0xffu8 } else { 0u8 }) && r@[4 * i + 3] == (if lane32(a@, i) < lane32(b@, i) { 0xffu8 } else { 0u8 }),
{
    let mut out: [u8; 16] = [0; 16];
    let mut i: usize = 0;
    while i < 4
        invariant
            0 <= i <= 4,
            forall|k: int| 0 <= k < i ==> out@[4 * k] == (if lane32(a@, k) < lane32(b@, k) { 0xffu8 } else { 0u8 }) && out@[4 * k + 1] == (if lane32(a@, k) < lane32(b@, k) { 0xffu8 } else { 0u8 }) && out@[4 * k + 2] == (if lane32(a@, k) < lane32(b@, k) { 0xffu8 } else { 0u8 }) && out@[4 * k + 3] == (if lane32(a@, k) < lane32(b@, k) { 0xffu8 } else { 0u8 }),
        decreases 4 - i,
    {
        let va: u32 = (a.0[4 * i] as u32) | ((a.0[4 * i + 1] as u32) << 8) | ((a.0[4 * i + 2] as u32) << 16) | ((a.0[4 * i + 3] as u32) << 24);
        let vb: u32 = (b.0[4 * i] as u32) | ((b.0[4 * i + 1] as u32) << 8) | ((b.0[4 * i + 2] as u32) << 16) | ((b.0[4 * i + 3] as u32) << 24);
        let m: u8 = if va < vb {
            0xff
        } else {
            0
        };
        out[4 * i] = m;
        out[4 * i + 1] = m;
        out[4 * i + 2] = m;
        out[4 * i + 3] = m;
        i += 1;
    }
    V128(out)
}

/// All ones in each 32-bit lane where `a < b` signed.
pub fn i32x4_lt(a: V128, b: V128) -> (r: V128)
    ensures
        r@.len() == 16,
        forall|i: int| 0 <= i < 4 ==> r@[4 * i] == (if slt32(lane32(a@, i), lane32(b@, i)) { 0xffu8 } else { 0u8 }) && r@[4 * i + 1] == (if slt32(lane32(a@, i), lane32(b@, i)) { 0xffu8 } else { 0u8 }) && r@[4 * i + 2] == (if slt32(lane32(a@, i), lane32(b@, i)) { 0xffu8 } else { 0u8 }) && r@[4 * i + 3] == (if slt32(lane32(a@, i), lane32(b@, i)) { 0xffu8 } else { 0u8 }),
{
    let mut out: [u8; 16] = [0; 16];
    let mut i: usize = 0;
    while i < 4
        invariant
            0 <= i <= 4,
            forall|k: int| 0 <= k < i ==> out@[4 * k] == (if slt32(lane32(a@, k), lane32(b@, k)) { 0xffu8 } else { 0u8 }) && out@[4 * k + 1] == (if slt32(lane32(a@, k), lane32(b@, k)) { 0xffu8 } else { 0u8 }) && out@[4 * k + 2] == (if slt32(lane32(a@, k), lane32(b@, k)) { 0xffu8 } else { 0u8 }) && out@[4 * k + 3] == (if slt32(lane32(a@, k), lane32(b@, k)) { 0xffu8 } else { 0u8 }),
        decreases 4 - i,
    {
        let va: u32 = (a.0[4 * i] as u32) | ((a.0[4 * i + 1] as u32) << 8) | ((a.0[4 * i + 2] as u32) << 16) | ((a.0[4 * i + 3] as u32) << 24);
        let vb: u32 = (b.0[4 * i] as u32) | ((b.0[4 * i + 1] as u32) << 8) | ((b.0[4 * i + 2] as u32) << 16) | ((b.0[4 * i + 3] as u32) << 24);
        let m: u8 = if (va ^ 0x8000_0000) < (vb ^ 0x8000_0000) {
            0xff
        } else {
            0
        };
        out[4 * i] = m;
        out[4 * i + 1] = m;
        out[4 * i + 2] = m;
        out[4 * i + 3] = m;
        i += 1;
    }
    V128(out)
}

} // verus!
