use rand::Rng;
use simd_codecs::vector::{
    i16x8_lt, i16x8_mul_lo, i32x4_lt, i8x16_max, i8x16_min, mask8x16_all, mask8x32_all, i8x16_lt, i8x16_splat, u16x16_from_u8x16, u16x8_shl, u16x8_shr,
    u64x2_zip_lo, u64x4_unzip_even, u8x16_add, u8x16_highbit_any, u8x16_splat, u8x16_sub,
    u8x16_swizzle, u8x16x2_zip_hi, u8x16x2_zip_lo, u8x32_highbit_any, u8x32_splat, v128_and,
    v128_andnot, v128_bsl, v128_load, v128_load_slice, v128_or, v128_to_v64x2, v128_xor,
    v128x2_zip_hi, v128x2_zip_lo, v256_bsl, v256_from_v128x2, v256_load, v256_load_slice,
    u16x8_add, u16x8_bswap, u16x8_eq, u16x8_lt, u16x8_splat, u16x8_sub, u32x4_add, u32x4_bswap,
    u32x4_eq, u32x4_lt, u32x4_splat, u32x4_sub, u64x2_add, u64x2_bswap, u64x2_splat, u64x2_sub,
    u8x16_any_zero, u8x16_eq, u8x16_lt, u8x16_max, u8x16_min, u8x16_sub_sat, v128_all_zero,
    v256_to_v128x2, Bytes16, Bytes32, V128, V256,
};

fn lane16_of(a: &[u8; 16], i: usize) -> u16 {
    u16::from_le_bytes([a[2 * i], a[2 * i + 1]])
}

fn lane32_of(a: &[u8; 16], i: usize) -> u32 {
    u32::from_le_bytes([a[4 * i], a[4 * i + 1], a[4 * i + 2], a[4 * i + 3]])
}

fn lane64_of(a: &[u8; 16], i: usize) -> u64 {
    let mut b = [0u8; 8];
    b.copy_from_slice(&a[8 * i..8 * i + 8]);
    u64::from_le_bytes(b)
}

#[test]
fn swizzle_matches_reference() {
    let mut rng = rand::thread_rng();
    for _ in 0..1000 {
        let mut table = [0u8; 16];
        let mut idx = [0u8; 16];
        rng.fill(&mut table);
        rng.fill(&mut idx);
        let r = u8x16_swizzle(V128(table), V128(idx));
        for i in 0..16 {
            let expected = if idx[i] & 0x80 != 0 {
                0
            } else {
                table[(idx[i] & 0x0f) as usize]
            };
            assert_eq!(r.0[i], expected);
        }
    }
}

#[test]
fn bitwise_and_select_ops() {
    let mut rng = rand::thread_rng();
    for _ in 0..1000 {
        let mut a = [0u8; 16];
        let mut b = [0u8; 16];
        let mut m = [0u8; 16];
        rng.fill(&mut a);
        rng.fill(&mut b);
        rng.fill(&mut m);
        let r = v128_bsl(V128(m), V128(a), V128(b));
        for i in 0..16 {
            assert_eq!(r.0[i], (a[i] & m[i]) | (b[i] & !m[i]));
        }
        let (mut aa, mut bb, mut mm) = ([0u8; 32], [0u8; 32], [0u8; 32]);
        rng.fill(&mut aa);
        rng.fill(&mut bb);
        rng.fill(&mut mm);
        let r = v256_bsl(V256(mm), V256(aa), V256(bb));
        for i in 0..32 {
            assert_eq!(r.0[i], (aa[i] & mm[i]) | (bb[i] & !mm[i]));
        }
        let r = v128_and(V128(a), V128(b));
        let s = v128_or(V128(a), V128(b));
        let t = v128_xor(V128(a), V128(b));
        let u = v128_andnot(V128(a), V128(b));
        for i in 0..16 {
            assert_eq!(r.0[i], a[i] & b[i]);
            assert_eq!(s.0[i], a[i] | b[i]);
            assert_eq!(t.0[i], a[i] ^ b[i]);
            assert_eq!(u.0[i], a[i] & !b[i]);
        }
    }
}

#[test]
fn lane_arithmetic_and_compare() {
    let mut rng = rand::thread_rng();
    for _ in 0..1000 {
        let mut a = [0u8; 16];
        let mut b = [0u8; 16];
        rng.fill(&mut a);
        rng.fill(&mut b);
        let add = u8x16_add(V128(a), V128(b));
        let sub = u8x16_sub(V128(a), V128(b));
        let lt = i8x16_lt(V128(a), V128(b));
        for i in 0..16 {
            assert_eq!(add.0[i], a[i].wrapping_add(b[i]));
            assert_eq!(sub.0[i], a[i].wrapping_sub(b[i]));
            let expected = if (a[i] as i8) < (b[i] as i8) { 0xff } else { 0 };
            assert_eq!(lt.0[i], expected);
        }
    }
}

#[test]
fn u16_shifts_little_endian() {
    let a = V128([
        0x34, 0x12, 0xff, 0x00, 0x00, 0xff, 0xab, 0xcd, 0x01, 0x00, 0x00, 0x80, 0x55, 0xaa, 0x0f,
        0xf0,
    ]);
    let shl = u16x8_shl(a, 4);
    let shr = u16x8_shr(a, 4);
    for i in 0..8 {
        let lane = (a.0[2 * i] as u16) | ((a.0[2 * i + 1] as u16) << 8);
        let l = lane << 4;
        let r = lane >> 4;
        assert_eq!(shl.0[2 * i], l as u8);
        assert_eq!(shl.0[2 * i + 1], (l >> 8) as u8);
        assert_eq!(shr.0[2 * i], r as u8);
        assert_eq!(shr.0[2 * i + 1], (r >> 8) as u8);
    }
}

#[test]
fn zip_and_unzip_lanes() {
    let mut a = [0u8; 32];
    let mut b = [0u8; 32];
    for i in 0..32 {
        a[i] = i as u8;
        b[i] = 100 + i as u8;
    }
    let lo = u8x16x2_zip_lo(V256(a), V256(b));
    let hi = u8x16x2_zip_hi(V256(a), V256(b));
    for h in 0..2 {
        for j in 0..8 {
            assert_eq!(lo.0[16 * h + 2 * j], a[16 * h + j]);
            assert_eq!(lo.0[16 * h + 2 * j + 1], b[16 * h + j]);
            assert_eq!(hi.0[16 * h + 2 * j], a[16 * h + j + 8]);
            assert_eq!(hi.0[16 * h + 2 * j + 1], b[16 * h + j + 8]);
        }
    }
    let abl = v128x2_zip_lo(V256(a), V256(b));
    let abh = v128x2_zip_hi(V256(a), V256(b));
    assert_eq!(&abl.0[..16], &a[..16]);
    assert_eq!(&abl.0[16..], &b[..16]);
    assert_eq!(&abh.0[..16], &a[16..]);
    assert_eq!(&abh.0[16..], &b[16..]);

    let e = u64x4_unzip_even(V256(a), V256(b));
    assert_eq!(&e.0[..8], &a[..8]);
    assert_eq!(&e.0[8..16], &a[16..24]);
    assert_eq!(&e.0[16..24], &b[..8]);
    assert_eq!(&e.0[24..32], &b[16..24]);

    let mut x = [0u8; 16];
    let mut y = [0u8; 16];
    for i in 0..16 {
        x[i] = i as u8;
        y[i] = 50 + i as u8;
    }
    let z = u64x2_zip_lo(V128(x), V128(y));
    assert_eq!(&z.0[..8], &x[..8]);
    assert_eq!(&z.0[8..], &y[..8]);
}

#[test]
fn loads_splats_and_halves() {
    let src: Vec<u8> = (0u8..64).collect();
    let v = v128_load_slice(&src, 5);
    assert_eq!(&v.0[..], &src[5..21]);
    let w = v256_load_slice(&src, 9);
    assert_eq!(&w.0[..], &src[9..41]);

    let b16 = Bytes16([7u8; 16]);
    assert_eq!(v128_load(&b16).0, [7u8; 16]);
    let b32 = Bytes32([9u8; 32]);
    assert_eq!(v256_load(&b32).0, [9u8; 32]);

    assert_eq!(u8x16_splat(0xab).0, [0xab; 16]);
    assert_eq!(i8x16_splat(-2).0, [0xfe; 16]);
    assert_eq!(u8x32_splat(0x11).0, [0x11; 32]);

    let mut big = [0u8; 32];
    for i in 0..32 {
        big[i] = i as u8;
    }
    let (lo, hi) = v256_to_v128x2(V256(big));
    assert_eq!(&lo.0[..], &big[..16]);
    assert_eq!(&hi.0[..], &big[16..]);
    let back = v256_from_v128x2(lo, hi);
    assert_eq!(back.0, big);

    let (l64, h64) = v128_to_v64x2(lo);
    assert_eq!(&l64.0[..], &big[..8]);
    assert_eq!(&h64.0[..], &big[8..16]);

    let widened = u16x16_from_u8x16(lo);
    for i in 0..16 {
        assert_eq!(widened.0[2 * i], big[i]);
        assert_eq!(widened.0[2 * i + 1], 0);
    }
}

#[test]
fn mask_reductions() {
    assert!(mask8x16_all(V128([0x80; 16])));
    assert!(!mask8x16_all(V128([0x7f; 16])));
    let mut v = [0xffu8; 16];
    v[9] = 0x10;
    assert!(!mask8x16_all(V128(v)));
    assert!(u8x16_highbit_any(V128(v)));
    assert!(!u8x16_highbit_any(V128([0u8; 16])));
    let mut w = [0u8; 32];
    assert!(!u8x32_highbit_any(V256(w)));
    w[31] = 0x80;
    assert!(u8x32_highbit_any(V256(w)));
    assert!(mask8x32_all(V256([0xff; 32])));
    assert!(!mask8x32_all(V256(w)));
}

#[test]
fn byte_compare_minmax_and_saturation() {
    let mut rng = rand::thread_rng();
    for _ in 0..1000 {
        let mut a = [0u8; 16];
        let mut b = [0u8; 16];
        rng.fill(&mut a);
        rng.fill(&mut b);
        let eq = u8x16_eq(V128(a), V128(b));
        let lt = u8x16_lt(V128(a), V128(b));
        let mn = u8x16_min(V128(a), V128(b));
        let mx = u8x16_max(V128(a), V128(b));
        let smn = i8x16_min(V128(a), V128(b));
        let smx = i8x16_max(V128(a), V128(b));
        let ss = u8x16_sub_sat(V128(a), V128(b));
        for i in 0..16 {
            assert_eq!(eq.0[i], if a[i] == b[i] { 0xff } else { 0 });
            assert_eq!(lt.0[i], if a[i] < b[i] { 0xff } else { 0 });
            assert_eq!(mn.0[i], a[i].min(b[i]));
            assert_eq!(mx.0[i], a[i].max(b[i]));
            assert_eq!(smn.0[i], (a[i] as i8).min(b[i] as i8) as u8);
            assert_eq!(smx.0[i], (a[i] as i8).max(b[i] as i8) as u8);
            assert_eq!(ss.0[i], a[i].saturating_sub(b[i]));
        }
    }
}

#[test]
fn wide_lane_arithmetic() {
    let mut rng = rand::thread_rng();
    for _ in 0..1000 {
        let mut a = [0u8; 16];
        let mut b = [0u8; 16];
        rng.fill(&mut a);
        rng.fill(&mut b);
        let add16 = u16x8_add(V128(a), V128(b));
        let sub16 = u16x8_sub(V128(a), V128(b));
        let mul16 = i16x8_mul_lo(V128(a), V128(b));
        for i in 0..8 {
            let (x, y) = (lane16_of(&a, i), lane16_of(&b, i));
            assert_eq!(lane16_of(&add16.0, i), x.wrapping_add(y));
            assert_eq!(lane16_of(&sub16.0, i), x.wrapping_sub(y));
            assert_eq!(lane16_of(&mul16.0, i), x.wrapping_mul(y));
            assert_eq!(
                lane16_of(&mul16.0, i) as i16,
                (x as i16).wrapping_mul(y as i16)
            );
        }
        let add32 = u32x4_add(V128(a), V128(b));
        let sub32 = u32x4_sub(V128(a), V128(b));
        for i in 0..4 {
            let (x, y) = (lane32_of(&a, i), lane32_of(&b, i));
            assert_eq!(lane32_of(&add32.0, i), x.wrapping_add(y));
            assert_eq!(lane32_of(&sub32.0, i), x.wrapping_sub(y));
        }
        let add64 = u64x2_add(V128(a), V128(b));
        let sub64 = u64x2_sub(V128(a), V128(b));
        for i in 0..2 {
            let (x, y) = (lane64_of(&a, i), lane64_of(&b, i));
            assert_eq!(lane64_of(&add64.0, i), x.wrapping_add(y));
            assert_eq!(lane64_of(&sub64.0, i), x.wrapping_sub(y));
        }
    }
}

#[test]
fn wide_lane_compares() {
    let mut rng = rand::thread_rng();
    for _ in 0..1000 {
        let mut a = [0u8; 16];
        let mut b = [0u8; 16];
        rng.fill(&mut a);
        rng.fill(&mut b);
        if rng.gen_bool(0.3) {
            b = a;
        }
        let eq16 = u16x8_eq(V128(a), V128(b));
        let lt16 = u16x8_lt(V128(a), V128(b));
        let slt16 = i16x8_lt(V128(a), V128(b));
        for i in 0..8 {
            let (x, y) = (lane16_of(&a, i), lane16_of(&b, i));
            assert_eq!(lane16_of(&eq16.0, i), if x == y { 0xffff } else { 0 });
            assert_eq!(lane16_of(&lt16.0, i), if x < y { 0xffff } else { 0 });
            let m = if (x as i16) < (y as i16) { 0xffff } else { 0 };
            assert_eq!(lane16_of(&slt16.0, i), m);
        }
        let eq32 = u32x4_eq(V128(a), V128(b));
        let lt32 = u32x4_lt(V128(a), V128(b));
        let slt32 = i32x4_lt(V128(a), V128(b));
        for i in 0..4 {
            let (x, y) = (lane32_of(&a, i), lane32_of(&b, i));
            assert_eq!(lane32_of(&eq32.0, i), if x == y { 0xffff_ffff } else { 0 });
            assert_eq!(lane32_of(&lt32.0, i), if x < y { 0xffff_ffff } else { 0 });
            let m = if (x as i32) < (y as i32) { 0xffff_ffffu32 } else { 0 };
            assert_eq!(lane32_of(&slt32.0, i), m);
        }
    }
}

#[test]
fn byteswaps_splats_and_zero_tests() {
    let mut a = [0u8; 16];
    for i in 0..16 {
        a[i] = i as u8;
    }
    let s16 = u16x8_bswap(V128(a));
    let s32 = u32x4_bswap(V128(a));
    let s64 = u64x2_bswap(V128(a));
    for i in 0..8 {
        assert_eq!(lane16_of(&s16.0, i), lane16_of(&a, i).swap_bytes());
    }
    for i in 0..4 {
        assert_eq!(lane32_of(&s32.0, i), lane32_of(&a, i).swap_bytes());
    }
    for i in 0..2 {
        assert_eq!(lane64_of(&s64.0, i), lane64_of(&a, i).swap_bytes());
    }

    let v = u16x8_splat(0xbeef);
    for i in 0..8 {
        assert_eq!(lane16_of(&v.0, i), 0xbeef);
    }
    let v = u32x4_splat(0xdead_beef);
    for i in 0..4 {
        assert_eq!(lane32_of(&v.0, i), 0xdead_beef);
    }
    let v = u64x2_splat(0x0123_4567_89ab_cdef);
    for i in 0..2 {
        assert_eq!(lane64_of(&v.0, i), 0x0123_4567_89ab_cdef);
    }

    assert!(v128_all_zero(V128([0; 16])));
    assert!(!v128_all_zero(V128(a)));
    assert!(u8x16_any_zero(V128(a)));
    assert!(!u8x16_any_zero(V128([1; 16])));
}
