use rand::Rng;
use rand::RngCore;
use simd_codecs::hex;
use simd_codecs::vector::{V128, V256};
use simd_codecs::AsciiCase;

fn encode_to_vec(src: &[u8], case: AsciiCase) -> Vec<u8> {
    let mut buf = vec![0u8; src.len() * 2];
    let n = hex::encode(src, &mut buf, case).unwrap();
    buf.truncate(n);
    buf
}

fn decode_to_vec(src: &[u8]) -> Result<Vec<u8>, hex::Error> {
    let mut buf = vec![0u8; src.len() / 2 + 1];
    let n = hex::decode(src, &mut buf)?;
    buf.truncate(n);
    Ok(buf)
}

#[test]
fn hex_basic_vectors() {
    assert_eq!(encode_to_vec(b"\x00\xff", AsciiCase::Lower), b"00ff");
    assert_eq!(encode_to_vec(b"\x00\xff", AsciiCase::Upper), b"00FF");
    assert_eq!(decode_to_vec(b"00FF").unwrap(), vec![0u8, 255]);
    assert_eq!(decode_to_vec(b"00ff").unwrap(), vec![0u8, 255]);
    assert!(decode_to_vec(b"0g").is_err());
    assert!(decode_to_vec(b"abc").is_err());
    assert_eq!(decode_to_vec(b"").unwrap(), Vec::<u8>::new());
    let err = decode_to_vec(b"zz").unwrap_err();
    assert_eq!(err.message(), "Hex Error");
}

#[test]
fn hex_unhex_table() {
    assert_eq!(hex::unhex(b'0'), 0);
    assert_eq!(hex::unhex(b'9'), 9);
    assert_eq!(hex::unhex(b'a'), 10);
    assert_eq!(hex::unhex(b'f'), 15);
    assert_eq!(hex::unhex(b'A'), 10);
    assert_eq!(hex::unhex(b'F'), 15);
    assert_eq!(hex::unhex(b'g'), 0xff);
    assert_eq!(hex::unhex(b' '), 0xff);
}

#[test]
fn hex_alphabet_exhaustive() {
    // Exactly the twenty-two digit bytes are accepted inside a string.
    let mut accepted = 0;
    for c in 0u8..=255 {
        let input = [b'0', c];
        if hex::check(&input) {
            accepted += 1;
            assert!(c.is_ascii_hexdigit());
        } else {
            assert!(!c.is_ascii_hexdigit());
        }
    }
    assert_eq!(accepted, 22);
}

#[test]
fn hex_round_trip_all_lengths() {
    for n in 0..256 {
        let mut bytes = vec![0u8; n];
        rand::thread_rng().fill_bytes(&mut bytes);
        for case in [AsciiCase::Lower, AsciiCase::Upper] {
            let encoded = encode_to_vec(&bytes, case);
            assert_eq!(encoded.len(), 2 * n);
            assert!(hex::check(&encoded));
            assert_eq!(decode_to_vec(&encoded).unwrap(), bytes);

            let mut buf = encoded.clone();
            let k = hex::decode_inplace(&mut buf).unwrap();
            assert_eq!(&buf[..k], bytes);
        }
    }
}

#[test]
fn hex_check_agreement() {
    // check accepts exactly what decode decodes, over assorted inputs
    // long enough to cross every block width.
    let mut rng = rand::thread_rng();
    for n in 0..200 {
        let mut input = vec![0u8; n];
        for b in input.iter_mut() {
            *b = if rng.gen_bool(0.97) {
                const DIGITS: &[u8; 16] = b"0123456789abcdef";
                DIGITS[rng.gen_range(0..16)]
            } else {
                rng.gen()
            };
        }
        let mut buf = vec![0u8; n];
        let ok = hex::decode(&input, &mut buf).is_ok();
        assert_eq!(hex::check(&input), ok);
        assert_eq!(hex::check_fallback(&input).is_ok() && n % 2 == 0, ok);
    }
}

#[test]
fn hex_wide_and_scalar_agree() {
    // The wide kernels and the scalar fallback classify identically.
    let mut rng = rand::thread_rng();
    for _ in 0..1000 {
        let mut block = [0u8; 32];
        for b in block.iter_mut() {
            *b = if rng.gen_bool(0.9) {
                const DIGITS: &[u8; 22] = b"0123456789abcdefABCDEF";
                DIGITS[rng.gen_range(0..22)]
            } else {
                rng.gen()
            };
        }
        let all = block.iter().all(|b| b.is_ascii_hexdigit());
        assert_eq!(simd_codecs::hex_simd::check_ascii_xn(V256(block)), all);
        let mut half = [0u8; 16];
        half.copy_from_slice(&block[..16]);
        let all16 = half.iter().all(|b| b.is_ascii_hexdigit());
        assert_eq!(simd_codecs::hex_simd::check_ascii16(V128(half)), all16);

        // Wide decode agrees with the scalar table.
        let expected: Option<Vec<u8>> = if all16 {
            Some(
                half.chunks(2)
                    .map(|p| (hex::unhex(p[0]) << 4) | hex::unhex(p[1]))
                    .collect(),
            )
        } else {
            None
        };
        match simd_codecs::hex_simd::decode_ascii16(V128(half)) {
            Ok(y) => assert_eq!(Some(y.0.to_vec()), expected),
            Err(()) => assert_eq!(None, expected),
        }
    }
}

#[test]
fn hex_wide_encode_blocks() {
    let mut block = [0u8; 16];
    for (i, b) in block.iter_mut().enumerate() {
        *b = (i as u8).wrapping_mul(17).wrapping_add(3);
    }
    let lut = simd_codecs::hex_simd::encode_lut(AsciiCase::Lower);
    let wide = simd_codecs::hex_simd::encode_bytes16(V128(block), lut);
    let scalar = encode_to_vec(&block, AsciiCase::Lower);
    assert_eq!(wide.0.to_vec(), scalar);

    let mut big = [0u8; 32];
    for (i, b) in big.iter_mut().enumerate() {
        *b = (i as u8).wrapping_mul(31).wrapping_add(7);
    }
    let (y1, y2) = simd_codecs::hex_simd::encode_bytes32(V256(big), lut);
    let scalar = encode_to_vec(&big, AsciiCase::Lower);
    assert_eq!(y1.0.to_vec(), scalar[..32]);
    assert_eq!(y2.0.to_vec(), scalar[32..]);

    // 64-digit wide decode inverts the 32-byte wide encode.
    let mut lo = [0u8; 32];
    let mut hi = [0u8; 32];
    lo.copy_from_slice(&scalar[..32]);
    hi.copy_from_slice(&scalar[32..]);
    let back = simd_codecs::hex_simd::decode_ascii32x2((V256(lo), V256(hi))).unwrap();
    assert_eq!(back.0.to_vec(), big);
    let half = simd_codecs::hex_simd::decode_ascii32(V256(lo)).unwrap();
    assert_eq!(half.0.to_vec(), big[..16]);
}

#[test]
fn hex_buffer_too_small() {
    let mut tiny = vec![0u8; 3];
    assert!(hex::encode(b"\x01\x02", &mut tiny, AsciiCase::Lower).is_err());
    assert!(hex::decode(b"0102030405060708", &mut tiny).is_err());
    let mut exact = vec![0u8; 4];
    assert!(hex::encode(b"\x01\x02", &mut exact, AsciiCase::Lower).is_ok());
}

fn is_hex_v1(c: u8) -> bool {
    matches!(c, b'0'..=b'9' | b'a'..=b'f' | b'A'..=b'F')
}

fn is_hex_v2(c: u8) -> bool {
    let x1 = c.wrapping_sub(0x30);
    let x2 = (x1 & 0xdf).wrapping_sub(0x11);
    x1 < 10 || x2 < 6
}

fn is_hex_v3(c: u8) -> bool {
    let x1 = c.wrapping_sub(0xb0);
    let x2 = (x1 & 0xdf).wrapping_sub(0x11);
    ((x1 as i8) < -118) || ((x2 as i8) < -122)
}

#[test]
fn check() {
    for c in 0..=255_u8 {
        let (v1, v2, v3) = (is_hex_v1(c), is_hex_v2(c), is_hex_v3(c));
        assert_eq!(v1, v2);
        assert_eq!(v1, v3);
    }
}
