use rand::RngCore;
use simd_codecs::base64::Base64;

fn encode_to_vec(b: &Base64, src: &[u8]) -> Vec<u8> {
    let mut buf = vec![0u8; b.encoded_length(src.len())];
    let n = b.encode(src, &mut buf).unwrap();
    buf.truncate(n);
    buf
}

fn decode_to_vec(b: &Base64, src: &[u8]) -> Result<Vec<u8>, simd_codecs::base64::Error> {
    let mut buf = vec![0u8; src.len()];
    let n = b.decode(src, &mut buf)?;
    buf.truncate(n);
    Ok(buf)
}

#[test]
fn basic() {
    let cases: &[(Base64, &str, &str)] = &[
        (Base64::standard(), "", ""),
        (Base64::standard(), "f", "Zg=="),
        (Base64::standard(), "fo", "Zm8="),
        (Base64::standard(), "foo", "Zm9v"),
        (Base64::standard(), "foob", "Zm9vYg=="),
        (Base64::standard(), "fooba", "Zm9vYmE="),
        (Base64::standard(), "foobar", "Zm9vYmFy"),
    ];

    let mut buf: Vec<u8> = Vec::new();
    for &(ref base64, input, output) in cases {
        buf.clear();
        buf.resize(base64.encoded_length(input.len()), 0);

        let n = base64.encode(input.as_bytes(), &mut buf).unwrap();
        assert_eq!(&buf[..n], output.as_bytes());

        buf.clear();
        buf.resize(base64.decoded_length(output.as_bytes()).unwrap(), 0);

        let n = base64.decode(output.as_bytes(), &mut buf).unwrap();
        assert_eq!(&buf[..n], input.as_bytes());
    }
}

#[test]
fn test_forgiving() {
    let inputs = ["ab", "abc", "abcd"];
    let outputs: &[&[u8]] = &[&[105], &[105, 183], &[105, 183, 29]];

    for i in 0..inputs.len() {
        let (src, expected) = (inputs[i], outputs[i]);
        let mut buf = src.to_owned().into_bytes();
        let n = Base64::forgiving_decode_inplace(&mut buf).unwrap();
        assert_eq!(&buf[..n], expected, "src = {:?}, expected = {:?}", src, expected);
    }
}

#[test]
fn test_remove_ascii_whitespace() {
    let cases = [
        "abcd",
        "ab\tcd",
        "ab\ncd",
        "ab\x0Ccd",
        "ab\rcd",
        "ab cd",
        "ab\t\n\x0C\r cd",
        "ab\t\n\x0C\r =\t\n\x0C\r =\t\n\x0C\r ",
    ];
    for case in cases {
        let mut buf = case.to_owned().into_bytes();
        let expected = {
            let mut v = buf.clone();
            v.retain(|c| !c.is_ascii_whitespace());
            v
        };
        let n = simd_codecs::base64::remove_ascii_whitespace(&mut buf);
        assert_eq!(&buf[..n], &*expected, "case = {:?}", case);
    }
}

#[test]
fn test_safety() {
    // canonicity tests
    {
        let test_vectors = [
            ("SGVsbG8=", Some("Hello")),
            ("SGVsbG9=", None),
            ("SGVsbG9", None),
            ("SGVsbA==", Some("Hell")),
            ("SGVsbA=", None),
            ("SGVsbA", None),
            ("SGVsbA====", None),
        ];

        for (encoded, expected) in test_vectors {
            let base64 = Base64::standard();

            let is_valid = base64.check(encoded.as_bytes()).is_ok();
            let result = decode_to_vec(&base64, encoded.as_bytes());

            assert_eq!(is_valid, result.is_ok());
            match expected {
                Some(expected) => assert_eq!(result.unwrap(), expected.as_bytes()),
                None => assert!(result.is_err(), "expected = {expected:?}"),
            }
        }
    }

    for n in 0..128 {
        let mut bytes = vec![0u8; n];
        rand::thread_rng().fill_bytes(&mut bytes);

        let test_config = [
            Base64::standard(),
            Base64::url_safe(),
            Base64::standard_no_pad(),
            Base64::url_safe_no_pad(),
        ];
        let base_config = [
            base64::STANDARD,
            base64::URL_SAFE,
            base64::STANDARD_NO_PAD,
            base64::URL_SAFE_NO_PAD,
        ];

        for (ours, config) in test_config.into_iter().zip(base_config.into_iter()) {
            let encoded = base64::encode_config(&bytes, config);
            let encoded = encoded.as_bytes();
            assert!(ours.check(encoded).is_ok());

            {
                let ans = encode_to_vec(&ours, &bytes);
                assert_eq!(ans, encoded);
                assert!(ours.check(&ans).is_ok());
            }

            {
                let mut buf = encoded.to_owned();
                let k = ours.decode_inplace(&mut buf).unwrap();
                assert_eq!(&buf[..k], bytes);
            }

            {
                let ans = decode_to_vec(&ours, encoded).unwrap();
                assert_eq!(ans, bytes);
            }
        }
    }
}

#[test]
fn forgiving_whitespace_and_pad_shapes() {
    // Whitespace-only input decodes to nothing.
    let mut buf = b" \t\n\x0C\r".to_vec();
    assert_eq!(Base64::forgiving_decode_inplace(&mut buf).unwrap(), 0);

    // " =\t=\r " is equivalent to "==": both are rejected the same way.
    let mut a = b" =\t=\r ".to_vec();
    let mut b = b"==".to_vec();
    let ra = Base64::forgiving_decode_inplace(&mut a);
    let rb = Base64::forgiving_decode_inplace(&mut b);
    assert_eq!(ra.is_ok(), rb.is_ok());
    assert!(ra.is_err());

    // A padded four-aligned tail and the equivalent unpadded tail agree.
    let mut padded = b"SGVsbA==".to_vec();
    let mut unpadded = b"SGVsbA".to_vec();
    let np = Base64::forgiving_decode_inplace(&mut padded).unwrap();
    let nu = Base64::forgiving_decode_inplace(&mut unpadded).unwrap();
    assert_eq!(&padded[..np], b"Hell");
    assert_eq!(&unpadded[..nu], b"Hell");

    // Whitespace inside the body is stripped before decoding.
    let mut spread = b"S G V\ts b G 8 =".to_vec();
    let n = Base64::forgiving_decode_inplace(&mut spread).unwrap();
    assert_eq!(&spread[..n], b"Hello");

    // A length residue of one is rejected.
    let mut bad = b"abcde".to_vec();
    assert!(Base64::forgiving_decode_inplace(&mut bad).is_err());

    // The bit-clearing step leaves a non-alphabet byte before the pads
    // unchanged, and the decode then rejects it.
    let mut bad = b"a!==".to_vec();
    assert!(Base64::forgiving_decode_inplace(&mut bad).is_err());

    // With an alphabet byte there, the pads only discard its low bits.
    let mut ok = b"ab==".to_vec();
    let n = Base64::forgiving_decode_inplace(&mut ok).unwrap();
    assert_eq!(&ok[..n], &[0x69]);
}

#[test]
fn base64_alphabet_exhaustive() {
    // With a full leading group, the final byte of "AAAc" may be any
    // alphabet byte or the pad: exactly 65 bytes are accepted.
    let std = Base64::standard();
    let url = Base64::url_safe();
    let mut std_accepted = 0;
    let mut url_accepted = 0;
    for c in 0u8..=255 {
        let input = [b'A', b'A', b'A', c];
        if std.check(&input).is_ok() {
            std_accepted += 1;
            assert!(c.is_ascii_alphanumeric() || c == b'+' || c == b'/' || c == b'=');
        }
        if url.check(&input).is_ok() {
            url_accepted += 1;
            assert!(c.is_ascii_alphanumeric() || c == b'-' || c == b'_' || c == b'=');
        }
    }
    assert_eq!(std_accepted, 65);
    assert_eq!(url_accepted, 65);
}

#[test]
fn base64_length_and_errors() {
    let std = Base64::standard();
    let no_pad = Base64::standard_no_pad();
    for n in 0..32 {
        assert_eq!(std.encoded_length(n), 4 * ((n + 2) / 3));
        assert_eq!(no_pad.encoded_length(n), (4 * n + 2) / 3);
        let bytes: Vec<u8> = (0..n as u8).collect();
        assert_eq!(encode_to_vec(&std, &bytes).len(), std.encoded_length(n));
        assert_eq!(encode_to_vec(&no_pad, &bytes).len(), no_pad.encoded_length(n));
    }

    // Too-small output buffer.
    let mut tiny = vec![0u8; 3];
    assert!(std.encode(b"foobar", &mut tiny).is_err());
    assert!(std.decode(b"Zm9vYmFy", &mut tiny).is_err());

    // Bad length residues for decoded_length.
    assert!(std.decoded_length(b"abc").is_err());
    assert!(no_pad.decoded_length(b"a").is_err());
    assert_eq!(std.decoded_length(b"SGVsbA==").unwrap(), 4);
    assert_eq!(no_pad.decoded_length(b"SGVsbA").unwrap(), 4);

    // An invalid symbol and a misplaced pad are rejected.
    assert!(std.check(b"SGV%bA==").is_err());
    assert!(std.check(b"SG=sbA==").is_err());
    assert!(no_pad.check(b"SGVsbA==").is_err());

    // The URL-safe alphabet rejects the standard symbols and conversely.
    assert!(Base64::url_safe_no_pad().check(b"a+/b").is_err());
    assert!(no_pad.check(b"a-_b").is_err());

    let err = std.check(b"!!!!").unwrap_err();
    assert_eq!(err.message(), "Base64 Error");
}

#[test]
fn forgiving_discard_maps_alphabet_only() {
    // The discard helpers clear value bits of alphabet bytes and leave
    // every other byte unchanged.
    assert_eq!(simd_codecs::base64::forgiving_discard4(b'b'), b'Q');
    assert_eq!(simd_codecs::base64::forgiving_discard2(b'c'), b'c');
    assert_eq!(simd_codecs::base64::forgiving_discard2(b'd'), b'c');
    assert_eq!(simd_codecs::base64::forgiving_discard4(b'='), b'=');
    assert_eq!(simd_codecs::base64::forgiving_discard2(0x00), 0x00);
    assert_eq!(simd_codecs::base64::forgiving_discard4(b'A'), b'A');
}

#[test]
fn find_non_ascii_whitespace_prefix() {
    assert_eq!(simd_codecs::base64::find_non_ascii_whitespace(b"abcd"), 4);
    assert_eq!(simd_codecs::base64::find_non_ascii_whitespace(b"ab cd"), 2);
    assert_eq!(simd_codecs::base64::find_non_ascii_whitespace(b"\tab"), 0);
    assert_eq!(simd_codecs::base64::find_non_ascii_whitespace(b""), 0);
}
