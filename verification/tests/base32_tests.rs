use rand::Rng;
use rand::RngCore;
use simd_codecs::base32::Base32;

fn encode_to_vec(b: &Base32, src: &[u8]) -> Vec<u8> {
    let mut buf = vec![0u8; b.encoded_length(src.len())];
    let n = b.encode(src, &mut buf).unwrap();
    buf.truncate(n);
    buf
}

fn decode_to_vec(b: &Base32, src: &[u8]) -> Result<Vec<u8>, simd_codecs::base32::Error> {
    let mut buf = vec![0u8; src.len()];
    let n = b.decode(src, &mut buf)?;
    buf.truncate(n);
    Ok(buf)
}

#[test]
fn base32_rfc_vectors() {
    let cases: &[(&str, &str)] = &[
        ("", ""),
        ("f", "MY======"),
        ("fo", "MZXQ===="),
        ("foo", "MZXW6==="),
        ("foob", "MZXW6YQ="),
        ("fooba", "MZXW6YTB"),
        ("foobar", "MZXW6YTBOI======"),
    ];
    let b = Base32::standard();
    for &(input, output) in cases {
        assert_eq!(encode_to_vec(&b, input.as_bytes()), output.as_bytes());
        assert!(b.check(output.as_bytes()).is_ok());
        assert_eq!(decode_to_vec(&b, output.as_bytes()).unwrap(), input.as_bytes());
    }

    let hex_cases: &[(&str, &str)] = &[
        ("", ""),
        ("f", "CO======"),
        ("fo", "CPNG===="),
        ("foo", "CPNMU==="),
        ("foob", "CPNMUOG="),
        ("fooba", "CPNMUOJ1"),
        ("foobar", "CPNMUOJ1E8======"),
    ];
    let bh = Base32::base32hex();
    for &(input, output) in hex_cases {
        assert_eq!(encode_to_vec(&bh, input.as_bytes()), output.as_bytes());
        assert_eq!(decode_to_vec(&bh, output.as_bytes()).unwrap(), input.as_bytes());
    }
}

#[test]
fn base32_lower_case_decodes() {
    let b = Base32::standard();
    assert_eq!(decode_to_vec(&b, b"my======").unwrap(), b"f");
    assert_eq!(decode_to_vec(&b, b"mzxw6ytboi======").unwrap(), b"foobar");
    let bh = Base32::base32hex();
    assert_eq!(decode_to_vec(&bh, b"cpnmuoj1e8======").unwrap(), b"foobar");
}

#[test]
fn base32_round_trip_all_lengths() {
    let variants = [
        Base32::standard(),
        Base32::standard_no_pad(),
        Base32::base32hex(),
        Base32::base32hex_no_pad(),
    ];
    for n in 0..64 {
        let mut bytes = vec![0u8; n];
        rand::thread_rng().fill_bytes(&mut bytes);
        for b in variants {
            let encoded = encode_to_vec(&b, &bytes);
            assert_eq!(encoded.len(), b.encoded_length(n));
            assert!(b.check(&encoded).is_ok());
            assert_eq!(b.decoded_length(&encoded).unwrap(), n);
            assert_eq!(decode_to_vec(&b, &encoded).unwrap(), bytes);

            let mut buf = encoded.clone();
            let k = b.decode_inplace(&mut buf).unwrap();
            assert_eq!(&buf[..k], bytes);
        }
    }
}

#[test]
fn base32_check_agreement() {
    let mut rng = rand::thread_rng();
    let b = Base32::standard();
    for n in 0..80 {
        let mut input = vec![0u8; n];
        for byte in input.iter_mut() {
            *byte = if rng.gen_bool(0.9) {
                const CS: &[u8; 33] = b"ABCDEFGHIJKLMNOPQRSTUVWXYZ234567=";
                CS[rng.gen_range(0..33)]
            } else {
                rng.gen()
            };
        }
        let mut buf = vec![0u8; n];
        let ok = b.decode(&input, &mut buf).is_ok();
        assert_eq!(b.check(&input).is_ok(), ok);
    }
}

#[test]
fn base32_canonicity_and_padding() {
    let b = Base32::standard();
    // "MY======" is canonical for "f"; a final symbol with non-zero
    // unused bits is rejected.
    assert!(b.check(b"MY======").is_ok());
    assert!(b.check(b"MZ======").is_err());
    // Wrong pad counts.
    assert!(b.check(b"MY=====").is_err());
    assert!(b.check(b"MY====").is_err());
    assert!(b.check(b"MY").is_err());
    assert!(b.check(b"MZXW6Y==").is_err());
    // Pads inside the body.
    assert!(b.check(b"M=======").is_err());
    assert!(b.check(b"MY==MY==").is_err());
    // The unpadded variant takes the bare body and rejects pads.
    let np = Base32::standard_no_pad();
    assert!(np.check(b"MY").is_ok());
    assert!(np.check(b"MY======").is_err());
    assert!(np.check(b"M").is_err());
    let err = np.check(b"M").unwrap_err();
    assert_eq!(err.message(), "Base32 Error");
}

#[test]
fn base32_alphabet_exhaustive() {
    // With seven leading `A`s, the final byte of a full group may be
    // any alphabet byte of either case, or the pad.
    let std = Base32::standard();
    let hex = Base32::base32hex();
    let mut std_accepted = 0;
    let mut hex_accepted = 0;
    for c in 0u8..=255 {
        let mut input = [b'A'; 8];
        input[7] = c;
        if std.check(&input).is_ok() {
            std_accepted += 1;
            assert!(c.is_ascii_alphabetic() || (b'2'..=b'7').contains(&c) || c == b'=');
        }
        let mut input = [b'0'; 8];
        input[7] = c;
        if hex.check(&input).is_ok() {
            hex_accepted += 1;
            let uc = c.to_ascii_uppercase();
            assert!(c.is_ascii_digit() || (b'A'..=b'V').contains(&uc) || c == b'=');
        }
    }
    assert_eq!(std_accepted, 59);
    assert_eq!(hex_accepted, 55);
}

#[test]
fn base32_buffer_too_small() {
    let b = Base32::standard();
    let mut tiny = vec![0u8; 4];
    assert!(b.encode(b"foobar", &mut tiny).is_err());
    assert!(b.decode(b"MZXW6YTBOI======", &mut tiny).is_err());
}
