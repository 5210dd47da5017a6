use simd_codecs::uuid::{self, UuidFormat};
use simd_codecs::AsciiCase;

const BYTES: [u8; 16] = [
    0x55, 0x0e, 0x84, 0x00, 0xe2, 0x9b, 0x41, 0xd4, 0xa7, 0x16, 0x44, 0x66, 0x55, 0x44, 0x00,
    0x00,
];

#[test]
fn uuid_parse_all_forms() {
    let forms: [&[u8]; 4] = [
        b"550e8400-e29b-41d4-a716-446655440000",
        b"550e8400e29b41d4a716446655440000",
        b"{550e8400-e29b-41d4-a716-446655440000}",
        b"urn:uuid:550e8400-e29b-41d4-a716-446655440000",
    ];
    for form in forms {
        let parsed = uuid::parse(form).unwrap();
        assert_eq!(parsed, BYTES.to_vec());
    }
    // Upper-case digits are accepted too.
    let parsed = uuid::parse(b"550E8400-E29B-41D4-A716-446655440000").unwrap();
    assert_eq!(parsed, BYTES.to_vec());
}

#[test]
fn uuid_parse_rejects_malformed() {
    // Missing or misplaced hyphen.
    assert!(uuid::parse(b"550e8400e29b-41d4-a716-446655440000").is_err());
    assert!(uuid::parse(b"550e8400-e29b41d4-a716-44665544-0000").is_err());
    // Wrong length.
    assert!(uuid::parse(b"550e8400-e29b-41d4-a716-44665544000").is_err());
    assert!(uuid::parse(b"550e8400e29b41d4a71644665544000").is_err());
    assert!(uuid::parse(b"").is_err());
    // Non-hex byte.
    assert!(uuid::parse(b"550g8400-e29b-41d4-a716-446655440000").is_err());
    // Broken brace and prefix.
    assert!(uuid::parse(b"(550e8400-e29b-41d4-a716-446655440000}").is_err());
    assert!(uuid::parse(b"urn:uuid?550e8400-e29b-41d4-a716-446655440000").is_err());
    let err = uuid::parse(b"!").unwrap_err();
    assert_eq!(err.message(), "UUID Error");
}

#[test]
fn uuid_format_round_trip() {
    let forms = [
        UuidFormat::Simple,
        UuidFormat::Hyphenated,
        UuidFormat::Braced,
        UuidFormat::Urn,
    ];
    for f in forms {
        for case in [AsciiCase::Lower, AsciiCase::Upper] {
            let text = uuid::format(&BYTES, f, case);
            let back = uuid::parse(&text).unwrap();
            assert_eq!(back, BYTES.to_vec());
        }
    }
    assert_eq!(
        uuid::format(&BYTES, UuidFormat::Hyphenated, AsciiCase::Lower),
        b"550e8400-e29b-41d4-a716-446655440000".to_vec()
    );
    assert_eq!(
        uuid::format(&BYTES, UuidFormat::Urn, AsciiCase::Lower),
        b"urn:uuid:550e8400-e29b-41d4-a716-446655440000".to_vec()
    );
    assert_eq!(
        uuid::format(&BYTES, UuidFormat::Braced, AsciiCase::Upper),
        b"{550E8400-E29B-41D4-A716-446655440000}".to_vec()
    );
    assert_eq!(
        uuid::format(&BYTES, UuidFormat::Simple, AsciiCase::Lower),
        b"550e8400e29b41d4a716446655440000".to_vec()
    );
}
