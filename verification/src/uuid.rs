//! UUID text codec: parsing of the four accepted text forms into the
//! sixteen raw bytes, and formatting back, built on the hex codec.
//!
//! Accepted forms: simple (32 hex digits), hyphenated (`8-4-4-4-12`),
//! braced (the hyphenated form in `{ }`), and URN (the hyphenated form
//! after `urn:uuid:`). The form is chosen by length, so parsing
//! rejects any wrong length, misplaced hyphen, or non-hex byte.

use vstd::prelude::*;
use crate::hex::{is_hex_digit, spec_unhex, spec_hex_byte, spec_hex_decode, spec_hex_encode, unhex};

verus! {

/// UUID codec error: the input is not a UUID in an accepted text form.
#[derive(Debug, Clone, Copy, PartialEq, Eq, Structural)]
pub struct Error;

impl Error {
    pub(crate) fn new() -> Error {
        Error
    }

    /// A fixed description, in place of a `Display` impl.
    pub fn message(&self) -> (s: &'static str)
        ensures
            s@ == "UUID Error"@,
    {
        "UUID Error"
    }
}

/// The text forms `format` can produce; `parse` accepts any of them.
#[derive(Debug, Clone, Copy, PartialEq, Eq, Structural)]
pub enum UuidFormat {
    /// 32 hex digits.
    Simple,
    /// `8-4-4-4-12` hex digits.
    Hyphenated,
    /// The hyphenated form between `{` and `}`.
    Braced,
    /// The hyphenated form after `urn:uuid:`.
    Urn,
}

/// The ASCII hyphen.
pub const HYPHEN: u8 = 0x2d;

/// The index in the 36-byte hyphenated form of the `j`-th hex digit:
/// hyphens sit at indices 8, 13, 18 and 23.
pub open spec fn spec_hyphen_skip(j: int) -> int {
    if j < 8 {
        j
    } else if j < 12 {
        j + 1
    } else if j < 16 {
        j + 2
    } else if j < 20 {
        j + 3
    } else {
        j + 4
    }
}

/// Whether the 36 bytes of `s` starting at `off` are a hyphenated
/// UUID: hyphens at relative indices 8, 13, 18 and 23, hex digits of
/// either case everywhere else.
pub open spec fn spec_hyphenated_valid(s: Seq<u8>, off: int) -> bool {
    &&& off + 36 <= s.len()
    &&& s[off + 8] == HYPHEN
    &&& s[off + 13] == HYPHEN
    &&& s[off + 18] == HYPHEN
    &&& s[off + 23] == HYPHEN
    &&& forall|j: int| 0 <= j < 32 ==> is_hex_digit(s[off + spec_hyphen_skip(j)])
}

/// The 32 hex digits of a hyphenated UUID at `off`, hyphens removed.
pub open spec fn spec_hyphenated_digits(s: Seq<u8>, off: int) -> Seq<u8> {
    Seq::new(32, |j: int| s[off + spec_hyphen_skip(j)])
}

/// The prefix `urn:uuid:`.
pub open spec fn spec_urn_prefix() -> Seq<u8> {
    seq![0x75u8, 0x72, 0x6e, 0x3a, 0x75, 0x75, 0x69, 0x64, 0x3a]
}

/// The UUID bytes a text form denotes, or `None` if the input is not
/// one of the four accepted forms. The form is selected by length.
pub open spec fn spec_uuid_parse(s: Seq<u8>) -> Option<Seq<u8>> {
    if s.len() == 32 {
        if crate::hex::all_hex(s) {
            Some(spec_hex_decode(s))
        } else {
            None
        }
    } else if s.len() == 36 {
        if spec_hyphenated_valid(s, 0) {
            Some(spec_hex_decode(spec_hyphenated_digits(s, 0)))
        } else {
            None
        }
    } else if s.len() == 38 {
        if s[0] == 0x7b && s[37] == 0x7d && spec_hyphenated_valid(s, 1) {
            Some(spec_hex_decode(spec_hyphenated_digits(s, 1)))
        } else {
            None
        }
    } else if s.len() == 45 {
        if s.take(9) == spec_urn_prefix() && spec_hyphenated_valid(s, 9) {
            Some(spec_hex_decode(spec_hyphenated_digits(s, 9)))
        } else {
            None
        }
    } else {
        None
    }
}

/// The text of the sixteen bytes `b` in the chosen form and case.
pub open spec fn spec_uuid_format(b: Seq<u8>, f: UuidFormat, upper: bool) -> Seq<u8> {
    let simple = spec_hex_encode(b, upper);
    let hyph = Seq::new(
        36,
        |i: int|
            if i == 8 || i == 13 || i == 18 || i == 23 {
                HYPHEN
            } else {
                simple[spec_hyphen_unskip(i)]
            },
    );
    match f {
        UuidFormat::Simple => simple,
        UuidFormat::Hyphenated => hyph,
        UuidFormat::Braced => seq![0x7bu8] + hyph + seq![0x7du8],
        UuidFormat::Urn => spec_urn_prefix() + hyph,
    }
}

/// The digit index a non-hyphen position of the hyphenated form holds.
pub open spec fn spec_hyphen_unskip(i: int) -> int {
    if i < 8 {
        i
    } else if i < 13 {
        i - 1
    } else if i < 18 {
        i - 2
    } else if i < 23 {
        i - 3
    } else {
        i - 4
    }
}

/// Reads the hex digit pair for output byte `j` of a hyphenated UUID.
fn parse_hyphenated_byte(src: &[u8], off: usize, j: usize) -> (r: Result<u8, Error>)
    requires
        off + 36 <= src@.len(),
        j < 16,
    ensures
        r is Ok <==> is_hex_digit(src@[off + spec_hyphen_skip(2 * j as int)]) && is_hex_digit(
            src@[off + spec_hyphen_skip(2 * j as int + 1)],
        ),
        r matches Ok(v) ==> v == spec_hex_byte(
            spec_unhex(src@[off + spec_hyphen_skip(2 * j as int)]),
            spec_unhex(src@[off + spec_hyphen_skip(2 * j as int + 1)]),
        ),
{
    let p0: usize = if 2 * j < 8 {
        2 * j
    } else if 2 * j < 12 {
        2 * j + 1
    } else if 2 * j < 16 {
        2 * j + 2
    } else if 2 * j < 20 {
        2 * j + 3
    } else {
        2 * j + 4
    };
    let p1: usize = if 2 * j + 1 < 8 {
        2 * j + 1
    } else if 2 * j + 1 < 12 {
        2 * j + 2
    } else if 2 * j + 1 < 16 {
        2 * j + 3
    } else if 2 * j + 1 < 20 {
        2 * j + 4
    } else {
        2 * j + 5
    };
    let nn = src.len();
    assert(off + 36 <= nn);
    let a = unhex(src[off + p0]);
    let b = unhex(src[off + p1]);
    if a == crate::hex::UNHEX_INVALID || b == crate::hex::UNHEX_INVALID {
        return Err(Error::new());
    }
    Ok((a << 4) | b)
}

/// Parses the 36-byte hyphenated body at `off` into `out`.
fn parse_hyphenated_at(src: &[u8], off: usize, out: &mut Vec<u8>) -> (r: Result<(), Error>)
    requires
        off + 36 <= src@.len(),
        old(out)@.len() == 16,
    ensures
        final(out)@.len() == 16,
        r is Ok <==> spec_hyphenated_valid(src@, off as int),
        r is Ok ==> final(out)@ == spec_hex_decode(spec_hyphenated_digits(src@, off as int)),
{
    let ghost digits = spec_hyphenated_digits(src@, off as int);
    let nn = src.len();
    assert(off + 36 <= nn);
    if src[off + 8] != HYPHEN || src[off + 13] != HYPHEN || src[off + 18] != HYPHEN || src[off
        + 23] != HYPHEN {
        return Err(Error::new());
    }
    let mut j: usize = 0;
    while j < 16
        invariant
            off + 36 <= src@.len(),
            0 <= j <= 16,
            out@.len() == 16,
            digits == spec_hyphenated_digits(src@, off as int),
            src@[off + 8] == HYPHEN && src@[off + 13] == HYPHEN && src@[off + 18] == HYPHEN
                && src@[off + 23] == HYPHEN,
            forall|k: int| 0 <= k < 2 * j ==> is_hex_digit(src@[off + spec_hyphen_skip(k)]),
            forall|k: int| 0 <= k < j ==> out@[k] == spec_hex_decode(digits)[k],
        decreases 16 - j,
    {
        match parse_hyphenated_byte(src, off, j) {
            Ok(v) => {
                out[j] = v;
                proof {
                    assert((2 * j as int) / 2 == j && (2 * j as int) % 2 == 0 && (2 * j as int + 1)
                        / 2 == j && (2 * j as int + 1) % 2 == 1);
                    assert(digits[2 * j as int] == src@[off + spec_hyphen_skip(2 * j as int)]);
                    assert(digits[2 * j as int + 1] == src@[off + spec_hyphen_skip(
                        2 * j as int + 1,
                    )]);
                }
            },
            Err(e) => {
                proof {
                    if !is_hex_digit(src@[off + spec_hyphen_skip(2 * j as int)]) {
                        assert(!spec_hyphenated_valid(src@, off as int));
                    } else {
                        assert(!is_hex_digit(src@[off + spec_hyphen_skip(2 * j as int + 1)]));
                        assert(!spec_hyphenated_valid(src@, off as int));
                    }
                }
                return Err(e);
            },
        }
        j += 1;
    }
    proof {
        assert forall|k: int| 0 <= k < 32 implies is_hex_digit(
            src@[off + spec_hyphen_skip(k)],
        ) by {}
        assert(final(out)@ =~= spec_hex_decode(digits));
    }
    Ok(())
}

/// Parses a UUID in any accepted text form into its sixteen raw bytes.
pub fn parse(src: &[u8]) -> (r: Result<Vec<u8>, Error>)
    ensures
        r is Ok <==> spec_uuid_parse(src@) is Some,
        r matches Ok(v) ==> {
            &&& spec_uuid_parse(src@) matches Some(b)
            &&& v@ == b
            &&& v@.len() == 16
        },
{
    let n = src.len();
    let mut out: Vec<u8> = vec![0u8; 16];
    if n == 32 {
        match crate::hex::decode(src, &mut out) {
            Ok(_) => Ok(out),
            Err(_) => Err(Error::new()),
        }
    } else if n == 36 {
        match parse_hyphenated_at(src, 0, &mut out) {
            Ok(_) => Ok(out),
            Err(e) => Err(e),
        }
    } else if n == 38 {
        if src[0] != 0x7b || src[37] != 0x7d {
            return Err(Error::new());
        }
        match parse_hyphenated_at(src, 1, &mut out) {
            Ok(_) => Ok(out),
            Err(e) => Err(e),
        }
    } else if n == 45 {
        let prefix: [u8; 9] = [0x75, 0x72, 0x6e, 0x3a, 0x75, 0x75, 0x69, 0x64, 0x3a];
        let mut i: usize = 0;
        while i < 9
            invariant
                0 <= i <= 9,
                n == src@.len(),
                n == 45,
                prefix@ == spec_urn_prefix(),
                forall|k: int| 0 <= k < i ==> src@[k] == spec_urn_prefix()[k],
            decreases 9 - i,
        {
            if src[i] != prefix[i] {
                proof {
                    assert(src@.take(9) != spec_urn_prefix());
                }
                return Err(Error::new());
            }
            i += 1;
        }
        proof {
            assert(src@.take(9) =~= spec_urn_prefix());
        }
        match parse_hyphenated_at(src, 9, &mut out) {
            Ok(_) => Ok(out),
            Err(e) => Err(e),
        }
    } else {
        Err(Error::new())
    }
}

/// Formats sixteen raw bytes in the chosen text form and case.
pub fn format(b: &[u8], f: UuidFormat, case: crate::AsciiCase) -> (r: Vec<u8>)
    requires
        b@.len() == 16,
    ensures
        r@ == spec_uuid_format(b@, f, case == crate::AsciiCase::Upper),
{
    let ghost upper = case == crate::AsciiCase::Upper;
    let mut simple: Vec<u8> = vec![0u8; 32];
    match crate::hex::encode(b, &mut simple, case) {
        Ok(_) => (),
        Err(_) => (),
    }
    proof {
        assert(simple@ =~= spec_hex_encode(b@, upper));
    }
    if matches!(f, UuidFormat::Simple) {
        return simple;
    }
    let mut hyph: Vec<u8> = Vec::new();
    let mut i: usize = 0;
    while i < 36
        invariant
            0 <= i <= 36,
            simple@ == spec_hex_encode(b@, upper),
            b@.len() == 16,
            upper == (case == crate::AsciiCase::Upper),
            hyph@.len() == i,
            forall|k: int| 0 <= k < i ==> hyph@[k] == spec_uuid_format(b@, UuidFormat::Hyphenated, upper)[k],
        decreases 36 - i,
    {
        if i == 8 || i == 13 || i == 18 || i == 23 {
            hyph.push(HYPHEN);
        } else {
            let d: usize = if i < 8 {
                i
            } else if i < 13 {
                i - 1
            } else if i < 18 {
                i - 2
            } else if i < 23 {
                i - 3
            } else {
                i - 4
            };
            hyph.push(simple[d]);
        }
        i += 1;
    }
    proof {
        assert(hyph@ =~= spec_uuid_format(b@, UuidFormat::Hyphenated, upper));
    }
    if matches!(f, UuidFormat::Hyphenated) {
        return hyph;
    }
    if matches!(f, UuidFormat::Braced) {
        let mut out: Vec<u8> = Vec::new();
        out.push(0x7b);
        let mut i: usize = 0;
        while i < 36
            invariant
                0 <= i <= 36,
                hyph@.len() == 36,
                out@.len() == i + 1,
                out@[0] == 0x7bu8,
                forall|k: int| 0 <= k < i ==> out@[k + 1] == hyph@[k],
            decreases 36 - i,
        {
            out.push(hyph[i]);
            i += 1;
        }
        out.push(0x7d);
        proof {
            assert(out@ =~= seq![0x7bu8] + hyph@ + seq![0x7du8]);
        }
        out
    } else {
        let prefix: [u8; 9] = [0x75, 0x72, 0x6e, 0x3a, 0x75, 0x75, 0x69, 0x64, 0x3a];
        let mut out: Vec<u8> = Vec::new();
        let mut i: usize = 0;
        while i < 9
            invariant
                0 <= i <= 9,
                prefix@ == spec_urn_prefix(),
                out@.len() == i,
                forall|k: int| 0 <= k < i ==> out@[k] == spec_urn_prefix()[k],
            decreases 9 - i,
        {
            out.push(prefix[i]);
            i += 1;
        }
        let mut i: usize = 0;
        while i < 36
            invariant
                0 <= i <= 36,
                hyph@.len() == 36,
                out@.len() == i + 9,
                forall|k: int| 0 <= k < 9 ==> out@[k] == spec_urn_prefix()[k],
                forall|k: int| 0 <= k < i ==> out@[k + 9] == hyph@[k],
            decreases 36 - i,
        {
            out.push(hyph[i]);
            i += 1;
        }
        proof {
            assert(out@ =~= spec_urn_prefix() + hyph@);
        }
        out
    }
}

/// Round trip: parsing the formatted text of any sixteen bytes, in any
/// form and case, returns exactly those bytes.
pub proof fn lemma_uuid_round_trip(b: Seq<u8>, f: UuidFormat, upper: bool)
    requires
        b.len() == 16,
    ensures
        spec_uuid_parse(spec_uuid_format(b, f, upper)) == Some(b),
{
    let simple = spec_hex_encode(b, upper);
    crate::hex::lemma_hex_round_trip(b, upper);
    let h = spec_uuid_format(b, UuidFormat::Hyphenated, upper);
    assert(h.len() == 36 && h[8] == HYPHEN && h[13] == HYPHEN && h[18] == HYPHEN && h[23]
        == HYPHEN);
    assert forall|j: int| 0 <= j < 32 implies h[spec_hyphen_skip(j)] == simple[j] && is_hex_digit(
        h[spec_hyphen_skip(j)],
    ) by {
        let i = spec_hyphen_skip(j);
        assert(i != 8 && i != 13 && i != 18 && i != 23);
        assert(spec_hyphen_unskip(i) == j);
    }
    match f {
        UuidFormat::Simple => {
            assert(spec_uuid_parse(simple) == Some(b));
        },
        UuidFormat::Hyphenated => {
            assert(spec_hyphenated_valid(h, 0));
            assert(spec_hyphenated_digits(h, 0) =~= simple);
        },
        UuidFormat::Braced => {
            let s = spec_uuid_format(b, f, upper);
            assert(s == seq![0x7bu8] + h + seq![0x7du8]);
            assert(s.len() == 38 && s[0] == 0x7b && s[37] == 0x7d);
            assert forall|k: int| 0 <= k < 36 implies s[1 + k] == h[k] by {}
            assert(spec_hyphenated_valid(s, 1)) by {
                assert forall|j: int| 0 <= j < 32 implies is_hex_digit(
                    s[1 + spec_hyphen_skip(j)],
                ) by {
                    assert(s[1 + spec_hyphen_skip(j)] == h[spec_hyphen_skip(j)]);
                }
            }
            assert(spec_hyphenated_digits(s, 1) =~= simple);
        },
        UuidFormat::Urn => {
            let s = spec_uuid_format(b, f, upper);
            assert(s == spec_urn_prefix() + h);
            assert(s.len() == 45);
            assert(s.take(9) =~= spec_urn_prefix());
            assert forall|k: int| 0 <= k < 36 implies s[9 + k] == h[k] by {}
            assert(spec_hyphenated_valid(s, 9)) by {
                assert forall|j: int| 0 <= j < 32 implies is_hex_digit(
                    s[9 + spec_hyphen_skip(j)],
                ) by {
                    assert(s[9 + spec_hyphen_skip(j)] == h[spec_hyphen_skip(j)]);
                }
            }
            assert(spec_hyphenated_digits(s, 9) =~= simple);
        },
    }
}

} // verus!
