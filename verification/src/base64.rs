//! Base64 codec in its four standard variants: the standard and the
//! URL-safe alphabet, each padded or unpadded.
//!
//! Every operation is specified against [`spec_b64_encode`] and
//! [`spec_b64_decode`] over byte sequences. Decoding is canonical: a
//! padded input must have the exact `=` discipline, and in every variant
//! the unused bits of a trailing group must be zero, so that decoding
//! followed by encoding reproduces the input exactly.

use vstd::prelude::*;
use vstd::arithmetic::div_mod::lemma_fundamental_div_mod_converse;

verus! {

/// Base64 codec error: the input is not a valid encoding of the chosen
/// variant, or the output buffer is too small.
#[derive(Debug, Clone, Copy, PartialEq, Eq, Structural)]
pub struct Error;

impl Error {
    pub(crate) fn new() -> Error {
        Error
    }

    /// A fixed description, in place of a `Display` impl.
    pub fn message(&self) -> (s: &'static str)
        ensures
            s@ == "Base64 Error"@,
    {
        "Base64 Error"
    }
}

/// Which alphabet the variant uses for the two non-alphanumeric symbols.
#[derive(Debug, Clone, Copy, PartialEq, Eq, Structural)]
pub enum Base64Kind {
    /// `+` and `/` at indices 62 and 63.
    Standard,
    /// `-` and `_` at indices 62 and 63.
    UrlSafe,
}

/// A Base64 variant: an alphabet together with a padding policy.
#[derive(Debug, Clone, Copy, PartialEq, Eq, Structural)]
pub struct Base64 {
    pub kind: Base64Kind,
    pub padding: bool,
}

/// The ASCII pad byte `=`.
pub const PAD: u8 = 0x3d;

/// The sentinel `spec_b64_val` returns for a byte outside the alphabet.
pub const B64_INVALID: u8 = 0xff;

impl Base64 {
    /// Standard alphabet, padded.
    pub fn standard() -> (r: Base64)
        ensures
            r == (Base64 { kind: Base64Kind::Standard, padding: true }),
    {
        Base64 { kind: Base64Kind::Standard, padding: true }
    }

    /// URL-safe alphabet, padded.
    pub fn url_safe() -> (r: Base64)
        ensures
            r == (Base64 { kind: Base64Kind::UrlSafe, padding: true }),
    {
        Base64 { kind: Base64Kind::UrlSafe, padding: true }
    }

    /// Standard alphabet, no padding.
    pub fn standard_no_pad() -> (r: Base64)
        ensures
            r == (Base64 { kind: Base64Kind::Standard, padding: false }),
    {
        Base64 { kind: Base64Kind::Standard, padding: false }
    }

    /// URL-safe alphabet, no padding.
    pub fn url_safe_no_pad() -> (r: Base64)
        ensures
            r == (Base64 { kind: Base64Kind::UrlSafe, padding: false }),
    {
        Base64 { kind: Base64Kind::UrlSafe, padding: false }
    }
}

/// The alphabet byte for the 6-bit value `v`.
pub open spec fn spec_b64_char(v: u8, kind: Base64Kind) -> u8
    recommends
        v < 64,
{
    if v < 26 {
        (0x41 + v) as u8
    } else if v < 52 {
        (0x61 + v - 26) as u8
    } else if v < 62 {
        (0x30 + v - 52) as u8
    } else if v == 62 {
        if kind == Base64Kind::UrlSafe {
            0x2d
        } else {
            0x2b
        }
    } else {
        if kind == Base64Kind::UrlSafe {
            0x5f
        } else {
            0x2f
        }
    }
}

/// The 6-bit value of an alphabet byte; `B64_INVALID` for any other
/// byte, including the pad.
pub open spec fn spec_b64_val(c: u8, kind: Base64Kind) -> u8 {
    if 0x41 <= c <= 0x5a {
        (c - 0x41) as u8
    } else if 0x61 <= c <= 0x7a {
        (c - 0x61 + 26) as u8
    } else if 0x30 <= c <= 0x39 {
        (c - 0x30 + 52) as u8
    } else if c == (if kind == Base64Kind::UrlSafe {
        0x2du8
    } else {
        0x2bu8
    }) {
        62
    } else if c == (if kind == Base64Kind::UrlSafe {
        0x5fu8
    } else {
        0x2fu8
    }) {
        63
    } else {
        B64_INVALID
    }
}

/// Whether `c` belongs to the 64-byte alphabet of `kind`.
pub open spec fn is_b64_char(c: u8, kind: Base64Kind) -> bool {
    spec_b64_val(c, kind) != B64_INVALID
}

/// `s[idx]`, or 0 past the end: the implicit zero bytes that complete
/// a trailing input group.
pub open spec fn spec_b64_byte_at(s: Seq<u8>, idx: int) -> u8 {
    if 0 <= idx < s.len() {
        s[idx]
    } else {
        0
    }
}

/// The 6-bit field at output position `i`: position `4g + p` takes its
/// bits from input bytes `3g .. 3g + 3`, zero-extended past the end.
pub open spec fn spec_b64_field(s: Seq<u8>, i: int) -> u8 {
    let g = i / 4;
    let p = i % 4;
    let b0 = spec_b64_byte_at(s, 3 * g);
    let b1 = spec_b64_byte_at(s, 3 * g + 1);
    let b2 = spec_b64_byte_at(s, 3 * g + 2);
    if p == 0 {
        b0 >> 2
    } else if p == 1 {
        ((b0 & 0x03) << 4) | (b1 >> 4)
    } else if p == 2 {
        ((b1 & 0x0f) << 2) | (b2 >> 6)
    } else {
        b2 & 0x3f
    }
}

/// The number of alphabet bytes that encode `n` input bytes: `⌈4n/3⌉`.
pub open spec fn spec_b64_body_len(n: int) -> int {
    (4 * n + 2) / 3
}

/// The encoded length of `n` input bytes: `4·⌈n/3⌉` padded, `⌈4n/3⌉`
/// unpadded.
pub open spec fn spec_encoded_length(n: int, padding: bool) -> int {
    if padding {
        4 * ((n + 2) / 3)
    } else {
        (4 * n + 2) / 3
    }
}

/// The Base64 encoding of `s`: the 6-bit fields of `s` through the
/// alphabet, then pad bytes up to the padded length.
pub open spec fn spec_b64_encode(s: Seq<u8>, kind: Base64Kind, padding: bool) -> Seq<u8> {
    Seq::new(
        spec_encoded_length(s.len() as int, padding) as nat,
        |i: int|
            if i < spec_b64_body_len(s.len() as int) {
                spec_b64_char(spec_b64_field(s, i), kind)
            } else {
                PAD
            },
    )
}

/// Whether `s` is a valid pad-free encoded body: a length residue other
/// than 1, alphabet bytes only, and zero trailing bits in a partial
/// final group (the canonicity requirement).
pub open spec fn spec_b64_body_valid(s: Seq<u8>, kind: Base64Kind) -> bool {
    &&& s.len() % 4 != 1
    &&& (forall|i: int| 0 <= i < s.len() ==> is_b64_char(s[i], kind))
    &&& (s.len() % 4 == 2 ==> spec_b64_val(s[s.len() - 1], kind) & 0x0f == 0)
    &&& (s.len() % 4 == 3 ==> spec_b64_val(s[s.len() - 1], kind) & 0x03 == 0)
}

/// The decoded byte at position `j`: position `3g + p` reassembles the
/// 6-bit values of encoded bytes `4g .. 4g + 4`.
pub open spec fn spec_b64_decoded_byte(s: Seq<u8>, kind: Base64Kind, j: int) -> u8 {
    let g = j / 3;
    let p = j % 3;
    let a = spec_b64_val(spec_b64_byte_at(s, 4 * g), kind);
    let b = spec_b64_val(spec_b64_byte_at(s, 4 * g + 1), kind);
    let c = spec_b64_val(spec_b64_byte_at(s, 4 * g + 2), kind);
    let d = spec_b64_val(spec_b64_byte_at(s, 4 * g + 3), kind);
    if p == 0 {
        (a << 2) | (b >> 4)
    } else if p == 1 {
        ((b & 0x0f) << 4) | (c >> 2)
    } else {
        ((c & 0x03) << 6) | d
    }
}

/// The decoding of a valid pad-free body: `⌊3m/4⌋` bytes.
pub open spec fn spec_b64_body_decode(s: Seq<u8>, kind: Base64Kind) -> Seq<u8>
    recommends
        spec_b64_body_valid(s, kind),
{
    Seq::new((3 * s.len() / 4) as nat, |j: int| spec_b64_decoded_byte(s, kind, j))
}

/// The number of trailing pad bytes a padded decoder strips: 0, 1 or 2.
pub open spec fn spec_pad_len(s: Seq<u8>) -> int {
    if s.len() >= 1 && s[s.len() - 1] == PAD {
        if s.len() >= 2 && s[s.len() - 2] == PAD {
            2
        } else {
            1
        }
    } else {
        0
    }
}

/// The Base64 decoding of `s` under the chosen variant, or `None` if
/// `s` is not a valid encoding: wrong length residue, pad discipline
/// broken, a byte outside the alphabet, or non-zero trailing bits.
pub open spec fn spec_b64_decode(s: Seq<u8>, kind: Base64Kind, padding: bool) -> Option<Seq<u8>> {
    if padding {
        if s.len() % 4 != 0 {
            None
        } else {
            let body = s.take(s.len() - spec_pad_len(s));
            if spec_b64_body_valid(body, kind) {
                Some(spec_b64_body_decode(body, kind))
            } else {
                None
            }
        }
    } else {
        if spec_b64_body_valid(s, kind) {
            Some(spec_b64_body_decode(s, kind))
        } else {
            None
        }
    }
}

/// Whether the length and pad shape of `s` admit a decoded length.
pub open spec fn spec_decoded_length_ok(s: Seq<u8>, padding: bool) -> bool {
    if padding {
        s.len() % 4 == 0
    } else {
        s.len() % 4 != 1
    }
}

/// The decoded length implied by the length and pad shape of `s`.
pub open spec fn spec_decoded_length(s: Seq<u8>, padding: bool) -> int {
    if padding {
        3 * (s.len() / 4) - spec_pad_len(s)
    } else {
        3 * s.len() as int / 4
    }
}

/// The alphabet byte for a 6-bit value.
fn b64_char_of(v: u8, kind: Base64Kind) -> (r: u8)
    requires
        v < 64,
    ensures
        r == spec_b64_char(v, kind),
{
    if v < 26 {
        0x41 + v
    } else if v < 52 {
        0x61 + v - 26
    } else if v < 62 {
        0x30 + v - 52
    } else if v == 62 {
        if matches!(kind, Base64Kind::UrlSafe) {
            0x2d
        } else {
            0x2b
        }
    } else {
        if matches!(kind, Base64Kind::UrlSafe) {
            0x5f
        } else {
            0x2f
        }
    }
}

/// The 6-bit value of an alphabet byte, `B64_INVALID` otherwise.
fn b64_val_of(c: u8, kind: Base64Kind) -> (r: u8)
    ensures
        r == spec_b64_val(c, kind),
        is_b64_char(c, kind) ==> r < 64,
{
    if 0x41 <= c && c <= 0x5a {
        c - 0x41
    } else if 0x61 <= c && c <= 0x7a {
        c - 0x61 + 26
    } else if 0x30 <= c && c <= 0x39 {
        c - 0x30 + 52
    } else if c == (if matches!(kind, Base64Kind::UrlSafe) {
        0x2d
    } else {
        0x2b
    }) {
        62
    } else if c == (if matches!(kind, Base64Kind::UrlSafe) {
        0x5f
    } else {
        0x2f
    }) {
        63
    } else {
        B64_INVALID
    }
}

/// The quotient and remainder of a witnessed decomposition.
proof fn lemma_quot(q: int, r: int, d: int)
    requires
        d > 0,
        0 <= r < d,
    ensures
        (q * d + r) / d == q,
        (q * d + r) % d == r,
{
    lemma_fundamental_div_mod_converse(q * d + r, d, q, r);
}

impl Base64 {
    /// The encoded length of `n` input bytes.
    pub fn encoded_length(&self, n: usize) -> (r: usize)
        requires
            spec_encoded_length(n as int, self.padding) <= usize::MAX,
        ensures
            r == spec_encoded_length(n as int, self.padding),
    {
        let q = n / 3;
        let rem = n % 3;
        assert(n == 3 * q + rem && rem < 3);
        if self.padding {
            proof {
                if rem == 0 {
                    lemma_quot(q as int, 2, 3);
                } else {
                    lemma_quot(q as int + 1, rem as int - 1, 3);
                }
            }
            let groups = if rem == 0 {
                q
            } else {
                q + 1
            };
            assert(groups == (n as int + 2) / 3);
            4 * groups
        } else {
            let tail: usize = if rem == 0 {
                0
            } else if rem == 1 {
                2
            } else {
                3
            };
            proof {
                if rem == 0 {
                    lemma_quot(4 * q as int, 2, 3);
                } else if rem == 1 {
                    lemma_quot(4 * q as int + 2, 0, 3);
                } else {
                    lemma_quot(4 * q as int + 3, 1, 3);
                }
            }
            assert(4 * q as int + tail == (4 * n as int + 2) / 3);
            4 * q + tail
        }
    }

    /// The decoded length implied by the length and pad shape of `src`:
    /// `Err` iff the length residue does not fit the variant.
    pub fn decoded_length(&self, src: &[u8]) -> (r: Result<usize, Error>)
        ensures
            r is Ok <==> spec_decoded_length_ok(src@, self.padding),
            r matches Ok(n) ==> n == spec_decoded_length(src@, self.padding),
    {
        let m = src.len();
        if self.padding {
            if m % 4 != 0 {
                return Err(Error::new());
            }
            let p: usize = if m >= 1 && src[m - 1] == PAD {
                if m >= 2 && src[m - 2] == PAD {
                    2
                } else {
                    1
                }
            } else {
                0
            };
            assert(p == spec_pad_len(src@));
            let groups = m / 4;
            assert(m == 4 * groups && (p >= 1 ==> groups >= 1));
            Ok(3 * groups - p)
        } else {
            if m % 4 == 1 {
                return Err(Error::new());
            }
            let groups = m / 4;
            let t = m % 4;
            let extra: usize = if t == 2 {
                1
            } else if t == 3 {
                2
            } else {
                0
            };
            proof {
                if t == 0 {
                    lemma_quot(3 * groups as int, 0, 4);
                } else if t == 2 {
                    lemma_quot(3 * groups as int + 1, 2, 4);
                } else {
                    lemma_quot(3 * groups as int + 2, 1, 4);
                }
            }
            assert(3 * groups as int + extra == 3 * m as int / 4);
            Ok(3 * groups + extra)
        }
    }
}

impl Base64 {
    /// Encodes `src` into the front of `dst` and returns the number of
    /// bytes written. Fails iff `dst` is shorter than the encoded
    /// length, in which case `dst` is unchanged.
    pub fn encode(&self, src: &[u8], dst: &mut Vec<u8>) -> (r: Result<usize, Error>)
        ensures
            r is Ok <==> old(dst)@.len() >= spec_encoded_length(src@.len() as int, self.padding),
            r matches Ok(n) ==> {
                &&& n == spec_encoded_length(src@.len() as int, self.padding)
                &&& final(dst)@ == spec_b64_encode(src@, self.kind, self.padding) + old(dst)@.skip(
                    n as int,
                )
            },
            r is Err ==> final(dst)@ == old(dst)@,
            final(dst)@.len() == old(dst)@.len(),
    {
        let n = src.len();
        let d = dst.len();
        let q = n / 3;
        let rem = n % 3;
        assert(n == 3 * q + rem && rem < 3);
        let ghost el = spec_encoded_length(n as int, self.padding);
        proof {
            if rem == 0 {
                lemma_quot(q as int, 2, 3);
                lemma_quot(4 * q as int, 2, 3);
            } else if rem == 1 {
                lemma_quot(q as int + 1, 0, 3);
                lemma_quot(4 * q as int + 2, 0, 3);
            } else {
                lemma_quot(q as int + 1, 1, 3);
                lemma_quot(4 * q as int + 3, 1, 3);
            }
        }
        let tail: usize = if rem == 0 {
            0
        } else if rem == 1 {
            2
        } else {
            3
        };
        let ghost bl = spec_b64_body_len(n as int);
        assert(bl == 4 * q + tail);
        // Capacity test, arranged so that no intermediate product can
        // overflow: `4 * q` is computed only once it is known to fit.
        if q > d / 4 {
            assert(el > d);
            return Err(Error::new());
        }
        assert(4 * q <= d);
        let m: usize = if self.padding {
            let groups = if rem == 0 {
                q
            } else {
                q + 1
            };
            if groups > d / 4 {
                assert(el > d);
                return Err(Error::new());
            }
            4 * groups
        } else {
            if tail > d - 4 * q {
                assert(el > d);
                return Err(Error::new());
            }
            4 * q + tail
        };
        assert(m == el && m <= d);
        let ghost enc = spec_b64_encode(src@, self.kind, self.padding);
        assert(enc.len() == m);
        let mut g: usize = 0;
        while g < q
            invariant
                n == src@.len(),
                n == 3 * q + rem,
                rem < 3,
                0 <= g <= q,
                m <= d,
                4 * q <= m,
                d == dst@.len(),
                dst@.len() == old(dst)@.len(),
                el == spec_encoded_length(n as int, self.padding),
                bl == spec_b64_body_len(n as int),
                bl == 4 * q + tail,
                m == el,
                enc == spec_b64_encode(src@, self.kind, self.padding),
                enc.len() == m,
                forall|k: int| 0 <= k < 4 * g ==> dst@[k] == enc[k],
                forall|k: int| 4 * g <= k < dst@.len() ==> dst@[k] == old(dst)@[k],
            decreases q - g,
        {
            let b0 = src[3 * g];
            let b1 = src[3 * g + 1];
            let b2 = src[3 * g + 2];
            let f0 = b0 >> 2;
            let f1 = ((b0 & 0x03) << 4) | (b1 >> 4);
            let f2 = ((b1 & 0x0f) << 2) | (b2 >> 6);
            let f3 = b2 & 0x3f;
            assert(b0 >> 2 < 64 && (((b0 & 0x03) << 4) | (b1 >> 4)) < 64 && (((b1 & 0x0f) << 2) | (
            b2 >> 6)) < 64 && b2 & 0x3f < 64) by (bit_vector);
            proof {
                lemma_quot(g as int, 0, 4);
                lemma_quot(g as int, 1, 4);
                lemma_quot(g as int, 2, 4);
                lemma_quot(g as int, 3, 4);
            }
            dst[4 * g] = b64_char_of(f0, self.kind);
            dst[4 * g + 1] = b64_char_of(f1, self.kind);
            dst[4 * g + 2] = b64_char_of(f2, self.kind);
            dst[4 * g + 3] = b64_char_of(f3, self.kind);
            g += 1;
        }
        if rem == 1 {
            let b0 = src[3 * q];
            let f0 = b0 >> 2;
            let f1 = (b0 & 0x03) << 4;
            assert(b0 >> 2 < 64 && (b0 & 0x03) << 4 < 64 && ((b0 & 0x03) << 4) | (0u8 >> 4) == (b0
                & 0x03) << 4) by (bit_vector);
            proof {
                lemma_quot(q as int, 0, 4);
                lemma_quot(q as int, 1, 4);
            }
            dst[4 * q] = b64_char_of(f0, self.kind);
            dst[4 * q + 1] = b64_char_of(f1, self.kind);
        } else if rem == 2 {
            let b0 = src[3 * q];
            let b1 = src[3 * q + 1];
            let f0 = b0 >> 2;
            let f1 = ((b0 & 0x03) << 4) | (b1 >> 4);
            let f2 = (b1 & 0x0f) << 2;
            assert(b0 >> 2 < 64 && (((b0 & 0x03) << 4) | (b1 >> 4)) < 64 && (b1 & 0x0f) << 2 < 64
                && ((b1 & 0x0f) << 2) | (0u8 >> 6) == (b1 & 0x0f) << 2) by (bit_vector);
            proof {
                lemma_quot(q as int, 0, 4);
                lemma_quot(q as int, 1, 4);
                lemma_quot(q as int, 2, 4);
            }
            dst[4 * q] = b64_char_of(f0, self.kind);
            dst[4 * q + 1] = b64_char_of(f1, self.kind);
            dst[4 * q + 2] = b64_char_of(f2, self.kind);
        }
        // Pad bytes, if the variant asks for them.
        let mut w = if rem == 0 {
            4 * q
        } else if rem == 1 {
            4 * q + 2
        } else {
            4 * q + 3
        };
        assert(forall|k: int| 0 <= k < w ==> dst@[k] == enc[k]);
        while w < m
            invariant
                bl <= w <= m,
                m <= d,
                d == dst@.len(),
                dst@.len() == old(dst)@.len(),
                enc == spec_b64_encode(src@, self.kind, self.padding),
                enc.len() == m,
                bl == spec_b64_body_len(src@.len() as int),
                forall|k: int| 0 <= k < w ==> dst@[k] == enc[k],
                forall|k: int| m <= k < dst@.len() ==> dst@[k] == old(dst)@[k],
            decreases m - w,
        {
            dst[w] = PAD;
            w += 1;
        }
        proof {
            assert(final(dst)@ =~= enc + old(dst)@.skip(m as int));
        }
        Ok(m)
    }
}

/// A byte outside the alphabet at any position makes the body invalid.
proof fn lemma_body_invalid_at(body: Seq<u8>, kind: Base64Kind, i: int)
    requires
        0 <= i < body.len(),
        !is_b64_char(body[i], kind),
    ensures
        !spec_b64_body_valid(body, kind),
{
}

/// Non-zero unused bits in a partial final group make the body invalid.
proof fn lemma_body_invalid_bits(body: Seq<u8>, kind: Base64Kind, t: int)
    requires
        t == 2 || t == 3,
        body.len() % 4 == t,
        body.len() >= 1,
        spec_b64_val(body[body.len() - 1], kind) & (if t == 2 {
            0x0fu8
        } else {
            0x03u8
        }) != 0,
    ensures
        !spec_b64_body_valid(body, kind),
{
}

/// A body of whole groups of alphabet bytes is valid.
proof fn lemma_body_valid_full(body: Seq<u8>, kind: Base64Kind, groups: int)
    requires
        groups >= 0,
        body.len() == 4 * groups,
        forall|i: int| 0 <= i < body.len() ==> is_b64_char(body[i], kind),
    ensures
        spec_b64_body_valid(body, kind),
{
    lemma_quot(groups, 0, 4);
}

/// A body whose partial final group has alphabet bytes and zero unused
/// bits is valid.
proof fn lemma_body_valid_tail(body: Seq<u8>, kind: Base64Kind, groups: int, t: int)
    requires
        t == 2 || t == 3,
        groups >= 0,
        body.len() == 4 * groups + t,
        forall|i: int| 0 <= i < 4 * groups ==> is_b64_char(body[i], kind),
        is_b64_char(body[4 * groups], kind),
        is_b64_char(body[4 * groups + 1], kind),
        t == 3 ==> is_b64_char(body[4 * groups + 2], kind),
        spec_b64_val(body[body.len() - 1], kind) & (if t == 2 {
            0x0fu8
        } else {
            0x03u8
        }) == 0,
    ensures
        spec_b64_body_valid(body, kind),
{
    lemma_quot(groups, t, 4);
    assert forall|i: int| 0 <= i < body.len() implies is_b64_char(body[i], kind) by {
        if i >= 4 * groups {
            assert(i == 4 * groups || i == 4 * groups + 1 || i == 4 * groups + 2);
        }
    }
}

/// Decodes the pad-free body `src[..blen]` into the front of `dst`.
fn decode_body_into(src: &[u8], blen: usize, kind: Base64Kind, dst: &mut Vec<u8>) -> (r: Result<
    usize,
    Error,
>)
    requires
        blen <= src@.len(),
        old(dst)@.len() >= 3 * blen as int / 4,
    ensures
        r is Ok <==> spec_b64_body_valid(src@.take(blen as int), kind),
        r matches Ok(n) ==> {
            &&& n == 3 * blen as int / 4
            &&& final(dst)@ == spec_b64_body_decode(src@.take(blen as int), kind) + old(
                dst,
            )@.skip(n as int)
        },
        final(dst)@.len() == old(dst)@.len(),
{
    let ghost body = src@.take(blen as int);
    let groups = blen / 4;
    let t = blen % 4;
    assert(blen == 4 * groups + t && t < 4);
    if t == 1 {
        return Err(Error::new());
    }
    let nout: usize = if t == 0 {
        3 * groups
    } else if t == 2 {
        3 * groups + 1
    } else {
        3 * groups + 2
    };
    proof {
        if t == 0 {
            lemma_quot(3 * groups as int, 0, 4);
        } else if t == 2 {
            lemma_quot(3 * groups as int + 1, 2, 4);
        } else {
            lemma_quot(3 * groups as int + 2, 1, 4);
        }
    }
    assert(nout == 3 * blen as int / 4);
    let ghost dec = spec_b64_body_decode(body, kind);
    assert(dec.len() == nout);
    let mut g: usize = 0;
    while g < groups
        invariant
            blen <= src@.len(),
            blen == 4 * groups + t,
            t < 4,
            0 <= g <= groups,
            body == src@.take(blen as int),
            dec == spec_b64_body_decode(body, kind),
            dec.len() == nout,
            nout <= dst@.len(),
            dst@.len() == old(dst)@.len(),
            3 * groups <= nout,
            forall|i: int| 0 <= i < 4 * g ==> is_b64_char(body[i], kind),
            forall|j: int| 0 <= j < 3 * g ==> dst@[j] == dec[j],
            forall|k: int| 3 * g <= k < dst@.len() ==> dst@[k] == old(dst)@[k],
        decreases groups - g,
    {
        let a = b64_val_of(src[4 * g], kind);
        let b = b64_val_of(src[4 * g + 1], kind);
        let c = b64_val_of(src[4 * g + 2], kind);
        let d = b64_val_of(src[4 * g + 3], kind);
        proof {
            let i0 = 4 * g as int;
            assert(body[i0] == src@[i0] && body[i0 + 1] == src@[i0 + 1] && body[i0 + 2] == src@[i0
                + 2] && body[i0 + 3] == src@[i0 + 3]);
        }
        if a == B64_INVALID || b == B64_INVALID || c == B64_INVALID || d == B64_INVALID {
            proof {
                let i0 = 4 * g as int;
                if a == B64_INVALID {
                    lemma_body_invalid_at(body, kind, i0);
                } else if b == B64_INVALID {
                    lemma_body_invalid_at(body, kind, i0 + 1);
                } else if c == B64_INVALID {
                    lemma_body_invalid_at(body, kind, i0 + 2);
                } else {
                    lemma_body_invalid_at(body, kind, i0 + 3);
                }
            }
            return Err(Error::new());
        }
        proof {
            lemma_quot(g as int, 0, 3);
            lemma_quot(g as int, 1, 3);
            lemma_quot(g as int, 2, 3);
            lemma_quot(g as int, 0, 4);
            lemma_quot(g as int, 1, 4);
            lemma_quot(g as int, 2, 4);
            lemma_quot(g as int, 3, 4);
        }
        dst[3 * g] = (a << 2) | (b >> 4);
        dst[3 * g + 1] = ((b & 0x0f) << 4) | (c >> 2);
        dst[3 * g + 2] = ((c & 0x03) << 6) | d;
        g += 1;
    }
    if t == 2 {
        let a = b64_val_of(src[4 * groups], kind);
        let b = b64_val_of(src[4 * groups + 1], kind);
        proof {
            let i0 = 4 * groups as int;
            assert(body[i0] == src@[i0] && body[i0 + 1] == src@[i0 + 1]);
            lemma_quot(groups as int, 2, 4);
        }
        if a == B64_INVALID || b == B64_INVALID {
            proof {
                let i0 = 4 * groups as int;
                if a == B64_INVALID {
                    lemma_body_invalid_at(body, kind, i0);
                } else {
                    lemma_body_invalid_at(body, kind, i0 + 1);
                }
            }
            return Err(Error::new());
        }
        if b & 0x0f != 0 {
            proof {
                lemma_body_invalid_bits(body, kind, 2);
            }
            return Err(Error::new());
        }
        proof {
            lemma_quot(groups as int, 0, 3);
            lemma_quot(groups as int, 0, 4);
            lemma_quot(groups as int, 1, 4);
            lemma_body_valid_tail(body, kind, groups as int, 2);
        }
        dst[3 * groups] = (a << 2) | (b >> 4);
    } else if t == 3 {
        let a = b64_val_of(src[4 * groups], kind);
        let b = b64_val_of(src[4 * groups + 1], kind);
        let c = b64_val_of(src[4 * groups + 2], kind);
        proof {
            let i0 = 4 * groups as int;
            assert(body[i0] == src@[i0] && body[i0 + 1] == src@[i0 + 1] && body[i0 + 2] == src@[i0
                + 2]);
            lemma_quot(groups as int, 3, 4);
        }
        if a == B64_INVALID || b == B64_INVALID || c == B64_INVALID {
            proof {
                let i0 = 4 * groups as int;
                if a == B64_INVALID {
                    lemma_body_invalid_at(body, kind, i0);
                } else if b == B64_INVALID {
                    lemma_body_invalid_at(body, kind, i0 + 1);
                } else {
                    lemma_body_invalid_at(body, kind, i0 + 2);
                }
            }
            return Err(Error::new());
        }
        if c & 0x03 != 0 {
            proof {
                lemma_body_invalid_bits(body, kind, 3);
            }
            return Err(Error::new());
        }
        proof {
            lemma_quot(groups as int, 0, 3);
            lemma_quot(groups as int, 1, 3);
            lemma_quot(groups as int, 0, 4);
            lemma_quot(groups as int, 1, 4);
            lemma_quot(groups as int, 2, 4);
            lemma_body_valid_tail(body, kind, groups as int, 3);
        }
        dst[3 * groups] = (a << 2) | (b >> 4);
        dst[3 * groups + 1] = ((b & 0x0f) << 4) | (c >> 2);
    } else {
        proof {
            lemma_body_valid_full(body, kind, groups as int);
        }
    }
    proof {
        assert(final(dst)@ =~= dec + old(dst)@.skip(nout as int));
    }
    Ok(nout)
}

/// Decodes the pad-free body `buf[..blen]` onto the front of `buf`.
fn decode_body_inplace(buf: &mut Vec<u8>, blen: usize, kind: Base64Kind) -> (r: Result<
    usize,
    Error,
>)
    requires
        blen <= old(buf)@.len(),
    ensures
        r is Ok <==> spec_b64_body_valid(old(buf)@.take(blen as int), kind),
        r matches Ok(n) ==> {
            &&& n == 3 * blen as int / 4
            &&& final(buf)@ == spec_b64_body_decode(old(buf)@.take(blen as int), kind) + old(
                buf,
            )@.skip(n as int)
        },
        final(buf)@.len() == old(buf)@.len(),
{
    let ghost body = old(buf)@.take(blen as int);
    let groups = blen / 4;
    let t = blen % 4;
    assert(blen == 4 * groups + t && t < 4);
    if t == 1 {
        return Err(Error::new());
    }
    let nout: usize = if t == 0 {
        3 * groups
    } else if t == 2 {
        3 * groups + 1
    } else {
        3 * groups + 2
    };
    proof {
        if t == 0 {
            lemma_quot(3 * groups as int, 0, 4);
        } else if t == 2 {
            lemma_quot(3 * groups as int + 1, 2, 4);
        } else {
            lemma_quot(3 * groups as int + 2, 1, 4);
        }
    }
    assert(nout == 3 * blen as int / 4);
    let ghost dec = spec_b64_body_decode(body, kind);
    assert(dec.len() == nout);
    let mut g: usize = 0;
    while g < groups
        invariant
            blen <= buf@.len(),
            blen == 4 * groups + t,
            t < 4,
            0 <= g <= groups,
            body == old(buf)@.take(blen as int),
            dec == spec_b64_body_decode(body, kind),
            dec.len() == nout,
            nout <= blen,
            buf@.len() == old(buf)@.len(),
            3 * groups <= nout,
            forall|i: int| 0 <= i < 4 * g ==> is_b64_char(body[i], kind),
            forall|j: int| 0 <= j < 3 * g ==> buf@[j] == dec[j],
            forall|k: int| 3 * g <= k < buf@.len() ==> buf@[k] == old(buf)@[k],
        decreases groups - g,
    {
        let a = b64_val_of(buf[4 * g], kind);
        let b = b64_val_of(buf[4 * g + 1], kind);
        let c = b64_val_of(buf[4 * g + 2], kind);
        let d = b64_val_of(buf[4 * g + 3], kind);
        proof {
            let i0 = 4 * g as int;
            assert(buf@[i0] == old(buf)@[i0] && buf@[i0 + 1] == old(buf)@[i0 + 1] && buf@[i0 + 2]
                == old(buf)@[i0 + 2] && buf@[i0 + 3] == old(buf)@[i0 + 3]);
            assert(body[i0] == old(buf)@[i0] && body[i0 + 1] == old(buf)@[i0 + 1] && body[i0 + 2]
                == old(buf)@[i0 + 2] && body[i0 + 3] == old(buf)@[i0 + 3]);
        }
        if a == B64_INVALID || b == B64_INVALID || c == B64_INVALID || d == B64_INVALID {
            proof {
                let i0 = 4 * g as int;
                if a == B64_INVALID {
                    lemma_body_invalid_at(body, kind, i0);
                } else if b == B64_INVALID {
                    lemma_body_invalid_at(body, kind, i0 + 1);
                } else if c == B64_INVALID {
                    lemma_body_invalid_at(body, kind, i0 + 2);
                } else {
                    lemma_body_invalid_at(body, kind, i0 + 3);
                }
            }
            return Err(Error::new());
        }
        proof {
            lemma_quot(g as int, 0, 3);
            lemma_quot(g as int, 1, 3);
            lemma_quot(g as int, 2, 3);
            lemma_quot(g as int, 0, 4);
            lemma_quot(g as int, 1, 4);
            lemma_quot(g as int, 2, 4);
            lemma_quot(g as int, 3, 4);
        }
        buf[3 * g] = (a << 2) | (b >> 4);
        buf[3 * g + 1] = ((b & 0x0f) << 4) | (c >> 2);
        buf[3 * g + 2] = ((c & 0x03) << 6) | d;
        g += 1;
    }
    if t == 2 {
        let a = b64_val_of(buf[4 * groups], kind);
        let b = b64_val_of(buf[4 * groups + 1], kind);
        proof {
            let i0 = 4 * groups as int;
            assert(buf@[i0] == old(buf)@[i0] && buf@[i0 + 1] == old(buf)@[i0 + 1]);
            assert(body[i0] == old(buf)@[i0] && body[i0 + 1] == old(buf)@[i0 + 1]);
            lemma_quot(groups as int, 2, 4);
        }
        if a == B64_INVALID || b == B64_INVALID {
            proof {
                let i0 = 4 * groups as int;
                if a == B64_INVALID {
                    lemma_body_invalid_at(body, kind, i0);
                } else {
                    lemma_body_invalid_at(body, kind, i0 + 1);
                }
            }
            return Err(Error::new());
        }
        if b & 0x0f != 0 {
            proof {
                lemma_body_invalid_bits(body, kind, 2);
            }
            return Err(Error::new());
        }
        proof {
            lemma_quot(groups as int, 0, 3);
            lemma_quot(groups as int, 0, 4);
            lemma_quot(groups as int, 1, 4);
            lemma_body_valid_tail(body, kind, groups as int, 2);
        }
        buf[3 * groups] = (a << 2) | (b >> 4);
    } else if t == 3 {
        let a = b64_val_of(buf[4 * groups], kind);
        let b = b64_val_of(buf[4 * groups + 1], kind);
        let c = b64_val_of(buf[4 * groups + 2], kind);
        proof {
            let i0 = 4 * groups as int;
            assert(buf@[i0] == old(buf)@[i0] && buf@[i0 + 1] == old(buf)@[i0 + 1] && buf@[i0 + 2]
                == old(buf)@[i0 + 2]);
            assert(body[i0] == old(buf)@[i0] && body[i0 + 1] == old(buf)@[i0 + 1] && body[i0 + 2]
                == old(buf)@[i0 + 2]);
            lemma_quot(groups as int, 3, 4);
        }
        if a == B64_INVALID || b == B64_INVALID || c == B64_INVALID {
            proof {
                let i0 = 4 * groups as int;
                if a == B64_INVALID {
                    lemma_body_invalid_at(body, kind, i0);
                } else if b == B64_INVALID {
                    lemma_body_invalid_at(body, kind, i0 + 1);
                } else {
                    lemma_body_invalid_at(body, kind, i0 + 2);
                }
            }
            return Err(Error::new());
        }
        if c & 0x03 != 0 {
            proof {
                lemma_body_invalid_bits(body, kind, 3);
            }
            return Err(Error::new());
        }
        proof {
            lemma_quot(groups as int, 0, 3);
            lemma_quot(groups as int, 1, 3);
            lemma_quot(groups as int, 0, 4);
            lemma_quot(groups as int, 1, 4);
            lemma_quot(groups as int, 2, 4);
            lemma_body_valid_tail(body, kind, groups as int, 3);
        }
        buf[3 * groups] = (a << 2) | (b >> 4);
        buf[3 * groups + 1] = ((b & 0x0f) << 4) | (c >> 2);
    } else {
        proof {
            lemma_body_valid_full(body, kind, groups as int);
        }
    }
    proof {
        assert(final(buf)@ =~= dec + old(buf)@.skip(nout as int));
    }
    Ok(nout)
}

/// Validates the pad-free body `src[..blen]` without writing output.
fn check_body(src: &[u8], blen: usize, kind: Base64Kind) -> (r: bool)
    requires
        blen <= src@.len(),
    ensures
        r <==> spec_b64_body_valid(src@.take(blen as int), kind),
{
    let ghost body = src@.take(blen as int);
    let groups = blen / 4;
    let t = blen % 4;
    assert(blen == 4 * groups + t && t < 4);
    if t == 1 {
        return false;
    }
    let mut g: usize = 0;
    while g < groups
        invariant
            blen <= src@.len(),
            blen == 4 * groups + t,
            t < 4,
            t != 1,
            0 <= g <= groups,
            body == src@.take(blen as int),
            forall|i: int| 0 <= i < 4 * g ==> is_b64_char(body[i], kind),
        decreases groups - g,
    {
        let a = b64_val_of(src[4 * g], kind);
        let b = b64_val_of(src[4 * g + 1], kind);
        let c = b64_val_of(src[4 * g + 2], kind);
        let d = b64_val_of(src[4 * g + 3], kind);
        proof {
            let i0 = 4 * g as int;
            assert(body[i0] == src@[i0] && body[i0 + 1] == src@[i0 + 1] && body[i0 + 2] == src@[i0
                + 2] && body[i0 + 3] == src@[i0 + 3]);
        }
        if a == B64_INVALID || b == B64_INVALID || c == B64_INVALID || d == B64_INVALID {
            proof {
                let i0 = 4 * g as int;
                if a == B64_INVALID {
                    lemma_body_invalid_at(body, kind, i0);
                } else if b == B64_INVALID {
                    lemma_body_invalid_at(body, kind, i0 + 1);
                } else if c == B64_INVALID {
                    lemma_body_invalid_at(body, kind, i0 + 2);
                } else {
                    lemma_body_invalid_at(body, kind, i0 + 3);
                }
            }
            return false;
        }
        g += 1;
    }
    if t == 2 {
        let a = b64_val_of(src[4 * groups], kind);
        let b = b64_val_of(src[4 * groups + 1], kind);
        proof {
            let i0 = 4 * groups as int;
            assert(body[i0] == src@[i0] && body[i0 + 1] == src@[i0 + 1]);
            lemma_quot(groups as int, 2, 4);
        }
        if a == B64_INVALID || b == B64_INVALID {
            proof {
                let i0 = 4 * groups as int;
                if a == B64_INVALID {
                    lemma_body_invalid_at(body, kind, i0);
                } else {
                    lemma_body_invalid_at(body, kind, i0 + 1);
                }
            }
            return false;
        }
        if b & 0x0f != 0 {
            proof {
                lemma_body_invalid_bits(body, kind, 2);
            }
            return false;
        }
        proof {
            lemma_body_valid_tail(body, kind, groups as int, 2);
        }
    } else if t == 3 {
        let a = b64_val_of(src[4 * groups], kind);
        let b = b64_val_of(src[4 * groups + 1], kind);
        let c = b64_val_of(src[4 * groups + 2], kind);
        proof {
            let i0 = 4 * groups as int;
            assert(body[i0] == src@[i0] && body[i0 + 1] == src@[i0 + 1] && body[i0 + 2] == src@[i0
                + 2]);
            lemma_quot(groups as int, 3, 4);
        }
        if a == B64_INVALID || b == B64_INVALID || c == B64_INVALID {
            proof {
                let i0 = 4 * groups as int;
                if a == B64_INVALID {
                    lemma_body_invalid_at(body, kind, i0);
                } else if b == B64_INVALID {
                    lemma_body_invalid_at(body, kind, i0 + 1);
                } else {
                    lemma_body_invalid_at(body, kind, i0 + 2);
                }
            }
            return false;
        }
        if c & 0x03 != 0 {
            proof {
                lemma_body_invalid_bits(body, kind, 3);
            }
            return false;
        }
        proof {
            lemma_body_valid_tail(body, kind, groups as int, 3);
        }
    } else {
        proof {
            lemma_body_valid_full(body, kind, groups as int);
        }
    }
    true
}

impl Base64 {
    /// The pad-free body length of `src`: strips 0, 1 or 2 trailing
    /// pad bytes when the variant is padded.
    fn body_len_of(&self, src: &[u8]) -> (r: usize)
        requires
            self.padding ==> src@.len() % 4 == 0,
        ensures
            self.padding ==> r == src@.len() - spec_pad_len(src@),
            !self.padding ==> r == src@.len(),
            r <= src@.len(),
    {
        let m = src.len();
        if !self.padding {
            return m;
        }
        if m >= 1 && src[m - 1] == PAD {
            if m >= 2 && src[m - 2] == PAD {
                m - 2
            } else {
                m - 1
            }
        } else {
            m
        }
    }

    /// Validates `src`: succeeds exactly on the inputs `decode` decodes.
    pub fn check(&self, src: &[u8]) -> (r: Result<(), Error>)
        ensures
            r is Ok <==> spec_b64_decode(src@, self.kind, self.padding) is Some,
    {
        let m = src.len();
        if self.padding && m % 4 != 0 {
            return Err(Error::new());
        }
        let blen = self.body_len_of(src);
        proof {
            if !self.padding {
                assert(src@.take(blen as int) =~= src@);
            }
        }
        if check_body(src, blen, self.kind) {
            Ok(())
        } else {
            Err(Error::new())
        }
    }

    /// Decodes `src` into the front of `dst` and returns the number of
    /// bytes written. Fails iff `src` is not a valid encoding of the
    /// variant or `dst` is shorter than the decoded length.
    pub fn decode(&self, src: &[u8], dst: &mut Vec<u8>) -> (r: Result<usize, Error>)
        ensures
            r is Ok <==> (spec_b64_decode(src@, self.kind, self.padding) matches Some(out)
                && old(dst)@.len() >= out.len()),
            r matches Ok(n) ==> {
                &&& spec_b64_decode(src@, self.kind, self.padding) matches Some(out)
                &&& n == out.len()
                &&& final(dst)@ == out + old(dst)@.skip(n as int)
            },
            final(dst)@.len() == old(dst)@.len(),
    {
        let m = src.len();
        if self.padding && m % 4 != 0 {
            return Err(Error::new());
        }
        let blen = self.body_len_of(src);
        let groups = blen / 4;
        let t = blen % 4;
        assert(blen == 4 * groups + t && t < 4);
        if t == 1 {
            proof {
                if !self.padding {
                    assert(src@.take(blen as int) =~= src@);
                }
            }
            return Err(Error::new());
        }
        let nout: usize = if t == 0 {
            3 * groups
        } else if t == 2 {
            3 * groups + 1
        } else {
            3 * groups + 2
        };
        proof {
            if t == 0 {
                lemma_quot(3 * groups as int, 0, 4);
            } else if t == 2 {
                lemma_quot(3 * groups as int + 1, 2, 4);
            } else {
                lemma_quot(3 * groups as int + 2, 1, 4);
            }
        }
        assert(nout == 3 * blen as int / 4);
        proof {
            if !self.padding {
                assert(src@.take(blen as int) =~= src@);
            }
            if spec_b64_decode(src@, self.kind, self.padding) is Some {
                assert(spec_b64_decode(src@, self.kind, self.padding).unwrap().len() == nout);
            }
        }
        if dst.len() < nout {
            return Err(Error::new());
        }
        decode_body_into(src, blen, self.kind, dst)
    }

    /// Decodes `buf` in place: on success the decoded bytes stand at
    /// the front of `buf` and the bytes past the pad-free body are
    /// unchanged. Fails iff `buf` is not a valid encoding; the prefix
    /// contents are then unspecified, but the length is preserved.
    pub fn decode_inplace(&self, buf: &mut Vec<u8>) -> (r: Result<usize, Error>)
        ensures
            r is Ok <==> spec_b64_decode(old(buf)@, self.kind, self.padding) is Some,
            r matches Ok(n) ==> {
                &&& spec_b64_decode(old(buf)@, self.kind, self.padding) matches Some(out)
                &&& n == out.len()
                &&& final(buf)@ == out + old(buf)@.skip(n as int)
            },
            final(buf)@.len() == old(buf)@.len(),
    {
        let m = buf.len();
        if self.padding && m % 4 != 0 {
            return Err(Error::new());
        }
        let blen = {
            if !self.padding {
                m
            } else {
                if m >= 1 && buf[m - 1] == PAD {
                    if m >= 2 && buf[m - 2] == PAD {
                        m - 2
                    } else {
                        m - 1
                    }
                } else {
                    m
                }
            }
        };
        assert(self.padding ==> blen == old(buf)@.len() - spec_pad_len(old(buf)@));
        proof {
            assert(buf@ == old(buf)@);
            if !self.padding {
                assert(old(buf)@.take(blen as int) =~= old(buf)@);
            }
        }
        decode_body_inplace(buf, blen, self.kind)
    }
}

/// An alphabet byte of either kind maps back to the 6-bit value it
/// encodes, and is never the pad byte.
proof fn lemma_b64_char_val(v: u8, kind: Base64Kind)
    requires
        v < 64,
    ensures
        is_b64_char(spec_b64_char(v, kind), kind),
        spec_b64_val(spec_b64_char(v, kind), kind) == v,
        spec_b64_char(v, kind) != PAD,
{
}

/// The alphabet map is injective: value then character is the identity
/// on alphabet bytes.
proof fn lemma_b64_val_char(c: u8, kind: Base64Kind)
    requires
        is_b64_char(c, kind),
    ensures
        spec_b64_val(c, kind) < 64,
        spec_b64_char(spec_b64_val(c, kind), kind) == c,
{
}

/// Splitting three bytes into 6-bit fields and reassembling them is the
/// identity, and the fields are 6-bit values.
proof fn lemma_b64_split_bits(b0: u8, b1: u8, b2: u8)
    by (bit_vector)
    ensures
        b0 >> 2 < 64,
        (((b0 & 0x03) << 4) | (b1 >> 4)) < 64,
        (((b1 & 0x0f) << 2) | (b2 >> 6)) < 64,
        b2 & 0x3f < 64,
        ((b0 >> 2) << 2) | ((((b0 & 0x03) << 4) | (b1 >> 4)) >> 4) == b0,
        (((((b0 & 0x03) << 4) | (b1 >> 4)) & 0x0f) << 4) | (((((b1 & 0x0f) << 2) | (b2 >> 6)))
            >> 2) == b1,
        (((((b1 & 0x0f) << 2) | (b2 >> 6)) & 0x03) << 6) | (b2 & 0x3f) == b2,
        ((b0 & 0x03) << 4) & 0x0f == 0,
        ((b1 & 0x0f) << 2) & 0x03 == 0,
        (((b0 & 0x03) << 4) | (0u8 >> 4)) & 0x0f == 0,
        (((b1 & 0x0f) << 2) | (0u8 >> 6)) & 0x03 == 0,
        0u8 >> 4 == 0,
        0u8 >> 6 == 0,
{
}

/// Reassembling four 6-bit values into three bytes and splitting them
/// again is the identity.
proof fn lemma_b64_merge_bits(a: u8, b: u8, c: u8, d: u8)
    by (bit_vector)
    requires
        a < 64,
        b < 64,
        c < 64,
        d < 64,
    ensures
        ((a << 2) | (b >> 4)) >> 2 == a,
        ((((a << 2) | (b >> 4)) & 0x03) << 4) | ((((b & 0x0f) << 4) | (c >> 2)) >> 4) == b,
        (((((b & 0x0f) << 4) | (c >> 2)) & 0x0f) << 2) | ((((c & 0x03) << 6) | d) >> 6) == c,
        (((c & 0x03) << 6) | d) & 0x3f == d,
        b & 0x0f == 0 ==> (((a << 2) | (b >> 4)) & 0x03) << 4 == b,
        c & 0x03 == 0 ==> ((((b & 0x0f) << 4) | (c >> 2)) & 0x0f) << 2 == c,
        b & 0x0f == 0 ==> ((((a << 2) | (b >> 4)) & 0x03) << 4) | (0u8 >> 4) == b,
        c & 0x03 == 0 ==> (((((b & 0x0f) << 4) | (c >> 2)) & 0x0f) << 2) | (0u8 >> 6) == c,
{
}

/// Length law: the encoding of `x` has exactly the encoded length of
/// `x.len()`.
pub proof fn lemma_b64_encoded_length(x: Seq<u8>, kind: Base64Kind, padding: bool)
    ensures
        spec_b64_encode(x, kind, padding).len() == spec_encoded_length(x.len() as int, padding),
        spec_encoded_length(x.len() as int, padding) >= 0,
{
    let n = x.len() as int;
    let q = n / 3;
    let rem = n % 3;
    assert(n == 3 * q + rem && 0 <= rem < 3);
    if rem == 0 {
        lemma_quot(q, 2, 3);
        lemma_quot(4 * q, 2, 3);
    } else if rem == 1 {
        lemma_quot(q + 1, 0, 3);
        lemma_quot(4 * q + 2, 0, 3);
    } else {
        lemma_quot(q + 1, 1, 3);
        lemma_quot(4 * q + 3, 1, 3);
    }
}

/// The shape facts the round-trip proofs share: with `n = 3q + rem`,
/// the body and encoded lengths in terms of `q` and `rem`.
proof fn lemma_b64_shape(n: int, padding: bool)
    requires
        n >= 0,
    ensures
        ({
            let q = n / 3;
            let rem = n % 3;
            &&& spec_b64_body_len(n) == 4 * q + (if rem == 0 {
                0int
            } else if rem == 1 {
                2int
            } else {
                3int
            })
            &&& spec_encoded_length(n, padding) == 4 * q + (if rem == 0 {
                0int
            } else if padding {
                4int
            } else if rem == 1 {
                2int
            } else {
                3int
            })
            &&& spec_b64_body_len(n) % 4 == (if rem == 0 {
                0int
            } else if rem == 1 {
                2int
            } else {
                3int
            })
            &&& 3 * spec_b64_body_len(n) / 4 == n
        }),
{
    let q = n / 3;
    let rem = n % 3;
    assert(n == 3 * q + rem && 0 <= rem < 3);
    if rem == 0 {
        lemma_quot(q, 2, 3);
        lemma_quot(4 * q, 2, 3);
        lemma_quot(q, 0, 4);
        lemma_quot(3 * q, 0, 4);
    } else if rem == 1 {
        lemma_quot(q + 1, 0, 3);
        lemma_quot(4 * q + 2, 0, 3);
        lemma_quot(q, 2, 4);
        lemma_quot(3 * q + 1, 2, 4);
    } else {
        lemma_quot(q + 1, 1, 3);
        lemma_quot(4 * q + 3, 1, 3);
        lemma_quot(q, 3, 4);
        lemma_quot(3 * q + 2, 1, 4);
    }
}

/// Round trip: decoding the encoding of any byte sequence, in any
/// variant, returns exactly that sequence.
#[verifier::rlimit(100)]
pub proof fn lemma_b64_round_trip(x: Seq<u8>, kind: Base64Kind, padding: bool)
    ensures
        spec_b64_decode(spec_b64_encode(x, kind, padding), kind, padding) == Some(x),
{
    let n = x.len() as int;
    let q = n / 3;
    let rem = n % 3;
    assert(n == 3 * q + rem && 0 <= rem < 3);
    let e = spec_b64_encode(x, kind, padding);
    let bl = spec_b64_body_len(n);
    let el = spec_encoded_length(n, padding);
    lemma_b64_shape(n, padding);
    lemma_b64_encoded_length(x, kind, padding);

    // Every body position holds an alphabet byte, never a pad.
    assert forall|i: int| 0 <= i < bl implies is_b64_char(e[i], kind) && e[i] != PAD
        && spec_b64_val(e[i], kind) == spec_b64_field(x, i) by {
        let g = i / 4;
        lemma_b64_split_bits(
            spec_b64_byte_at(x, 3 * g),
            spec_b64_byte_at(x, 3 * g + 1),
            spec_b64_byte_at(x, 3 * g + 2),
        );
        lemma_b64_char_val(spec_b64_field(x, i), kind);
    }

    // The padded tail is exactly the pads the decoder strips.
    let body = e.take(bl);
    if padding {
        assert(el % 4 == 0);
        assert(spec_pad_len(e) == el - bl) by {
            if rem == 0 {
                if n > 0 {
                    assert(e[el - 1] != PAD);
                }
            } else if rem == 1 {
                assert(e[el - 1] == PAD && e[el - 2] == PAD);
            } else {
                assert(e[el - 1] == PAD && e[el - 2] != PAD);
            }
        }
        assert(e.take(e.len() - spec_pad_len(e)) == body);
    } else {
        assert(e.take(e.len() as int) =~= e);
        assert(body =~= e);
    }

    // The body is valid: residue, alphabet, and zero trailing bits.
    assert(spec_b64_body_valid(body, kind)) by {
        assert(body.len() == bl && bl % 4 != 1);
        assert(forall|i: int| 0 <= i < bl ==> body[i] == e[i]);
        if rem == 1 {
            let i = bl - 1;
            assert(i % 4 == 1 && i / 4 == q) by {
                lemma_quot(q, 1, 4);
            }
            assert(spec_b64_byte_at(x, 3 * q + 1) == 0);
            lemma_b64_split_bits(spec_b64_byte_at(x, 3 * q), 0, 0);
        } else if rem == 2 {
            let i = bl - 1;
            assert(i % 4 == 2 && i / 4 == q) by {
                lemma_quot(q, 2, 4);
            }
            assert(spec_b64_byte_at(x, 3 * q + 2) == 0);
            lemma_b64_split_bits(spec_b64_byte_at(x, 3 * q), spec_b64_byte_at(x, 3 * q + 1), 0);
        }
    }

    // Decoding the body gives back `x`, byte for byte.
    let dec = spec_b64_body_decode(body, kind);
    assert(dec.len() == n);
    assert forall|j: int| 0 <= j < n implies dec[j] == x[j] by {
        let g = j / 3;
        let p = j % 3;
        assert(0 <= p < 3 && j == 3 * g + p && g >= 0);
        let b0 = spec_b64_byte_at(x, 3 * g);
        let b1 = spec_b64_byte_at(x, 3 * g + 1);
        let b2 = spec_b64_byte_at(x, 3 * g + 2);
        lemma_b64_split_bits(b0, b1, b2);
        assert(4 * g + 1 < bl);
        lemma_quot(g, 0, 4);
        lemma_quot(g, 1, 4);
        lemma_quot(g, 2, 4);
        lemma_quot(g, 3, 4);
        if p == 0 {
            assert(x[j] == b0);
        } else if p == 1 {
            assert(4 * g + 2 < bl);
            assert(x[j] == b1);
        } else {
            assert(4 * g + 3 < bl);
            assert(x[j] == b2);
        }
    }
    assert(dec =~= x);
}

/// Canonicity: whenever decoding succeeds, re-encoding the result
/// reproduces the input exactly. An input whose unused trailing bits
/// are not zero, or whose padding is irregular, is therefore rejected:
/// it could not equal the re-encoding of its own decoding.
#[verifier::rlimit(100)]
pub proof fn lemma_b64_canonical(s: Seq<u8>, kind: Base64Kind, padding: bool)
    requires
        spec_b64_decode(s, kind, padding) is Some,
    ensures
        spec_b64_encode(spec_b64_decode(s, kind, padding).unwrap(), kind, padding) == s,
{
    let m = s.len() as int;
    let p = if padding {
        spec_pad_len(s)
    } else {
        0
    };
    let body = if padding {
        s.take(m - p)
    } else {
        s
    };
    if !padding {
        assert(s.take(m) =~= s);
    }
    let bl = body.len() as int;
    let x = spec_b64_body_decode(body, kind);
    let n = x.len() as int;
    let G = bl / 4;
    let t = bl % 4;
    assert(bl == 4 * G + t && 0 <= t < 4);
    assert(t != 1);
    lemma_b64_shape(n, padding);

    // The output length and residue determine the body length back.
    assert(n == 3 * bl / 4);
    if t == 0 {
        lemma_quot(3 * G, 0, 4);
        lemma_quot(G, 0, 3);
    } else if t == 2 {
        lemma_quot(3 * G + 1, 2, 4);
        lemma_quot(G, 1, 3);
    } else {
        lemma_quot(3 * G + 2, 1, 4);
        lemma_quot(G, 2, 3);
    }
    assert(n / 3 == G && n % 3 == (if t == 0 {
        0int
    } else if t == 2 {
        1int
    } else {
        2int
    }));
    assert(spec_b64_body_len(n) == bl);
    let e = spec_b64_encode(x, kind, padding);
    lemma_b64_encoded_length(x, kind, padding);
    if padding {
        assert(m % 4 == 0);
        assert(0 <= p <= 2);
        assert(t == 2 ==> p == 2) by {
            if t == 2 {
                lemma_quot(G, 2, 4);
                lemma_quot(G + 1, 0, 4);
            }
        }
        assert(t == 3 ==> p == 1) by {
            if t == 3 {
                lemma_quot(G, 3, 4);
            }
        }
        assert(t == 0 ==> p == 0) by {
            if t == 0 {
                lemma_quot(G, 0, 4);
                lemma_quot(G - 1, 2, 4);
                lemma_quot(G - 1, 3, 4);
            }
        }
        assert(e.len() == m);
    } else {
        assert(e.len() == m);
    }

    // Each encoded field equals the value of the input byte there.
    assert forall|i: int| 0 <= i < bl implies spec_b64_field(x, i) == spec_b64_val(body[i], kind)
        && e[i] == s[i] by {
        let g = i / 4;
        let pp = i % 4;
        assert(0 <= pp < 4 && i == 4 * g + pp && g >= 0);
        let a = spec_b64_val(spec_b64_byte_at(body, 4 * g), kind);
        let b = spec_b64_val(spec_b64_byte_at(body, 4 * g + 1), kind);
        let c = spec_b64_val(spec_b64_byte_at(body, 4 * g + 2), kind);
        let d = spec_b64_val(spec_b64_byte_at(body, 4 * g + 3), kind);
        lemma_quot(g, 0, 3);
        lemma_quot(g, 1, 3);
        lemma_quot(g, 2, 3);
        lemma_quot(g, 0, 4);
        lemma_quot(g, 1, 4);
        lemma_quot(g, 2, 4);
        lemma_quot(g, 3, 4);
        assert(is_b64_char(body[4 * g], kind));
        lemma_b64_val_char(body[4 * g], kind);
        assert(4 * g + 1 < bl);
        lemma_b64_val_char(body[4 * g + 1], kind);
        if 4 * g + 2 < bl {
            lemma_b64_val_char(body[4 * g + 2], kind);
        }
        if 4 * g + 3 < bl {
            lemma_b64_val_char(body[4 * g + 3], kind);
        }
        if 4 * g + 3 < bl {
            lemma_b64_merge_bits(a, b, c, d);
        } else if t == 2 && g == G {
            assert(b & 0x0f == 0);
            lemma_b64_merge_bits(a, b, 0, 0);
        } else if t == 3 && g == G {
            assert(c & 0x03 == 0);
            lemma_b64_merge_bits(a, b, c, 0);
        }
        lemma_b64_val_char(body[i], kind);
    }

    // Pad positions of the encoding equal the pads of the input.
    assert forall|i: int| bl <= i < e.len() implies e[i] == s[i] by {
        assert(e[i] == PAD);
        assert(i == m - 1 || i == m - 2);
    }
    assert(e =~= s);
}

/// Alphabet exhaustivity: an accepted input consists of alphabet bytes
/// of its variant, with the pad byte admitted only as trailing padding
/// of a padded variant.
pub proof fn lemma_b64_alphabet(s: Seq<u8>, kind: Base64Kind, padding: bool)
    requires
        spec_b64_decode(s, kind, padding) is Some,
    ensures
        forall|i: int|
            0 <= i < s.len() ==> (is_b64_char(s[i], kind) || (padding && s[i] == PAD && i
                >= s.len() - 2)),
{
    let m = s.len() as int;
    if padding {
        let body = s.take(m - spec_pad_len(s));
        assert(spec_b64_body_valid(body, kind));
        assert forall|i: int| 0 <= i < m implies (is_b64_char(s[i], kind) || (padding && s[i]
            == PAD && i >= m - 2)) by {
            if i < m - spec_pad_len(s) {
                assert(body[i] == s[i]);
            }
        }
    } else {
        assert(s.take(m) =~= s);
    }
}

/// Whether `c` is ASCII whitespace in the WHATWG sense: space, tab,
/// line feed, form feed or carriage return.
pub open spec fn is_ascii_ws(c: u8) -> bool {
    c == 0x20 || c == 0x09 || c == 0x0a || c == 0x0c || c == 0x0d
}

/// `s` with every ASCII whitespace byte removed, order kept.
pub open spec fn spec_remove_ws(s: Seq<u8>) -> Seq<u8>
    decreases s.len(),
{
    if s.len() == 0 {
        Seq::empty()
    } else if is_ascii_ws(s.last()) {
        spec_remove_ws(s.drop_last())
    } else {
        spec_remove_ws(s.drop_last()).push(s.last())
    }
}

/// Removing whitespace from a whitespace-free sequence changes nothing.
proof fn lemma_remove_ws_clean(s: Seq<u8>)
    requires
        forall|i: int| 0 <= i < s.len() ==> !is_ascii_ws(s[i]),
    ensures
        spec_remove_ws(s) == s,
    decreases s.len(),
{
    if s.len() > 0 {
        lemma_remove_ws_clean(s.drop_last());
        assert(spec_remove_ws(s.drop_last()).push(s.last()) =~= s);
    } else {
        assert(spec_remove_ws(s) =~= s);
    }
}

/// The standard-alphabet byte `c` with only the `keep` bits of its
/// 6-bit value retained; any byte outside the alphabet is unchanged.
pub open spec fn spec_discard(c: u8, keep: u8) -> u8 {
    if is_b64_char(c, Base64Kind::Standard) {
        spec_b64_char(spec_b64_val(c, Base64Kind::Standard) & keep, Base64Kind::Standard)
    } else {
        c
    }
}

/// Whether `c` is ASCII whitespace in the WHATWG sense.
pub fn is_ascii_whitespace(c: u8) -> (r: bool)
    ensures
        r == is_ascii_ws(c),
{
    c == 0x20 || c == 0x09 || c == 0x0a || c == 0x0c || c == 0x0d
}

/// The length of the longest whitespace-free prefix of `data`: the
/// index of the first ASCII whitespace byte, or `data.len()`.
pub fn find_non_ascii_whitespace(data: &[u8]) -> (r: usize)
    ensures
        r <= data@.len(),
        forall|j: int| 0 <= j < r ==> !is_ascii_ws(data@[j]),
        r < data@.len() ==> is_ascii_ws(data@[r as int]),
{
    let n = data.len();
    let mut i: usize = 0;
    while i < n
        invariant
            n == data@.len(),
            0 <= i <= n,
            forall|j: int| 0 <= j < i ==> !is_ascii_ws(data@[j]),
        decreases n - i,
    {
        if is_ascii_whitespace(data[i]) {
            return i;
        }
        i += 1;
    }
    n
}

/// Removes ASCII whitespace in place and returns the new length: the
/// first `r` bytes of `data` then hold the whitespace-free subsequence,
/// and the overall length is unchanged.
pub fn remove_ascii_whitespace(data: &mut Vec<u8>) -> (r: usize)
    ensures
        r <= final(data)@.len(),
        final(data)@.len() == old(data)@.len(),
        final(data)@.take(r as int) == spec_remove_ws(old(data)@),
{
    let n = data.len();
    let start = find_non_ascii_whitespace(data.as_slice());
    proof {
        lemma_remove_ws_clean(old(data)@.take(start as int));
        assert(old(data)@.take(start as int) == data@.take(start as int));
    }
    let mut w = start;
    let mut rdr = start;
    while rdr < n
        invariant
            n == data@.len(),
            data@.len() == old(data)@.len(),
            start <= w <= rdr <= n,
            data@.take(w as int) == spec_remove_ws(old(data)@.take(rdr as int)),
            forall|k: int| rdr <= k < n ==> data@[k] == old(data)@[k],
        decreases n - rdr,
    {
        let c = data[rdr];
        proof {
            assert(old(data)@.take(rdr as int + 1).drop_last() =~= old(data)@.take(rdr as int));
            assert(old(data)@.take(rdr as int + 1).last() == c);
        }
        if !is_ascii_whitespace(c) {
            data[w] = c;
            proof {
                assert(data@.take(w as int + 1) =~= data@.take(w as int).push(c));
            }
            w += 1;
        }
        rdr += 1;
    }
    proof {
        assert(old(data)@.take(n as int) =~= old(data)@);
    }
    w
}

/// Clears the low four bits of the 6-bit value of a standard-alphabet
/// byte; other bytes pass through unchanged.
pub fn forgiving_discard4(ch: u8) -> (r: u8)
    ensures
        r == spec_discard(ch, 0x30),
{
    let v = b64_val_of(ch, Base64Kind::Standard);
    if v == B64_INVALID {
        ch
    } else {
        assert(v < 64 ==> v & 0x30 < 64) by (bit_vector);
        b64_char_of(v & 0x30, Base64Kind::Standard)
    }
}

/// Clears the low two bits of the 6-bit value of a standard-alphabet
/// byte; other bytes pass through unchanged.
pub fn forgiving_discard2(ch: u8) -> (r: u8)
    ensures
        r == spec_discard(ch, 0x3c),
{
    let v = b64_val_of(ch, Base64Kind::Standard);
    if v == B64_INVALID {
        ch
    } else {
        assert(v < 64 ==> v & 0x3c < 64) by (bit_vector);
        b64_char_of(v & 0x3c, Base64Kind::Standard)
    }
}

/// The forgiving fix-up of a whitespace-free input `t`: strip one or
/// two trailing pads of a four-aligned input and clear the bits they
/// stand for, or clear the unused bits of an unpadded tail.
pub open spec fn spec_forgiving_fix(t: Seq<u8>) -> Seq<u8> {
    let m = t.len() as int;
    if m == 0 {
        t
    } else if m % 4 == 0 {
        if t[m - 1] == PAD {
            if t[m - 2] == PAD {
                t.update(m - 3, spec_discard(t[m - 3], 0x30)).take(m - 2)
            } else {
                t.update(m - 2, spec_discard(t[m - 2], 0x3c)).take(m - 1)
            }
        } else {
            t
        }
    } else if m % 4 == 1 {
        t
    } else if m % 4 == 2 {
        t.update(m - 1, spec_discard(t[m - 1], 0x30))
    } else {
        t.update(m - 1, spec_discard(t[m - 1], 0x3c))
    }
}

/// The forgiving Base64 decoding of `s`: strip ASCII whitespace, fix
/// the tail, then decode as the unpadded standard variant.
pub open spec fn spec_forgiving_decode(s: Seq<u8>) -> Option<Seq<u8>> {
    spec_b64_decode(spec_forgiving_fix(spec_remove_ws(s)), Base64Kind::Standard, false)
}

impl Base64 {
    /// Forgiving decode in place: strips ASCII whitespace, tolerates a
    /// padded or an unpadded tail, and decodes with the standard
    /// alphabet. On success the decoded bytes stand at the front of
    /// `buf`; the length of `buf` is preserved.
    pub fn forgiving_decode_inplace(buf: &mut Vec<u8>) -> (r: Result<usize, Error>)
        ensures
            r is Ok <==> spec_forgiving_decode(old(buf)@) is Some,
            r matches Ok(n) ==> {
                &&& spec_forgiving_decode(old(buf)@) matches Some(out)
                &&& n == out.len()
                &&& final(buf)@.take(n as int) == out
            },
            final(buf)@.len() == old(buf)@.len(),
    {
        let n = remove_ascii_whitespace(buf);
        let ghost t = spec_remove_ws(old(buf)@);
        assert(buf@.take(n as int) == t);
        let n2: usize = if n == 0 {
            n
        } else if n % 4 == 0 {
            if buf[n - 1] == PAD {
                if buf[n - 2] == PAD {
                    let fixed = forgiving_discard4(buf[n - 3]);
                    buf[n - 3] = fixed;
                    n - 2
                } else {
                    let fixed = forgiving_discard2(buf[n - 2]);
                    buf[n - 2] = fixed;
                    n - 1
                }
            } else {
                n
            }
        } else if n % 4 == 1 {
            n
        } else if n % 4 == 2 {
            let fixed = forgiving_discard4(buf[n - 1]);
            buf[n - 1] = fixed;
            n
        } else {
            let fixed = forgiving_discard2(buf[n - 1]);
            buf[n - 1] = fixed;
            n
        };
        proof {
            assert(buf@.take(n2 as int) =~= spec_forgiving_fix(t));
        }
        let ghost fixed_seq = spec_forgiving_fix(t);
        let ghost pre = buf@;
        let r = decode_body_inplace(buf, n2, Base64Kind::Standard);
        proof {
            assert(pre.take(n2 as int) == fixed_seq);
            if r is Ok {
                let out = spec_b64_body_decode(fixed_seq, Base64Kind::Standard);
                assert(final(buf)@.take(out.len() as int) =~= out);
            }
        }
        r
    }
}

} // verus!
