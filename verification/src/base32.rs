//! Base32 codec: the RFC 4648 standard alphabet (`A-Z2-7`) and the
//! extended-hex alphabet (`0-9A-V`), each padded or unpadded.
//!
//! Every operation is specified against [`spec_b32_encode`] and
//! [`spec_b32_decode`] over byte sequences. Encoding emits the
//! upper-case alphabet; decoding accepts both cases. A padded input
//! must carry the exact `=` count for its final group, and the unused
//! bits of a partial final group must be zero.

use vstd::prelude::*;
use vstd::arithmetic::div_mod::lemma_fundamental_div_mod_converse;

verus! {

/// Base32 codec error: the input is not a valid encoding of the chosen
/// variant, or the output buffer is too small.
#[derive(Debug, Clone, Copy, PartialEq, Eq, Structural)]
pub struct Error;

impl Error {
    pub(crate) fn new() -> Error {
        Error
    }

    /// A fixed description, in place of a `Display` impl.
    pub fn message(&self) -> (s: &'static str)
        ensures
            s@ == "Base32 Error"@,
    {
        "Base32 Error"
    }
}

/// Which alphabet the variant uses.
#[derive(Debug, Clone, Copy, PartialEq, Eq, Structural)]
pub enum Base32Kind {
    /// `A-Z` then `2-7`.
    Standard,
    /// `0-9` then `A-V`.
    Hex,
}

/// A Base32 variant: an alphabet together with a padding policy.
#[derive(Debug, Clone, Copy, PartialEq, Eq, Structural)]
pub struct Base32 {
    pub kind: Base32Kind,
    pub padding: bool,
}

/// The ASCII pad byte `=`.
pub const PAD: u8 = 0x3d;

/// The sentinel `spec_b32_val` returns for a byte outside the alphabet.
pub const B32_INVALID: u8 = 0xff;

impl Base32 {
    /// Standard alphabet, padded.
    pub fn standard() -> (r: Base32)
        ensures
            r == (Base32 { kind: Base32Kind::Standard, padding: true }),
    {
        Base32 { kind: Base32Kind::Standard, padding: true }
    }

    /// Standard alphabet, no padding.
    pub fn standard_no_pad() -> (r: Base32)
        ensures
            r == (Base32 { kind: Base32Kind::Standard, padding: false }),
    {
        Base32 { kind: Base32Kind::Standard, padding: false }
    }

    /// Extended-hex alphabet, padded.
    pub fn base32hex() -> (r: Base32)
        ensures
            r == (Base32 { kind: Base32Kind::Hex, padding: true }),
    {
        Base32 { kind: Base32Kind::Hex, padding: true }
    }

    /// Extended-hex alphabet, no padding.
    pub fn base32hex_no_pad() -> (r: Base32)
        ensures
            r == (Base32 { kind: Base32Kind::Hex, padding: false }),
    {
        Base32 { kind: Base32Kind::Hex, padding: false }
    }
}

/// The upper-case alphabet byte for the 5-bit value `v`.
pub open spec fn spec_b32_char(v: u8, kind: Base32Kind) -> u8
    recommends
        v < 32,
{
    if kind == Base32Kind::Standard {
        if v < 26 {
            (0x41 + v) as u8
        } else {
            (0x32 + v - 26) as u8
        }
    } else {
        if v < 10 {
            (0x30 + v) as u8
        } else {
            (0x41 + v - 10) as u8
        }
    }
}

/// The 5-bit value of an alphabet byte of either case; `B32_INVALID`
/// for any other byte, including the pad.
pub open spec fn spec_b32_val(c: u8, kind: Base32Kind) -> u8 {
    if kind == Base32Kind::Standard {
        if 0x41 <= c <= 0x5a {
            (c - 0x41) as u8
        } else if 0x61 <= c <= 0x7a {
            (c - 0x61) as u8
        } else if 0x32 <= c <= 0x37 {
            (c - 0x32 + 26) as u8
        } else {
            B32_INVALID
        }
    } else {
        if 0x30 <= c <= 0x39 {
            (c - 0x30) as u8
        } else if 0x41 <= c <= 0x56 {
            (c - 0x41 + 10) as u8
        } else if 0x61 <= c <= 0x76 {
            (c - 0x61 + 10) as u8
        } else {
            B32_INVALID
        }
    }
}

/// Whether `c` belongs to the alphabet of `kind`, in either case.
pub open spec fn is_b32_char(c: u8, kind: Base32Kind) -> bool {
    spec_b32_val(c, kind) != B32_INVALID
}

/// `s[idx]`, or 0 past the end: the implicit zero bytes that complete
/// a trailing input group.
pub open spec fn spec_b32_byte_at(s: Seq<u8>, idx: int) -> u8 {
    if 0 <= idx < s.len() {
        s[idx]
    } else {
        0
    }
}

/// The 5-bit field at output position `i`: position `8g + p` takes its
/// bits from input bytes `5g .. 5g + 5`, zero-extended past the end.
pub open spec fn spec_b32_field(s: Seq<u8>, i: int) -> u8 {
    let g = i / 8;
    let p = i % 8;
    let b0 = spec_b32_byte_at(s, 5 * g);
    let b1 = spec_b32_byte_at(s, 5 * g + 1);
    let b2 = spec_b32_byte_at(s, 5 * g + 2);
    let b3 = spec_b32_byte_at(s, 5 * g + 3);
    let b4 = spec_b32_byte_at(s, 5 * g + 4);
    if p == 0 {
        b0 >> 3
    } else if p == 1 {
        ((b0 & 0x07) << 2) | (b1 >> 6)
    } else if p == 2 {
        (b1 >> 1) & 0x1f
    } else if p == 3 {
        ((b1 & 0x01) << 4) | (b2 >> 4)
    } else if p == 4 {
        ((b2 & 0x0f) << 1) | (b3 >> 7)
    } else if p == 5 {
        (b3 >> 2) & 0x1f
    } else if p == 6 {
        ((b3 & 0x03) << 3) | (b4 >> 5)
    } else {
        b4 & 0x1f
    }
}

/// The number of alphabet bytes that encode `n` input bytes: `⌈8n/5⌉`.
pub open spec fn spec_b32_body_len(n: int) -> int {
    (8 * n + 4) / 5
}

/// The encoded length of `n` input bytes: `8·⌈n/5⌉` padded, `⌈8n/5⌉`
/// unpadded.
pub open spec fn spec_b32_encoded_length(n: int, padding: bool) -> int {
    if padding {
        8 * ((n + 4) / 5)
    } else {
        (8 * n + 4) / 5
    }
}

/// The Base32 encoding of `s`: the 5-bit fields of `s` through the
/// alphabet, then pad bytes up to the padded length.
pub open spec fn spec_b32_encode(s: Seq<u8>, kind: Base32Kind, padding: bool) -> Seq<u8> {
    Seq::new(
        spec_b32_encoded_length(s.len() as int, padding) as nat,
        |i: int|
            if i < spec_b32_body_len(s.len() as int) {
                spec_b32_char(spec_b32_field(s, i), kind)
            } else {
                PAD
            },
    )
}

/// Whether `s` is a valid pad-free encoded body: a length residue of
/// 0, 2, 4, 5 or 7, alphabet bytes only, and zero unused bits in a
/// partial final group (the canonicity requirement).
pub open spec fn spec_b32_body_valid(s: Seq<u8>, kind: Base32Kind) -> bool {
    &&& s.len() % 8 != 1 && s.len() % 8 != 3 && s.len() % 8 != 6
    &&& (forall|i: int| 0 <= i < s.len() ==> is_b32_char(s[i], kind))
    &&& (s.len() % 8 == 2 ==> spec_b32_val(s[s.len() - 1], kind) & 0x03 == 0)
    &&& (s.len() % 8 == 4 ==> spec_b32_val(s[s.len() - 1], kind) & 0x0f == 0)
    &&& (s.len() % 8 == 5 ==> spec_b32_val(s[s.len() - 1], kind) & 0x01 == 0)
    &&& (s.len() % 8 == 7 ==> spec_b32_val(s[s.len() - 1], kind) & 0x07 == 0)
}

/// The decoded byte at position `j`: position `5g + p` reassembles the
/// 5-bit values of encoded bytes `8g .. 8g + 8`.
pub open spec fn spec_b32_decoded_byte(s: Seq<u8>, kind: Base32Kind, j: int) -> u8 {
    let g = j / 5;
    let p = j % 5;
    let a = spec_b32_val(spec_b32_byte_at(s, 8 * g), kind);
    let b = spec_b32_val(spec_b32_byte_at(s, 8 * g + 1), kind);
    let c = spec_b32_val(spec_b32_byte_at(s, 8 * g + 2), kind);
    let d = spec_b32_val(spec_b32_byte_at(s, 8 * g + 3), kind);
    let e = spec_b32_val(spec_b32_byte_at(s, 8 * g + 4), kind);
    let f = spec_b32_val(spec_b32_byte_at(s, 8 * g + 5), kind);
    let gg = spec_b32_val(spec_b32_byte_at(s, 8 * g + 6), kind);
    let h = spec_b32_val(spec_b32_byte_at(s, 8 * g + 7), kind);
    if p == 0 {
        (a << 3) | (b >> 2)
    } else if p == 1 {
        ((b & 0x03) << 6) | (c << 1) | (d >> 4)
    } else if p == 2 {
        ((d & 0x0f) << 4) | (e >> 1)
    } else if p == 3 {
        ((e & 0x01) << 7) | (f << 2) | (gg >> 3)
    } else {
        ((gg & 0x07) << 5) | h
    }
}

/// The decoding of a valid pad-free body: `⌊5m/8⌋` bytes.
pub open spec fn spec_b32_body_decode(s: Seq<u8>, kind: Base32Kind) -> Seq<u8>
    recommends
        spec_b32_body_valid(s, kind),
{
    Seq::new((5 * s.len() / 8) as nat, |j: int| spec_b32_decoded_byte(s, kind, j))
}

/// The number of trailing pad bytes of `s`, uncapped.
pub open spec fn spec_trailing_pads(s: Seq<u8>) -> int
    decreases s.len(),
{
    if s.len() == 0 || s.last() != PAD {
        0
    } else {
        1 + spec_trailing_pads(s.drop_last())
    }
}

/// The number of trailing pad bytes a padded decoder strips: at most
/// the 6 a final group can carry.
pub open spec fn spec_b32_pad_len(s: Seq<u8>) -> int {
    if spec_trailing_pads(s) > 6 {
        6
    } else {
        spec_trailing_pads(s)
    }
}

/// The Base32 decoding of `s` under the chosen variant, or `None` if
/// `s` is not a valid encoding.
pub open spec fn spec_b32_decode(s: Seq<u8>, kind: Base32Kind, padding: bool) -> Option<Seq<u8>> {
    if padding {
        if s.len() % 8 != 0 {
            None
        } else {
            let body = s.take(s.len() - spec_b32_pad_len(s));
            if spec_b32_body_valid(body, kind) {
                Some(spec_b32_body_decode(body, kind))
            } else {
                None
            }
        }
    } else {
        if spec_b32_body_valid(s, kind) {
            Some(spec_b32_body_decode(s, kind))
        } else {
            None
        }
    }
}

/// The upper-case alphabet byte for a 5-bit value.
fn b32_char_of(v: u8, kind: Base32Kind) -> (r: u8)
    requires
        v < 32,
    ensures
        r == spec_b32_char(v, kind),
{
    if matches!(kind, Base32Kind::Standard) {
        if v < 26 {
            0x41 + v
        } else {
            0x32 + v - 26
        }
    } else {
        if v < 10 {
            0x30 + v
        } else {
            0x41 + v - 10
        }
    }
}

/// The 5-bit value of an alphabet byte of either case, `B32_INVALID`
/// otherwise.
fn b32_val_of(c: u8, kind: Base32Kind) -> (r: u8)
    ensures
        r == spec_b32_val(c, kind),
        is_b32_char(c, kind) ==> r < 32,
{
    if matches!(kind, Base32Kind::Standard) {
        if 0x41 <= c && c <= 0x5a {
            c - 0x41
        } else if 0x61 <= c && c <= 0x7a {
            c - 0x61
        } else if 0x32 <= c && c <= 0x37 {
            c - 0x32 + 26
        } else {
            B32_INVALID
        }
    } else {
        if 0x30 <= c && c <= 0x39 {
            c - 0x30
        } else if 0x41 <= c && c <= 0x56 {
            c - 0x41 + 10
        } else if 0x61 <= c && c <= 0x76 {
            c - 0x61 + 10
        } else {
            B32_INVALID
        }
    }
}

/// The quotient and remainder of a witnessed decomposition.
proof fn lemma_quot(q: int, r: int, d: int)
    requires
        d > 0,
        0 <= r < d,
    ensures
        (q * d + r) / d == q,
        (q * d + r) % d == r,
{
    lemma_fundamental_div_mod_converse(q * d + r, d, q, r);
}

/// A trailing-pad run of length `p`, bounded on its left by a
/// non-pad byte or the start, pins down `spec_trailing_pads`.
proof fn lemma_trailing_pads(s: Seq<u8>, p: int)
    requires
        0 <= p <= s.len(),
        forall|idx: int| s.len() - p <= idx < s.len() ==> s[idx] == PAD,
        p == s.len() || s[s.len() - 1 - p] != PAD,
    ensures
        spec_trailing_pads(s) == p,
    decreases s.len(),
{
    if s.len() == 0 {
    } else if s.last() != PAD {
        assert(p == 0);
    } else {
        assert(p >= 1);
        let t = s.drop_last();
        assert forall|idx: int| t.len() - (p - 1) <= idx < t.len() implies t[idx] == PAD by {
            assert(t[idx] == s[idx]);
        }
        if p - 1 < t.len() {
            assert(t[t.len() - 1 - (p - 1)] == s[s.len() - 1 - p]);
        }
        lemma_trailing_pads(t, p - 1);
    }
}

/// A trailing run of `k` pad bytes bounds `spec_trailing_pads` below.
proof fn lemma_trailing_pads_at_least(s: Seq<u8>, k: int)
    requires
        0 <= k <= s.len(),
        forall|idx: int| s.len() - k <= idx < s.len() ==> s[idx] == PAD,
    ensures
        spec_trailing_pads(s) >= k,
    decreases s.len(),
{
    if k > 0 {
        assert(s[s.len() - 1] == PAD);
        assert(s.last() == PAD);
        let t = s.drop_last();
        assert forall|idx: int| t.len() - (k - 1) <= idx < t.len() implies t[idx] == PAD by {
            assert(t[idx] == s[idx]);
        }
        lemma_trailing_pads_at_least(t, k - 1);
        assert(spec_trailing_pads(s) == 1 + spec_trailing_pads(t));
    } else {
        if s.len() > 0 && s.last() == PAD {
            lemma_trailing_pads_at_least(s.drop_last(), 0);
        }
    }
}

impl Base32 {
    /// The encoded length of `n` input bytes.
    pub fn encoded_length(&self, n: usize) -> (r: usize)
        requires
            spec_b32_encoded_length(n as int, self.padding) <= usize::MAX,
        ensures
            r == spec_b32_encoded_length(n as int, self.padding),
    {
        let q = n / 5;
        let rem = n % 5;
        assert(n == 5 * q + rem && rem < 5);
        if self.padding {
            proof {
                if rem == 0 {
                    lemma_quot(q as int, 4, 5);
                } else {
                    lemma_quot(q as int + 1, rem as int - 1, 5);
                }
            }
            let groups = if rem == 0 {
                q
            } else {
                q + 1
            };
            assert(groups == (n as int + 4) / 5);
            8 * groups
        } else {
            let tail: usize = if rem == 0 {
                0
            } else if rem == 1 {
                2
            } else if rem == 2 {
                4
            } else if rem == 3 {
                5
            } else {
                7
            };
            proof {
                if rem == 0 {
                    lemma_quot(8 * q as int, 4, 5);
                } else if rem == 1 {
                    lemma_quot(8 * q as int + 2, 2, 5);
                } else if rem == 2 {
                    lemma_quot(8 * q as int + 4, 0, 5);
                } else if rem == 3 {
                    lemma_quot(8 * q as int + 5, 3, 5);
                } else {
                    lemma_quot(8 * q as int + 7, 1, 5);
                }
            }
            assert(8 * q as int + tail == (8 * n as int + 4) / 5);
            8 * q + tail
        }
    }

    /// The count of trailing pads of `src`, at most 6.
    fn pad_len_of(src: &[u8]) -> (r: usize)
        ensures
            r == spec_b32_pad_len(src@),
            r <= src@.len(),
            r <= 6,
    {
        let m = src.len();
        let mut p: usize = 0;
        while p < 6 && p < m && src[m - 1 - p] == PAD
            invariant
                m == src@.len(),
                0 <= p <= 6,
                p <= m,
                forall|idx: int| m - p <= idx < m ==> src@[idx] == PAD,
            decreases 6 - p,
        {
            p += 1;
        }
        proof {
            if p == 6 {
                lemma_trailing_pads_at_least(src@, 6);
            } else {
                lemma_trailing_pads(src@, p as int);
            }
        }
        p
    }
}

/// A byte outside the alphabet at any position makes the body invalid.
proof fn lemma_b32_body_invalid_at(body: Seq<u8>, kind: Base32Kind, i: int)
    requires
        0 <= i < body.len(),
        !is_b32_char(body[i], kind),
    ensures
        !spec_b32_body_valid(body, kind),
{
}

/// The mask of the unused bits of the last value of a partial final
/// group with `t` alphabet bytes.
pub open spec fn spec_b32_tail_mask(t: int) -> u8 {
    if t == 2 {
        0x03
    } else if t == 4 {
        0x0f
    } else if t == 5 {
        0x01
    } else {
        0x07
    }
}

/// Non-zero unused bits in a partial final group make the body invalid.
proof fn lemma_b32_body_invalid_bits(body: Seq<u8>, kind: Base32Kind, t: int)
    requires
        t == 2 || t == 4 || t == 5 || t == 7,
        body.len() % 8 == t,
        body.len() >= 1,
        spec_b32_val(body[body.len() - 1], kind) & spec_b32_tail_mask(t) != 0,
    ensures
        !spec_b32_body_valid(body, kind),
{
}

/// A body of whole groups of alphabet bytes is valid.
proof fn lemma_b32_body_valid_full(body: Seq<u8>, kind: Base32Kind, groups: int)
    requires
        groups >= 0,
        body.len() == 8 * groups,
        forall|i: int| 0 <= i < body.len() ==> is_b32_char(body[i], kind),
    ensures
        spec_b32_body_valid(body, kind),
{
    lemma_quot(groups, 0, 8);
}

/// A body whose partial final group has alphabet bytes and zero unused
/// bits is valid.
proof fn lemma_b32_body_valid_tail(body: Seq<u8>, kind: Base32Kind, groups: int, t: int)
    requires
        t == 2 || t == 4 || t == 5 || t == 7,
        groups >= 0,
        body.len() == 8 * groups + t,
        forall|i: int| 0 <= i < 8 * groups ==> is_b32_char(body[i], kind),
        forall|i: int| 8 * groups <= i < body.len() ==> is_b32_char(body[i], kind),
        spec_b32_val(body[body.len() - 1], kind) & spec_b32_tail_mask(t) == 0,
    ensures
        spec_b32_body_valid(body, kind),
{
    lemma_quot(groups, t, 8);
}

impl Base32 {
    /// Encodes `src` into the front of `dst` and returns the number of
    /// bytes written. Fails iff `dst` is shorter than the encoded
    /// length, in which case `dst` is unchanged.
    #[verifier::rlimit(100)]
    pub fn encode(&self, src: &[u8], dst: &mut Vec<u8>) -> (r: Result<usize, Error>)
        ensures
            r is Ok <==> old(dst)@.len() >= spec_b32_encoded_length(
                src@.len() as int,
                self.padding,
            ),
            r matches Ok(n) ==> {
                &&& n == spec_b32_encoded_length(src@.len() as int, self.padding)
                &&& final(dst)@ == spec_b32_encode(src@, self.kind, self.padding) + old(
                    dst,
                )@.skip(n as int)
            },
            r is Err ==> final(dst)@ == old(dst)@,
            final(dst)@.len() == old(dst)@.len(),
    {
        let n = src.len();
        let d = dst.len();
        let q = n / 5;
        let rem = n % 5;
        assert(n == 5 * q + rem && rem < 5);
        let ghost el = spec_b32_encoded_length(n as int, self.padding);
        proof {
            if rem == 0 {
                lemma_quot(q as int, 4, 5);
                lemma_quot(8 * q as int, 4, 5);
            } else if rem == 1 {
                lemma_quot(q as int + 1, 0, 5);
                lemma_quot(8 * q as int + 2, 2, 5);
            } else if rem == 2 {
                lemma_quot(q as int + 1, 1, 5);
                lemma_quot(8 * q as int + 4, 0, 5);
            } else if rem == 3 {
                lemma_quot(q as int + 1, 2, 5);
                lemma_quot(8 * q as int + 5, 3, 5);
            } else {
                lemma_quot(q as int + 1, 3, 5);
                lemma_quot(8 * q as int + 7, 1, 5);
            }
        }
        let tail: usize = if rem == 0 {
            0
        } else if rem == 1 {
            2
        } else if rem == 2 {
            4
        } else if rem == 3 {
            5
        } else {
            7
        };
        let ghost bl = spec_b32_body_len(n as int);
        assert(bl == 8 * q + tail);
        if q > d / 8 {
            assert(el > d);
            return Err(Error::new());
        }
        assert(8 * q <= d);
        let m: usize = if self.padding {
            let groups = if rem == 0 {
                q
            } else {
                q + 1
            };
            if groups > d / 8 {
                assert(el > d);
                return Err(Error::new());
            }
            8 * groups
        } else {
            if tail > d - 8 * q {
                assert(el > d);
                return Err(Error::new());
            }
            8 * q + tail
        };
        assert(m == el && m <= d);
        let ghost enc = spec_b32_encode(src@, self.kind, self.padding);
        assert(enc.len() == m);
        let mut g: usize = 0;
        while g < q
            invariant
                n == src@.len(),
                n == 5 * q + rem,
                rem < 5,
                0 <= g <= q,
                m <= d,
                8 * q <= m,
                d == dst@.len(),
                dst@.len() == old(dst)@.len(),
                el == spec_b32_encoded_length(n as int, self.padding),
                bl == spec_b32_body_len(n as int),
                bl == 8 * q + tail,
                m == el,
                enc == spec_b32_encode(src@, self.kind, self.padding),
                enc.len() == m,
                forall|k: int| 0 <= k < 8 * g ==> dst@[k] == enc[k],
                forall|k: int| 8 * g <= k < dst@.len() ==> dst@[k] == old(dst)@[k],
            decreases q - g,
        {
            let b0 = src[5 * g];
            let b1 = src[5 * g + 1];
            let b2 = src[5 * g + 2];
            let b3 = src[5 * g + 3];
            let b4 = src[5 * g + 4];
            let f0 = b0 >> 3;
            let f1 = ((b0 & 0x07) << 2) | (b1 >> 6);
            let f2 = (b1 >> 1) & 0x1f;
            let f3 = ((b1 & 0x01) << 4) | (b2 >> 4);
            let f4 = ((b2 & 0x0f) << 1) | (b3 >> 7);
            let f5 = (b3 >> 2) & 0x1f;
            let f6 = ((b3 & 0x03) << 3) | (b4 >> 5);
            let f7 = b4 & 0x1f;
            assert((b0 >> 3) < 32 && (((b0 & 0x07) << 2) | (b1 >> 6)) < 32 && ((b1 >> 1) & 0x1f)
                < 32 && (((b1 & 0x01) << 4) | (b2 >> 4)) < 32 && (((b2 & 0x0f) << 1) | (b3 >> 7))
                < 32 && ((b3 >> 2) & 0x1f) < 32 && (((b3 & 0x03) << 3) | (b4 >> 5)) < 32 && (b4
                & 0x1f) < 32) by (bit_vector);
            proof {
                lemma_quot(g as int, 0, 8);
                lemma_quot(g as int, 1, 8);
                lemma_quot(g as int, 2, 8);
                lemma_quot(g as int, 3, 8);
                lemma_quot(g as int, 4, 8);
                lemma_quot(g as int, 5, 8);
                lemma_quot(g as int, 6, 8);
                lemma_quot(g as int, 7, 8);
            }
            dst[8 * g] = b32_char_of(f0, self.kind);
            dst[8 * g + 1] = b32_char_of(f1, self.kind);
            dst[8 * g + 2] = b32_char_of(f2, self.kind);
            dst[8 * g + 3] = b32_char_of(f3, self.kind);
            dst[8 * g + 4] = b32_char_of(f4, self.kind);
            dst[8 * g + 5] = b32_char_of(f5, self.kind);
            dst[8 * g + 6] = b32_char_of(f6, self.kind);
            dst[8 * g + 7] = b32_char_of(f7, self.kind);
            g += 1;
        }
        if rem >= 1 {
            let b0 = src[5 * q];
            let b1 = if rem >= 2 {
                src[5 * q + 1]
            } else {
                0
            };
            let b2 = if rem >= 3 {
                src[5 * q + 2]
            } else {
                0
            };
            let b3 = if rem >= 4 {
                src[5 * q + 3]
            } else {
                0
            };
            let f0 = b0 >> 3;
            let f1 = ((b0 & 0x07) << 2) | (b1 >> 6);
            let f2 = (b1 >> 1) & 0x1f;
            let f3 = ((b1 & 0x01) << 4) | (b2 >> 4);
            let f4 = ((b2 & 0x0f) << 1) | (b3 >> 7);
            let f5 = (b3 >> 2) & 0x1f;
            let f6 = ((b3 & 0x03) << 3) | (0u8 >> 5);
            assert((b0 >> 3) < 32 && (((b0 & 0x07) << 2) | (b1 >> 6)) < 32 && ((b1 >> 1) & 0x1f)
                < 32 && (((b1 & 0x01) << 4) | (b2 >> 4)) < 32 && (((b2 & 0x0f) << 1) | (b3 >> 7))
                < 32 && ((b3 >> 2) & 0x1f) < 32 && (((b3 & 0x03) << 3) | (0u8 >> 5)) < 32 && (0u8
                >> 5) == 0 && (0u8 >> 6) == 0 && (0u8 >> 7) == 0 && (0u8 >> 4) == 0 && (0u8 >> 1)
                == 0 && ((0u8 >> 1) & 0x1f) == 0 && (0u8 & 0x1f) == 0) by (bit_vector);
            proof {
                lemma_quot(q as int, 0, 8);
                lemma_quot(q as int, 1, 8);
                lemma_quot(q as int, 2, 8);
                lemma_quot(q as int, 3, 8);
                lemma_quot(q as int, 4, 8);
                lemma_quot(q as int, 5, 8);
                lemma_quot(q as int, 6, 8);
            }
            dst[8 * q] = b32_char_of(f0, self.kind);
            dst[8 * q + 1] = b32_char_of(f1, self.kind);
            if rem >= 2 {
                dst[8 * q + 2] = b32_char_of(f2, self.kind);
                dst[8 * q + 3] = b32_char_of(f3, self.kind);
            }
            if rem >= 3 {
                dst[8 * q + 4] = b32_char_of(f4, self.kind);
            }
            if rem >= 4 {
                dst[8 * q + 5] = b32_char_of(f5, self.kind);
                dst[8 * q + 6] = b32_char_of(f6, self.kind);
            }
        }
        let mut w = if rem == 0 {
            8 * q
        } else if rem == 1 {
            8 * q + 2
        } else if rem == 2 {
            8 * q + 4
        } else if rem == 3 {
            8 * q + 5
        } else {
            8 * q + 7
        };
        assert(forall|k: int| 0 <= k < w ==> dst@[k] == enc[k]);
        while w < m
            invariant
                bl <= w <= m,
                m <= d,
                d == dst@.len(),
                dst@.len() == old(dst)@.len(),
                enc == spec_b32_encode(src@, self.kind, self.padding),
                enc.len() == m,
                bl == spec_b32_body_len(src@.len() as int),
                forall|k: int| 0 <= k < w ==> dst@[k] == enc[k],
                forall|k: int| m <= k < dst@.len() ==> dst@[k] == old(dst)@[k],
            decreases m - w,
        {
            dst[w] = PAD;
            w += 1;
        }
        proof {
            assert(final(dst)@ =~= enc + old(dst)@.skip(m as int));
        }
        Ok(m)
    }
}

/// Validates the pad-free body `src[..blen]` without writing output.
fn check_body32(src: &[u8], blen: usize, kind: Base32Kind) -> (r: bool)
    requires
        blen <= src@.len(),
    ensures
        r <==> spec_b32_body_valid(src@.take(blen as int), kind),
{
    let ghost bodyv = src@.take(blen as int);
    let groups = blen / 8;
    let t = blen % 8;
    assert(blen == 8 * groups + t && t < 8);
    if t == 1 || t == 3 || t == 6 {
        return false;
    }
    let mut g: usize = 0;
    while g < groups
        invariant
            blen <= src@.len(),
            blen == 8 * groups + t,
            t < 8,
            t != 1 && t != 3 && t != 6,
            0 <= g <= groups,
            bodyv == src@.take(blen as int),
            forall|i: int| 0 <= i < 8 * g ==> is_b32_char(bodyv[i], kind),
        decreases groups - g,
    {
        let mut k: usize = 0;
        while k < 8
            invariant
                blen <= src@.len(),
                blen == 8 * groups + t,
                0 <= g < groups,
                0 <= k <= 8,
                bodyv == src@.take(blen as int),
                forall|i: int| 0 <= i < 8 * g ==> is_b32_char(bodyv[i], kind),
                forall|i: int| 8 * g <= i < 8 * g + k ==> is_b32_char(bodyv[i], kind),
            decreases 8 - k,
        {
            let v = b32_val_of(src[8 * g + k], kind);
            proof {
                assert(bodyv[8 * g + k as int] == src@[8 * g + k as int]);
            }
            if v == B32_INVALID {
                proof {
                    lemma_b32_body_invalid_at(bodyv, kind, 8 * g + k as int);
                }
                return false;
            }
            k += 1;
        }
        g += 1;
    }
    if t != 0 {
        let mut k: usize = 0;
        while k < t
            invariant
                blen <= src@.len(),
                blen == 8 * groups + t,
                t < 8,
                0 <= k <= t,
                bodyv == src@.take(blen as int),
                forall|i: int| 0 <= i < 8 * groups ==> is_b32_char(bodyv[i], kind),
                forall|i: int| 8 * groups <= i < 8 * groups + k ==> is_b32_char(bodyv[i], kind),
            decreases t - k,
        {
            let v = b32_val_of(src[8 * groups + k], kind);
            proof {
                assert(bodyv[8 * groups + k as int] == src@[8 * groups + k as int]);
            }
            if v == B32_INVALID {
                proof {
                    lemma_b32_body_invalid_at(bodyv, kind, 8 * groups + k as int);
                }
                return false;
            }
            k += 1;
        }
        let last = b32_val_of(src[blen - 1], kind);
        let mask: u8 = if t == 2 {
            0x03
        } else if t == 4 {
            0x0f
        } else if t == 5 {
            0x01
        } else {
            0x07
        };
        proof {
            assert(bodyv[blen - 1] == src@[blen - 1]);
            lemma_quot(groups as int, t as int, 8);
        }
        if last & mask != 0 {
            proof {
                lemma_b32_body_invalid_bits(bodyv, kind, t as int);
            }
            return false;
        }
        proof {
            lemma_b32_body_valid_tail(bodyv, kind, groups as int, t as int);
        }
    } else {
        proof {
            lemma_b32_body_valid_full(bodyv, kind, groups as int);
        }
    }
    true
}

/// Decodes the pad-free body `src[..blen]` into the front of `dst`.
#[verifier::rlimit(100)]
fn decode_body32(src: &[u8], blen: usize, kind: Base32Kind, dst: &mut Vec<u8>) -> (r: Result<
    usize,
    Error,
>)
    requires
        blen <= src@.len(),
        old(dst)@.len() >= 5 * blen as int / 8,
    ensures
        r is Ok <==> spec_b32_body_valid(src@.take(blen as int), kind),
        r matches Ok(n) ==> {
            &&& n == 5 * blen as int / 8
            &&& final(dst)@ == spec_b32_body_decode(src@.take(blen as int), kind) + old(
                dst,
            )@.skip(n as int)
        },
        final(dst)@.len() == old(dst)@.len(),
{
    let ghost bodyv = src@.take(blen as int);
    let groups = blen / 8;
    let t = blen % 8;
    assert(blen == 8 * groups + t && t < 8);
    if t == 1 || t == 3 || t == 6 {
        return Err(Error::new());
    }
    let nout: usize = if t == 0 {
        5 * groups
    } else if t == 2 {
        5 * groups + 1
    } else if t == 4 {
        5 * groups + 2
    } else if t == 5 {
        5 * groups + 3
    } else {
        5 * groups + 4
    };
    proof {
        if t == 0 {
            lemma_quot(5 * groups as int, 0, 8);
        } else if t == 2 {
            lemma_quot(5 * groups as int + 1, 2, 8);
        } else if t == 4 {
            lemma_quot(5 * groups as int + 2, 4, 8);
        } else if t == 5 {
            lemma_quot(5 * groups as int + 3, 1, 8);
        } else {
            lemma_quot(5 * groups as int + 4, 3, 8);
        }
    }
    assert(nout == 5 * blen as int / 8);
    let ghost dec = spec_b32_body_decode(bodyv, kind);
    assert(dec.len() == nout);
    let mut g: usize = 0;
    while g < groups
        invariant
            blen <= src@.len(),
            blen == 8 * groups + t,
            t < 8,
            t != 1 && t != 3 && t != 6,
            0 <= g <= groups,
            bodyv == src@.take(blen as int),
            dec == spec_b32_body_decode(bodyv, kind),
            dec.len() == nout,
            nout <= dst@.len(),
            dst@.len() == old(dst)@.len(),
            5 * groups <= nout,
            forall|i: int| 0 <= i < 8 * g ==> is_b32_char(bodyv[i], kind),
            forall|j: int| 0 <= j < 5 * g ==> dst@[j] == dec[j],
            forall|k: int| 5 * g <= k < dst@.len() ==> dst@[k] == old(dst)@[k],
        decreases groups - g,
    {
        let a = b32_val_of(src[8 * g], kind);
        let b = b32_val_of(src[8 * g + 1], kind);
        let c = b32_val_of(src[8 * g + 2], kind);
        let d = b32_val_of(src[8 * g + 3], kind);
        let e = b32_val_of(src[8 * g + 4], kind);
        let f = b32_val_of(src[8 * g + 5], kind);
        let g2 = b32_val_of(src[8 * g + 6], kind);
        let h = b32_val_of(src[8 * g + 7], kind);
        proof {
            let i0 = 8 * g as int;
            assert(bodyv[i0] == src@[i0] && bodyv[i0 + 1] == src@[i0 + 1] && bodyv[i0 + 2]
                == src@[i0 + 2] && bodyv[i0 + 3] == src@[i0 + 3] && bodyv[i0 + 4] == src@[i0 + 4]
                && bodyv[i0 + 5] == src@[i0 + 5] && bodyv[i0 + 6] == src@[i0 + 6] && bodyv[i0 + 7]
                == src@[i0 + 7]);
        }
        if a == B32_INVALID || b == B32_INVALID || c == B32_INVALID || d == B32_INVALID || e
            == B32_INVALID || f == B32_INVALID || g2 == B32_INVALID || h == B32_INVALID {
            proof {
                let i0 = 8 * g as int;
                if a == B32_INVALID {
                    lemma_b32_body_invalid_at(bodyv, kind, i0);
                } else if b == B32_INVALID {
                    lemma_b32_body_invalid_at(bodyv, kind, i0 + 1);
                } else if c == B32_INVALID {
                    lemma_b32_body_invalid_at(bodyv, kind, i0 + 2);
                } else if d == B32_INVALID {
                    lemma_b32_body_invalid_at(bodyv, kind, i0 + 3);
                } else if e == B32_INVALID {
                    lemma_b32_body_invalid_at(bodyv, kind, i0 + 4);
                } else if f == B32_INVALID {
                    lemma_b32_body_invalid_at(bodyv, kind, i0 + 5);
                } else if g2 == B32_INVALID {
                    lemma_b32_body_invalid_at(bodyv, kind, i0 + 6);
                } else {
                    lemma_b32_body_invalid_at(bodyv, kind, i0 + 7);
                }
            }
            return Err(Error::new());
        }
        proof {
            lemma_quot(g as int, 0, 5);
            lemma_quot(g as int, 1, 5);
            lemma_quot(g as int, 2, 5);
            lemma_quot(g as int, 3, 5);
            lemma_quot(g as int, 4, 5);
            lemma_quot(g as int, 0, 8);
            lemma_quot(g as int, 1, 8);
            lemma_quot(g as int, 2, 8);
            lemma_quot(g as int, 3, 8);
            lemma_quot(g as int, 4, 8);
            lemma_quot(g as int, 5, 8);
            lemma_quot(g as int, 6, 8);
            lemma_quot(g as int, 7, 8);
        }
        dst[5 * g] = (a << 3) | (b >> 2);
        dst[5 * g + 1] = ((b & 0x03) << 6) | (c << 1) | (d >> 4);
        dst[5 * g + 2] = ((d & 0x0f) << 4) | (e >> 1);
        dst[5 * g + 3] = ((e & 0x01) << 7) | (f << 2) | (g2 >> 3);
        dst[5 * g + 4] = ((g2 & 0x07) << 5) | h;
        g += 1;
    }
    if t != 0 {
        let a = b32_val_of(src[8 * groups], kind);
        let b = b32_val_of(src[8 * groups + 1], kind);
        let c = if t >= 4 {
            b32_val_of(src[8 * groups + 2], kind)
        } else {
            0
        };
        let d = if t >= 4 {
            b32_val_of(src[8 * groups + 3], kind)
        } else {
            0
        };
        let e = if t >= 5 {
            b32_val_of(src[8 * groups + 4], kind)
        } else {
            0
        };
        let f = if t >= 7 {
            b32_val_of(src[8 * groups + 5], kind)
        } else {
            0
        };
        let g2 = if t >= 7 {
            b32_val_of(src[8 * groups + 6], kind)
        } else {
            0
        };
        proof {
            let i0 = 8 * groups as int;
            assert(bodyv[i0] == src@[i0] && bodyv[i0 + 1] == src@[i0 + 1]);
            if t >= 4 {
                assert(bodyv[i0 + 2] == src@[i0 + 2] && bodyv[i0 + 3] == src@[i0 + 3]);
            }
            if t >= 5 {
                assert(bodyv[i0 + 4] == src@[i0 + 4]);
            }
            if t >= 7 {
                assert(bodyv[i0 + 5] == src@[i0 + 5] && bodyv[i0 + 6] == src@[i0 + 6]);
            }
            lemma_quot(groups as int, t as int, 8);
        }
        if a == B32_INVALID || b == B32_INVALID || c == B32_INVALID || d == B32_INVALID || e
            == B32_INVALID || f == B32_INVALID || g2 == B32_INVALID {
            proof {
                let i0 = 8 * groups as int;
                if a == B32_INVALID {
                    lemma_b32_body_invalid_at(bodyv, kind, i0);
                } else if b == B32_INVALID {
                    lemma_b32_body_invalid_at(bodyv, kind, i0 + 1);
                } else if c == B32_INVALID {
                    lemma_b32_body_invalid_at(bodyv, kind, i0 + 2);
                } else if d == B32_INVALID {
                    lemma_b32_body_invalid_at(bodyv, kind, i0 + 3);
                } else if e == B32_INVALID {
                    lemma_b32_body_invalid_at(bodyv, kind, i0 + 4);
                } else if f == B32_INVALID {
                    lemma_b32_body_invalid_at(bodyv, kind, i0 + 5);
                } else {
                    lemma_b32_body_invalid_at(bodyv, kind, i0 + 6);
                }
            }
            return Err(Error::new());
        }
        let last: u8 = if t == 2 {
            b
        } else if t == 4 {
            d
        } else if t == 5 {
            e
        } else {
            g2
        };
        let mask: u8 = if t == 2 {
            0x03
        } else if t == 4 {
            0x0f
        } else if t == 5 {
            0x01
        } else {
            0x07
        };
        if last & mask != 0 {
            proof {
                lemma_b32_body_invalid_bits(bodyv, kind, t as int);
            }
            return Err(Error::new());
        }
        proof {
            lemma_b32_body_valid_tail(bodyv, kind, groups as int, t as int);
            lemma_quot(groups as int, 0, 5);
            lemma_quot(groups as int, 1, 5);
            lemma_quot(groups as int, 2, 5);
            lemma_quot(groups as int, 3, 5);
            lemma_quot(groups as int, 0, 8);
            lemma_quot(groups as int, 1, 8);
            lemma_quot(groups as int, 2, 8);
            lemma_quot(groups as int, 3, 8);
            lemma_quot(groups as int, 4, 8);
            lemma_quot(groups as int, 5, 8);
            lemma_quot(groups as int, 6, 8);
        }
        dst[5 * groups] = (a << 3) | (b >> 2);
        if t >= 4 {
            dst[5 * groups + 1] = ((b & 0x03) << 6) | (c << 1) | (d >> 4);
        }
        if t >= 5 {
            dst[5 * groups + 2] = ((d & 0x0f) << 4) | (e >> 1);
        }
        if t >= 7 {
            dst[5 * groups + 3] = ((e & 0x01) << 7) | (f << 2) | (g2 >> 3);
        }
    } else {
        proof {
            lemma_b32_body_valid_full(bodyv, kind, groups as int);
        }
    }
    proof {
        assert(final(dst)@ =~= dec + old(dst)@.skip(nout as int));
    }
    Ok(nout)
}

/// Decodes the pad-free body `buf[..blen]` onto the front of `buf`.
#[verifier::rlimit(100)]
fn decode_body32_inplace(buf: &mut Vec<u8>, blen: usize, kind: Base32Kind) -> (r: Result<
    usize,
    Error,
>)
    requires
        blen <= old(buf)@.len(),
    ensures
        r is Ok <==> spec_b32_body_valid(old(buf)@.take(blen as int), kind),
        r matches Ok(n) ==> {
            &&& n == 5 * blen as int / 8
            &&& final(buf)@ == spec_b32_body_decode(old(buf)@.take(blen as int), kind) + old(
                buf,
            )@.skip(n as int)
        },
        final(buf)@.len() == old(buf)@.len(),
{
    let ghost bodyv = old(buf)@.take(blen as int);
    let groups = blen / 8;
    let t = blen % 8;
    assert(blen == 8 * groups + t && t < 8);
    if t == 1 || t == 3 || t == 6 {
        return Err(Error::new());
    }
    let nout: usize = if t == 0 {
        5 * groups
    } else if t == 2 {
        5 * groups + 1
    } else if t == 4 {
        5 * groups + 2
    } else if t == 5 {
        5 * groups + 3
    } else {
        5 * groups + 4
    };
    proof {
        if t == 0 {
            lemma_quot(5 * groups as int, 0, 8);
        } else if t == 2 {
            lemma_quot(5 * groups as int + 1, 2, 8);
        } else if t == 4 {
            lemma_quot(5 * groups as int + 2, 4, 8);
        } else if t == 5 {
            lemma_quot(5 * groups as int + 3, 1, 8);
        } else {
            lemma_quot(5 * groups as int + 4, 3, 8);
        }
    }
    assert(nout == 5 * blen as int / 8);
    let ghost dec = spec_b32_body_decode(bodyv, kind);
    assert(dec.len() == nout);
    let mut g: usize = 0;
    while g < groups
        invariant
            blen <= buf@.len(),
            blen == 8 * groups + t,
            t < 8,
            t != 1 && t != 3 && t != 6,
            0 <= g <= groups,
            bodyv == old(buf)@.take(blen as int),
            dec == spec_b32_body_decode(bodyv, kind),
            dec.len() == nout,
            nout <= blen,
            buf@.len() == old(buf)@.len(),
            5 * groups <= nout,
            forall|i: int| 0 <= i < 8 * g ==> is_b32_char(bodyv[i], kind),
            forall|j: int| 0 <= j < 5 * g ==> buf@[j] == dec[j],
            forall|k: int| 5 * g <= k < buf@.len() ==> buf@[k] == old(buf)@[k],
        decreases groups - g,
    {
        let a = b32_val_of(buf[8 * g], kind);
        let b = b32_val_of(buf[8 * g + 1], kind);
        let c = b32_val_of(buf[8 * g + 2], kind);
        let d = b32_val_of(buf[8 * g + 3], kind);
        let e = b32_val_of(buf[8 * g + 4], kind);
        let f = b32_val_of(buf[8 * g + 5], kind);
        let g2 = b32_val_of(buf[8 * g + 6], kind);
        let h = b32_val_of(buf[8 * g + 7], kind);
        proof {
            let i0 = 8 * g as int;
            assert(buf@[i0] == old(buf)@[i0] && buf@[i0 + 1] == old(buf)@[i0 + 1] && buf@[i0 + 2]
                == old(buf)@[i0 + 2] && buf@[i0 + 3] == old(buf)@[i0 + 3] && buf@[i0 + 4] == old(
                buf,
            )@[i0 + 4] && buf@[i0 + 5] == old(buf)@[i0 + 5] && buf@[i0 + 6] == old(buf)@[i0 + 6]
                && buf@[i0 + 7] == old(buf)@[i0 + 7]);
            assert(bodyv[i0] == old(buf)@[i0] && bodyv[i0 + 1] == old(buf)@[i0 + 1] && bodyv[i0
                + 2] == old(buf)@[i0 + 2] && bodyv[i0 + 3] == old(buf)@[i0 + 3] && bodyv[i0 + 4]
                == old(buf)@[i0 + 4] && bodyv[i0 + 5] == old(buf)@[i0 + 5] && bodyv[i0 + 6] == old(
                buf,
            )@[i0 + 6] && bodyv[i0 + 7] == old(buf)@[i0 + 7]);
        }
        if a == B32_INVALID || b == B32_INVALID || c == B32_INVALID || d == B32_INVALID || e
            == B32_INVALID || f == B32_INVALID || g2 == B32_INVALID || h == B32_INVALID {
            proof {
                let i0 = 8 * g as int;
                if a == B32_INVALID {
                    lemma_b32_body_invalid_at(bodyv, kind, i0);
                } else if b == B32_INVALID {
                    lemma_b32_body_invalid_at(bodyv, kind, i0 + 1);
                } else if c == B32_INVALID {
                    lemma_b32_body_invalid_at(bodyv, kind, i0 + 2);
                } else if d == B32_INVALID {
                    lemma_b32_body_invalid_at(bodyv, kind, i0 + 3);
                } else if e == B32_INVALID {
                    lemma_b32_body_invalid_at(bodyv, kind, i0 + 4);
                } else if f == B32_INVALID {
                    lemma_b32_body_invalid_at(bodyv, kind, i0 + 5);
                } else if g2 == B32_INVALID {
                    lemma_b32_body_invalid_at(bodyv, kind, i0 + 6);
                } else {
                    lemma_b32_body_invalid_at(bodyv, kind, i0 + 7);
                }
            }
            return Err(Error::new());
        }
        proof {
            lemma_quot(g as int, 0, 5);
            lemma_quot(g as int, 1, 5);
            lemma_quot(g as int, 2, 5);
            lemma_quot(g as int, 3, 5);
            lemma_quot(g as int, 4, 5);
            lemma_quot(g as int, 0, 8);
            lemma_quot(g as int, 1, 8);
            lemma_quot(g as int, 2, 8);
            lemma_quot(g as int, 3, 8);
            lemma_quot(g as int, 4, 8);
            lemma_quot(g as int, 5, 8);
            lemma_quot(g as int, 6, 8);
            lemma_quot(g as int, 7, 8);
        }
        buf[5 * g] = (a << 3) | (b >> 2);
        buf[5 * g + 1] = ((b & 0x03) << 6) | (c << 1) | (d >> 4);
        buf[5 * g + 2] = ((d & 0x0f) << 4) | (e >> 1);
        buf[5 * g + 3] = ((e & 0x01) << 7) | (f << 2) | (g2 >> 3);
        buf[5 * g + 4] = ((g2 & 0x07) << 5) | h;
        g += 1;
    }
    if t != 0 {
        let a = b32_val_of(buf[8 * groups], kind);
        let b = b32_val_of(buf[8 * groups + 1], kind);
        let c = if t >= 4 {
            b32_val_of(buf[8 * groups + 2], kind)
        } else {
            0
        };
        let d = if t >= 4 {
            b32_val_of(buf[8 * groups + 3], kind)
        } else {
            0
        };
        let e = if t >= 5 {
            b32_val_of(buf[8 * groups + 4], kind)
        } else {
            0
        };
        let f = if t >= 7 {
            b32_val_of(buf[8 * groups + 5], kind)
        } else {
            0
        };
        let g2 = if t >= 7 {
            b32_val_of(buf[8 * groups + 6], kind)
        } else {
            0
        };
        proof {
            let i0 = 8 * groups as int;
            assert(buf@[i0] == old(buf)@[i0] && buf@[i0 + 1] == old(buf)@[i0 + 1]);
            assert(bodyv[i0] == old(buf)@[i0] && bodyv[i0 + 1] == old(buf)@[i0 + 1]);
            if t >= 4 {
                assert(buf@[i0 + 2] == old(buf)@[i0 + 2] && buf@[i0 + 3] == old(buf)@[i0 + 3]);
                assert(bodyv[i0 + 2] == old(buf)@[i0 + 2] && bodyv[i0 + 3] == old(buf)@[i0 + 3]);
            }
            if t >= 5 {
                assert(buf@[i0 + 4] == old(buf)@[i0 + 4]);
                assert(bodyv[i0 + 4] == old(buf)@[i0 + 4]);
            }
            if t >= 7 {
                assert(buf@[i0 + 5] == old(buf)@[i0 + 5] && buf@[i0 + 6] == old(buf)@[i0 + 6]);
                assert(bodyv[i0 + 5] == old(buf)@[i0 + 5] && bodyv[i0 + 6] == old(buf)@[i0 + 6]);
            }
            lemma_quot(groups as int, t as int, 8);
        }
        if a == B32_INVALID || b == B32_INVALID || c == B32_INVALID || d == B32_INVALID || e
            == B32_INVALID || f == B32_INVALID || g2 == B32_INVALID {
            proof {
                let i0 = 8 * groups as int;
                if a == B32_INVALID {
                    lemma_b32_body_invalid_at(bodyv, kind, i0);
                } else if b == B32_INVALID {
                    lemma_b32_body_invalid_at(bodyv, kind, i0 + 1);
                } else if c == B32_INVALID {
                    lemma_b32_body_invalid_at(bodyv, kind, i0 + 2);
                } else if d == B32_INVALID {
                    lemma_b32_body_invalid_at(bodyv, kind, i0 + 3);
                } else if e == B32_INVALID {
                    lemma_b32_body_invalid_at(bodyv, kind, i0 + 4);
                } else if f == B32_INVALID {
                    lemma_b32_body_invalid_at(bodyv, kind, i0 + 5);
                } else {
                    lemma_b32_body_invalid_at(bodyv, kind, i0 + 6);
                }
            }
            return Err(Error::new());
        }
        let last: u8 = if t == 2 {
            b
        } else if t == 4 {
            d
        } else if t == 5 {
            e
        } else {
            g2
        };
        let mask: u8 = if t == 2 {
            0x03
        } else if t == 4 {
            0x0f
        } else if t == 5 {
            0x01
        } else {
            0x07
        };
        if last & mask != 0 {
            proof {
                lemma_b32_body_invalid_bits(bodyv, kind, t as int);
            }
            return Err(Error::new());
        }
        proof {
            lemma_b32_body_valid_tail(bodyv, kind, groups as int, t as int);
            lemma_quot(groups as int, 0, 5);
            lemma_quot(groups as int, 1, 5);
            lemma_quot(groups as int, 2, 5);
            lemma_quot(groups as int, 3, 5);
            lemma_quot(groups as int, 0, 8);
            lemma_quot(groups as int, 1, 8);
            lemma_quot(groups as int, 2, 8);
            lemma_quot(groups as int, 3, 8);
            lemma_quot(groups as int, 4, 8);
            lemma_quot(groups as int, 5, 8);
            lemma_quot(groups as int, 6, 8);
        }
        buf[5 * groups] = (a << 3) | (b >> 2);
        if t >= 4 {
            buf[5 * groups + 1] = ((b & 0x03) << 6) | (c << 1) | (d >> 4);
        }
        if t >= 5 {
            buf[5 * groups + 2] = ((d & 0x0f) << 4) | (e >> 1);
        }
        if t >= 7 {
            buf[5 * groups + 3] = ((e & 0x01) << 7) | (f << 2) | (g2 >> 3);
        }
    } else {
        proof {
            lemma_b32_body_valid_full(bodyv, kind, groups as int);
        }
    }
    proof {
        assert(final(buf)@ =~= dec + old(buf)@.skip(nout as int));
    }
    Ok(nout)
}

impl Base32 {
    /// The pad-free body length of `src`: strips the trailing pad run
    /// when the variant is padded.
    fn body_len_of(&self, src: &[u8]) -> (r: usize)
        ensures
            self.padding ==> r == src@.len() - spec_b32_pad_len(src@),
            !self.padding ==> r == src@.len(),
            r <= src@.len(),
    {
        let m = src.len();
        if !self.padding {
            return m;
        }
        let p = Base32::pad_len_of(src);
        m - p
    }

    /// The decoded length implied by the length and pad shape of `src`:
    /// `Err` iff the length residue or the pad count does not fit the
    /// variant.
    pub fn decoded_length(&self, src: &[u8]) -> (r: Result<usize, Error>)
        ensures
            r is Ok <==> ({
                let blen = src@.len() - (if self.padding {
                    spec_b32_pad_len(src@)
                } else {
                    0int
                });
                &&& (self.padding ==> src@.len() % 8 == 0)
                &&& blen % 8 != 1
                &&& blen % 8 != 3
                &&& blen % 8 != 6
            }),
            r matches Ok(n) ==> {
                &&& (if self.padding {
                    src@.len() % 8 == 0
                } else {
                    src@.len() % 8 != 1 && src@.len() % 8 != 3 && src@.len() % 8 != 6
                })
                &&& n == 5 * (src@.len() - (if self.padding {
                    spec_b32_pad_len(src@)
                } else {
                    0int
                })) / 8
            },
            r is Err ==> spec_b32_decode(src@, self.kind, self.padding) is None,
    {
        let m = src.len();
        let blen = if self.padding {
            if m % 8 != 0 {
                return Err(Error::new());
            }
            self.body_len_of(src)
        } else {
            m
        };
        let groups = blen / 8;
        let t = blen % 8;
        assert(blen == 8 * groups + t && t < 8);
        if t == 1 || t == 3 || t == 6 {
            proof {
                if !self.padding {
                } else {
                    assert(src@.take(blen as int).len() % 8 == t);
                }
            }
            return Err(Error::new());
        }
        let extra: usize = if t == 0 {
            0
        } else if t == 2 {
            1
        } else if t == 4 {
            2
        } else if t == 5 {
            3
        } else {
            4
        };
        proof {
            if t == 0 {
                lemma_quot(5 * groups as int, 0, 8);
            } else if t == 2 {
                lemma_quot(5 * groups as int + 1, 2, 8);
            } else if t == 4 {
                lemma_quot(5 * groups as int + 2, 4, 8);
            } else if t == 5 {
                lemma_quot(5 * groups as int + 3, 1, 8);
            } else {
                lemma_quot(5 * groups as int + 4, 3, 8);
            }
        }
        Ok(5 * groups + extra)
    }

    /// Validates `src`: succeeds exactly on the inputs `decode` decodes.
    pub fn check(&self, src: &[u8]) -> (r: Result<(), Error>)
        ensures
            r is Ok <==> spec_b32_decode(src@, self.kind, self.padding) is Some,
    {
        let m = src.len();
        if self.padding && m % 8 != 0 {
            return Err(Error::new());
        }
        let blen = self.body_len_of(src);
        proof {
            if !self.padding {
                assert(src@.take(blen as int) =~= src@);
            }
        }
        if check_body32(src, blen, self.kind) {
            Ok(())
        } else {
            Err(Error::new())
        }
    }

    /// Decodes `src` into the front of `dst` and returns the number of
    /// bytes written. Fails iff `src` is not a valid encoding of the
    /// variant or `dst` is shorter than the decoded length.
    pub fn decode(&self, src: &[u8], dst: &mut Vec<u8>) -> (r: Result<usize, Error>)
        ensures
            r is Ok <==> (spec_b32_decode(src@, self.kind, self.padding) matches Some(out)
                && old(dst)@.len() >= out.len()),
            r matches Ok(n) ==> {
                &&& spec_b32_decode(src@, self.kind, self.padding) matches Some(out)
                &&& n == out.len()
                &&& final(dst)@ == out + old(dst)@.skip(n as int)
            },
            final(dst)@.len() == old(dst)@.len(),
    {
        let m = src.len();
        if self.padding && m % 8 != 0 {
            return Err(Error::new());
        }
        let blen = self.body_len_of(src);
        let groups = blen / 8;
        let t = blen % 8;
        assert(blen == 8 * groups + t && t < 8);
        if t == 1 || t == 3 || t == 6 {
            proof {
                if !self.padding {
                    assert(src@.take(blen as int) =~= src@);
                }
            }
            return Err(Error::new());
        }
        let nout: usize = if t == 0 {
            5 * groups
        } else if t == 2 {
            5 * groups + 1
        } else if t == 4 {
            5 * groups + 2
        } else if t == 5 {
            5 * groups + 3
        } else {
            5 * groups + 4
        };
        proof {
            if t == 0 {
                lemma_quot(5 * groups as int, 0, 8);
            } else if t == 2 {
                lemma_quot(5 * groups as int + 1, 2, 8);
            } else if t == 4 {
                lemma_quot(5 * groups as int + 2, 4, 8);
            } else if t == 5 {
                lemma_quot(5 * groups as int + 3, 1, 8);
            } else {
                lemma_quot(5 * groups as int + 4, 3, 8);
            }
        }
        assert(nout == 5 * blen as int / 8);
        proof {
            if !self.padding {
                assert(src@.take(blen as int) =~= src@);
            }
            if spec_b32_decode(src@, self.kind, self.padding) is Some {
                assert(spec_b32_decode(src@, self.kind, self.padding).unwrap().len() == nout);
            }
        }
        if dst.len() < nout {
            return Err(Error::new());
        }
        decode_body32(src, blen, self.kind, dst)
    }

    /// Decodes `buf` in place: on success the decoded bytes stand at
    /// the front of `buf` and the bytes past the pad-free body are
    /// unchanged. Fails iff `buf` is not a valid encoding; the prefix
    /// contents are then unspecified, but the length is preserved.
    pub fn decode_inplace(&self, buf: &mut Vec<u8>) -> (r: Result<usize, Error>)
        ensures
            r is Ok <==> spec_b32_decode(old(buf)@, self.kind, self.padding) is Some,
            r matches Ok(n) ==> {
                &&& spec_b32_decode(old(buf)@, self.kind, self.padding) matches Some(out)
                &&& n == out.len()
                &&& final(buf)@ == out + old(buf)@.skip(n as int)
            },
            final(buf)@.len() == old(buf)@.len(),
    {
        let m = buf.len();
        if self.padding && m % 8 != 0 {
            return Err(Error::new());
        }
        let blen = if self.padding {
            let p = Base32::pad_len_of(buf.as_slice());
            m - p
        } else {
            m
        };
        proof {
            assert(buf@ == old(buf)@);
            if !self.padding {
                assert(old(buf)@.take(blen as int) =~= old(buf)@);
            }
        }
        decode_body32_inplace(buf, blen, self.kind)
    }
}

/// The trailing-pad run really is pad bytes.
proof fn lemma_trailing_pads_run(s: Seq<u8>)
    ensures
        0 <= spec_trailing_pads(s) <= s.len(),
        forall|idx: int| s.len() - spec_trailing_pads(s) <= idx < s.len() ==> s[idx] == PAD,
    decreases s.len(),
{
    if s.len() > 0 && s.last() == PAD {
        let t = s.drop_last();
        lemma_trailing_pads_run(t);
        assert forall|idx: int| s.len() - spec_trailing_pads(s) <= idx < s.len() implies s[idx]
            == PAD by {
            if idx < s.len() - 1 {
                assert(s[idx] == t[idx]);
            }
        }
    }
}

/// An alphabet byte of either kind maps back to the 5-bit value it
/// encodes, and the upper-case alphabet is never the pad byte.
proof fn lemma_b32_char_val(v: u8, kind: Base32Kind)
    requires
        v < 32,
    ensures
        is_b32_char(spec_b32_char(v, kind), kind),
        spec_b32_val(spec_b32_char(v, kind), kind) == v,
        spec_b32_char(v, kind) != PAD,
{
}

/// Splitting five bytes into 5-bit fields and reassembling them is the
/// identity, and the fields are 5-bit values.
proof fn lemma_b32_split_bits(b0: u8, b1: u8, b2: u8, b3: u8, b4: u8)
    by (bit_vector)
    ensures
        b0 >> 3 < 32,
        (((b0 & 0x07) << 2) | (b1 >> 6)) < 32,
        ((b1 >> 1) & 0x1f) < 32,
        (((b1 & 0x01) << 4) | (b2 >> 4)) < 32,
        (((b2 & 0x0f) << 1) | (b3 >> 7)) < 32,
        ((b3 >> 2) & 0x1f) < 32,
        (((b3 & 0x03) << 3) | (b4 >> 5)) < 32,
        (b4 & 0x1f) < 32,
        ((b0 >> 3) << 3) | ((((b0 & 0x07) << 2) | (b1 >> 6)) >> 2) == b0,
        (((((b0 & 0x07) << 2) | (b1 >> 6)) & 0x03) << 6) | (((b1 >> 1) & 0x1f) << 1) | ((((b1
            & 0x01) << 4) | (b2 >> 4)) >> 4) == b1,
        (((((b1 & 0x01) << 4) | (b2 >> 4)) & 0x0f) << 4) | ((((b2 & 0x0f) << 1) | (b3 >> 7)) >> 1)
            == b2,
        (((((b2 & 0x0f) << 1) | (b3 >> 7)) & 0x01) << 7) | (((b3 >> 2) & 0x1f) << 2) | ((((b3
            & 0x03) << 3) | (b4 >> 5)) >> 3) == b3,
        (((((b3 & 0x03) << 3) | (b4 >> 5)) & 0x07) << 5) | (b4 & 0x1f) == b4,
        (((b0 & 0x07) << 2) | (0u8 >> 6)) & 0x03 == 0,
        (((b1 & 0x01) << 4) | (0u8 >> 4)) & 0x0f == 0,
        (((b2 & 0x0f) << 1) | (0u8 >> 7)) & 0x01 == 0,
        (((b3 & 0x03) << 3) | (0u8 >> 5)) & 0x07 == 0,
        0u8 >> 1 == 0,
        (0u8 >> 1) & 0x1f == 0,
        0u8 & 0x1f == 0,
        0u8 >> 2 == 0,
        (0u8 >> 2) & 0x1f == 0,
        0u8 >> 4 == 0,
        0u8 >> 5 == 0,
        0u8 >> 6 == 0,
        0u8 >> 7 == 0,
{
}

/// Reassembling eight 5-bit values into five bytes and splitting them
/// again is the identity.
proof fn lemma_b32_merge_bits(a: u8, b: u8, c: u8, d: u8, e: u8, f: u8, g: u8, h: u8)
    by (bit_vector)
    requires
        a < 32,
        b < 32,
        c < 32,
        d < 32,
        e < 32,
        f < 32,
        g < 32,
        h < 32,
    ensures
        ((a << 3) | (b >> 2)) >> 3 == a,
        ((((a << 3) | (b >> 2)) & 0x07) << 2) | ((((b & 0x03) << 6) | (c << 1) | (d >> 4)) >> 6)
            == b,
        ((((b & 0x03) << 6) | (c << 1) | (d >> 4)) >> 1) & 0x1f == c,
        (((((b & 0x03) << 6) | (c << 1) | (d >> 4)) & 0x01) << 4) | ((((d & 0x0f) << 4) | (e >> 1))
            >> 4) == d,
        (((((d & 0x0f) << 4) | (e >> 1)) & 0x0f) << 1) | ((((e & 0x01) << 7) | (f << 2) | (g >> 3))
            >> 7) == e,
        ((((e & 0x01) << 7) | (f << 2) | (g >> 3)) >> 2) & 0x1f == f,
        (((((e & 0x01) << 7) | (f << 2) | (g >> 3)) & 0x03) << 3) | ((((g & 0x07) << 5) | h) >> 5)
            == g,
        (((g & 0x07) << 5) | h) & 0x1f == h,
        b & 0x03 == 0 ==> ((((a << 3) | (b >> 2)) & 0x07) << 2) | (0u8 >> 6) == b,
        d & 0x0f == 0 ==> (((((b & 0x03) << 6) | (c << 1) | (d >> 4)) & 0x01) << 4) | (0u8 >> 4)
            == d,
        e & 0x01 == 0 ==> (((((d & 0x0f) << 4) | (e >> 1)) & 0x0f) << 1) | (0u8 >> 7) == e,
        g & 0x07 == 0 ==> (((((e & 0x01) << 7) | (f << 2) | (g >> 3)) & 0x03) << 3) | (0u8 >> 5)
            == g,
{
}

/// Length law: the encoding of `x` has exactly the encoded length of
/// `x.len()`.
pub proof fn lemma_b32_encoded_length(x: Seq<u8>, kind: Base32Kind, padding: bool)
    ensures
        spec_b32_encode(x, kind, padding).len() == spec_b32_encoded_length(
            x.len() as int,
            padding,
        ),
        spec_b32_encoded_length(x.len() as int, padding) >= 0,
{
    lemma_b32_shape(x.len() as int, padding);
}

/// The shape facts the round-trip proofs share: with `n = 5q + rem`,
/// the body and encoded lengths in terms of `q` and `rem`.
proof fn lemma_b32_shape(n: int, padding: bool)
    requires
        n >= 0,
    ensures
        ({
            let q = n / 5;
            let rem = n % 5;
            let t = if rem == 0 {
                0int
            } else if rem == 1 {
                2int
            } else if rem == 2 {
                4int
            } else if rem == 3 {
                5int
            } else {
                7int
            };
            &&& spec_b32_body_len(n) == 8 * q + t
            &&& spec_b32_encoded_length(n, padding) == 8 * q + (if rem == 0 {
                0int
            } else if padding {
                8int
            } else {
                t
            })
            &&& spec_b32_body_len(n) % 8 == t
            &&& 5 * spec_b32_body_len(n) / 8 == n
        }),
{
    let q = n / 5;
    let rem = n % 5;
    assert(n == 5 * q + rem && 0 <= rem < 5);
    if rem == 0 {
        lemma_quot(8 * q, 4, 5);
        lemma_quot(q, 4, 5);
        lemma_quot(q, 0, 8);
        lemma_quot(5 * q, 0, 8);
    } else if rem == 1 {
        lemma_quot(8 * q + 2, 2, 5);
        lemma_quot(q + 1, 0, 5);
        lemma_quot(q, 2, 8);
        lemma_quot(5 * q + 1, 2, 8);
    } else if rem == 2 {
        lemma_quot(8 * q + 4, 0, 5);
        lemma_quot(q + 1, 1, 5);
        lemma_quot(q, 4, 8);
        lemma_quot(5 * q + 2, 4, 8);
    } else if rem == 3 {
        lemma_quot(8 * q + 5, 3, 5);
        lemma_quot(q + 1, 2, 5);
        lemma_quot(q, 5, 8);
        lemma_quot(5 * q + 3, 1, 8);
    } else {
        lemma_quot(8 * q + 7, 1, 5);
        lemma_quot(q + 1, 3, 5);
        lemma_quot(q, 7, 8);
        lemma_quot(5 * q + 4, 3, 8);
    }
}

/// Round trip: decoding the encoding of any byte sequence, in any
/// variant, returns exactly that sequence.
#[verifier::rlimit(100)]
pub proof fn lemma_b32_round_trip(x: Seq<u8>, kind: Base32Kind, padding: bool)
    ensures
        spec_b32_decode(spec_b32_encode(x, kind, padding), kind, padding) == Some(x),
{
    let n = x.len() as int;
    let q = n / 5;
    let rem = n % 5;
    assert(n == 5 * q + rem && 0 <= rem < 5);
    let e = spec_b32_encode(x, kind, padding);
    let bl = spec_b32_body_len(n);
    let el = spec_b32_encoded_length(n, padding);
    lemma_b32_shape(n, padding);
    lemma_b32_encoded_length(x, kind, padding);

    // Every body position holds an alphabet byte, never a pad.
    assert forall|i: int| 0 <= i < bl implies is_b32_char(e[i], kind) && e[i] != PAD
        && spec_b32_val(e[i], kind) == spec_b32_field(x, i) by {
        let g = i / 8;
        lemma_b32_split_bits(
            spec_b32_byte_at(x, 5 * g),
            spec_b32_byte_at(x, 5 * g + 1),
            spec_b32_byte_at(x, 5 * g + 2),
            spec_b32_byte_at(x, 5 * g + 3),
            spec_b32_byte_at(x, 5 * g + 4),
        );
        lemma_b32_char_val(spec_b32_field(x, i), kind);
    }

    // The padded tail is exactly the pads the decoder strips.
    let body = e.take(bl);
    if padding {
        assert(el % 8 == 0);
        assert(spec_b32_pad_len(e) == el - bl) by {
            if n > 0 {
                assert(e[bl - 1] != PAD);
            }
            assert(el - bl <= 6);
            assert forall|idx: int| el - (el - bl) <= idx < el implies e[idx] == PAD by {}
            lemma_trailing_pads(e, el - bl);
        }
        assert(e.take(e.len() - spec_b32_pad_len(e)) == body);
    } else {
        assert(e.take(e.len() as int) =~= e);
        assert(body =~= e);
    }

    // The body is valid: residue, alphabet, and zero trailing bits.
    assert(spec_b32_body_valid(body, kind)) by {
        assert(body.len() == bl && bl % 8 != 1 && bl % 8 != 3 && bl % 8 != 6);
        assert(forall|i: int| 0 <= i < bl ==> body[i] == e[i]);
        if rem != 0 {
            let i = bl - 1;
            let g = q;
            assert(i / 8 == q && i % 8 == (if rem == 1 {
                1int
            } else if rem == 2 {
                3int
            } else if rem == 3 {
                4int
            } else {
                6int
            })) by {
                if rem == 1 {
                    lemma_quot(q, 1, 8);
                } else if rem == 2 {
                    lemma_quot(q, 3, 8);
                } else if rem == 3 {
                    lemma_quot(q, 4, 8);
                } else {
                    lemma_quot(q, 6, 8);
                }
            }
            lemma_b32_split_bits(
                spec_b32_byte_at(x, 5 * q),
                spec_b32_byte_at(x, 5 * q + 1),
                spec_b32_byte_at(x, 5 * q + 2),
                spec_b32_byte_at(x, 5 * q + 3),
                spec_b32_byte_at(x, 5 * q + 4),
            );
            if rem == 1 {
                assert(spec_b32_byte_at(x, 5 * q + 1) == 0);
            } else if rem == 2 {
                assert(spec_b32_byte_at(x, 5 * q + 2) == 0);
            } else if rem == 3 {
                assert(spec_b32_byte_at(x, 5 * q + 3) == 0);
            } else {
                assert(spec_b32_byte_at(x, 5 * q + 4) == 0);
            }
        }
    }

    // Decoding the body gives back `x`, byte for byte.
    let dec = spec_b32_body_decode(body, kind);
    assert(dec.len() == n);
    assert forall|j: int| 0 <= j < n implies dec[j] == x[j] by {
        let g = j / 5;
        let p = j % 5;
        assert(0 <= p < 5 && j == 5 * g + p && g >= 0);
        let b0 = spec_b32_byte_at(x, 5 * g);
        let b1 = spec_b32_byte_at(x, 5 * g + 1);
        let b2 = spec_b32_byte_at(x, 5 * g + 2);
        let b3 = spec_b32_byte_at(x, 5 * g + 3);
        let b4 = spec_b32_byte_at(x, 5 * g + 4);
        lemma_b32_split_bits(b0, b1, b2, b3, b4);
        lemma_quot(g, 0, 8);
        lemma_quot(g, 1, 8);
        lemma_quot(g, 2, 8);
        lemma_quot(g, 3, 8);
        lemma_quot(g, 4, 8);
        lemma_quot(g, 5, 8);
        lemma_quot(g, 6, 8);
        lemma_quot(g, 7, 8);
        assert(8 * g + 1 < bl);
        if p == 0 {
            assert(x[j] == b0);
        } else if p == 1 {
            assert(8 * g + 3 < bl);
            assert(x[j] == b1);
        } else if p == 2 {
            assert(8 * g + 4 < bl);
            assert(x[j] == b2);
        } else if p == 3 {
            assert(8 * g + 6 < bl);
            assert(x[j] == b3);
        } else {
            assert(8 * g + 7 < bl);
            assert(x[j] == b4);
        }
    }
    assert(dec =~= x);
}

/// Canonicity: an input whose unused bits in a partial final group are
/// not zero is rejected, in every variant.
pub proof fn lemma_b32_reject_nonzero_tail(s: Seq<u8>, kind: Base32Kind, padding: bool)
    ensures
        ({
            let body = if padding {
                s.take(s.len() - spec_b32_pad_len(s))
            } else {
                s
            };
            let t = body.len() as int % 8;
            ((t == 2 || t == 4 || t == 5 || t == 7) && body.len() >= 1 && spec_b32_val(
                body[body.len() - 1],
                kind,
            ) & spec_b32_tail_mask(t) != 0) ==> spec_b32_decode(s, kind, padding) is None
        }),
{
    let body = if padding {
        s.take(s.len() - spec_b32_pad_len(s))
    } else {
        s
    };
    let t = body.len() as int % 8;
    if (t == 2 || t == 4 || t == 5 || t == 7) && body.len() >= 1 && spec_b32_val(
        body[body.len() - 1],
        kind,
    ) & spec_b32_tail_mask(t) != 0 {
        lemma_b32_body_invalid_bits(body, kind, t);
        if !padding {
            assert(spec_b32_decode(s, kind, padding) is None);
        }
    }
}

/// Alphabet exhaustivity: an accepted input consists of alphabet bytes
/// of its variant, with the pad byte admitted only in the trailing pad
/// run of a padded variant.
pub proof fn lemma_b32_alphabet(s: Seq<u8>, kind: Base32Kind, padding: bool)
    requires
        spec_b32_decode(s, kind, padding) is Some,
    ensures
        forall|i: int|
            0 <= i < s.len() ==> (is_b32_char(s[i], kind) || (padding && s[i] == PAD && i
                >= s.len() - 6)),
{
    let m = s.len() as int;
    if padding {
        let p = spec_b32_pad_len(s);
        let body = s.take(m - p);
        assert(spec_b32_body_valid(body, kind));
        lemma_trailing_pads_run(s);
        assert forall|i: int| 0 <= i < m implies (is_b32_char(s[i], kind) || (padding && s[i]
            == PAD && i >= m - 6)) by {
            if i < m - p {
                assert(body[i] == s[i]);
            } else {
                assert(i >= m - spec_trailing_pads(s));
            }
        }
    } else {
        assert(s.take(m) =~= s);
    }
}

} // verus!
