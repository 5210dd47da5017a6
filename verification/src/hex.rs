//! Hexadecimal codec: case-selectable encoding, case-insensitive
//! validation and decoding.
//!
//! Every public operation is specified against the mathematical
//! description of the codec: [`spec_hex_encode`] and [`spec_hex_decode`]
//! over byte sequences. `n` input bytes encode to exactly `2 * n` ASCII
//! bytes; decoding accepts exactly the even-length strings of hex digits
//! of either case.

use vstd::prelude::*;
use vstd::arithmetic::div_mod::lemma_fundamental_div_mod_converse;

verus! {

/// The quotient and remainder of a witnessed decomposition.
proof fn lemma_quot(q: int, r: int, d: int)
    requires
        d > 0,
        0 <= r < d,
    ensures
        (q * d + r) / d == q,
        (q * d + r) % d == r,
{
    lemma_fundamental_div_mod_converse(q * d + r, d, q, r);
}

/// Hex codec error: the input is not a valid hex string, or the output
/// buffer is too small.
#[derive(Debug, Clone, Copy, PartialEq, Eq, Structural)]
pub struct Error;

impl Error {
    pub(crate) fn new() -> Error {
        Error
    }

    /// A fixed description, in place of a `Display` impl.
    pub fn message(&self) -> (s: &'static str)
        ensures
            s@ == "Hex Error"@,
    {
        "Hex Error"
    }
}

/// The sentinel value `unhex` returns for a byte that is not a hex digit.
pub const UNHEX_INVALID: u8 = 0xff;

/// Whether `c` is an ASCII hex digit (either case).
pub open spec fn is_hex_digit(c: u8) -> bool {
    (0x30 <= c <= 0x39) || (0x41 <= c <= 0x46) || (0x61 <= c <= 0x66)
}

/// The 4-bit value of a hex digit; `UNHEX_INVALID` for any other byte.
pub open spec fn spec_unhex(c: u8) -> u8 {
    if 0x30 <= c <= 0x39 {
        (c - 0x30) as u8
    } else if 0x41 <= c <= 0x46 {
        (c - 0x41 + 10) as u8
    } else if 0x61 <= c <= 0x66 {
        (c - 0x61 + 10) as u8
    } else {
        UNHEX_INVALID
    }
}

/// The ASCII digit for the 4-bit value `v` in the chosen case.
pub open spec fn spec_hex_char(v: u8, upper: bool) -> u8
    recommends
        v < 16,
{
    if v < 10 {
        (0x30 + v) as u8
    } else if upper {
        (0x37 + v) as u8
    } else {
        (0x57 + v) as u8
    }
}

/// The `i`-th nibble of `s` in output order: the high nibble of each
/// byte comes first.
pub open spec fn spec_nibble(s: Seq<u8>, i: int) -> u8
    recommends
        0 <= i < 2 * s.len(),
{
    if i % 2 == 0 {
        s[i / 2] >> 4
    } else {
        s[i / 2] & 0x0f
    }
}

/// The hex encoding of `s`: two digits per input byte, high nibble first.
pub open spec fn spec_hex_encode(s: Seq<u8>, upper: bool) -> Seq<u8> {
    Seq::new((2 * s.len()) as nat, |i: int| spec_hex_char(spec_nibble(s, i), upper))
}

/// Whether every byte of `s` is a hex digit.
pub open spec fn all_hex(s: Seq<u8>) -> bool {
    forall|i: int| 0 <= i < s.len() ==> is_hex_digit(s[i])
}

/// Whether `s` is a valid hex string: even length, hex digits only.
/// This is exactly the set of inputs `decode` accepts.
pub open spec fn spec_hex_check(s: Seq<u8>) -> bool {
    s.len() % 2 == 0 && all_hex(s)
}

/// The byte with high nibble `hi` and low nibble `lo`.
pub open spec fn spec_hex_byte(hi: u8, lo: u8) -> u8
    recommends
        hi < 16,
        lo < 16,
{
    (hi << 4) | lo
}

/// The decoding of a valid hex string: one byte per digit pair.
pub open spec fn spec_hex_decode(s: Seq<u8>) -> Seq<u8>
    recommends
        spec_hex_check(s),
{
    Seq::new((s.len() / 2) as nat, |i: int| spec_hex_byte(spec_unhex(s[2 * i]), spec_unhex(s[2 * i + 1])))
}

/// Maps an ASCII hex digit to its value, any other byte to `UNHEX_INVALID`.
pub fn unhex(x: u8) -> (r: u8)
    ensures
        r == spec_unhex(x),
        r != UNHEX_INVALID <==> is_hex_digit(x),
        is_hex_digit(x) ==> r < 16,
{
    if 0x30 <= x && x <= 0x39 {
        x - 0x30
    } else if 0x41 <= x && x <= 0x46 {
        x - 0x41 + 10
    } else if 0x61 <= x && x <= 0x66 {
        x - 0x61 + 10
    } else {
        UNHEX_INVALID
    }
}

/// The hex digit for a 4-bit value, in the chosen case.
pub(crate) fn hex_char(v: u8, case: crate::AsciiCase) -> (r: u8)
    requires
        v < 16,
    ensures
        r == spec_hex_char(v, case == crate::AsciiCase::Upper),
{
    if v < 10 {
        0x30 + v
    } else if matches!(case, crate::AsciiCase::Upper) {
        0x37 + v
    } else {
        0x57 + v
    }
}

/// Scalar validation: accepts iff every byte of `data` is a hex digit.
/// (The public `check` additionally requires an even length.)
pub fn check_fallback(data: &[u8]) -> (r: Result<(), Error>)
    ensures
        r is Ok <==> all_hex(data@),
{
    let n = data.len();
    let mut i: usize = 0;
    while i < n
        invariant
            n == data@.len(),
            0 <= i <= n,
            forall|j: int| 0 <= j < i ==> is_hex_digit(data@[j]),
        decreases n - i,
    {
        if unhex(data[i]) == UNHEX_INVALID {
            return Err(Error::new());
        }
        i += 1;
    }
    Ok(())
}

/// Validates a hex string: even length, hex digits of either case only.
/// Runs over 32- and 16-byte blocks through the wide classifier, then
/// falls back to the scalar scan for the tail.
pub fn check(src: &[u8]) -> (r: bool)
    ensures
        r <==> spec_hex_check(src@),
{
    let n = src.len();
    if n % 2 != 0 {
        return false;
    }
    let mut i: usize = 0;
    while n - i >= 32
        invariant
            0 <= i <= n,
            n == src@.len(),
            forall|j: int| 0 <= j < i ==> is_hex_digit(src@[j]),
        decreases n - i,
    {
        let x = crate::vector::v256_load_slice(src, i);
        if !crate::hex_simd::check_ascii_xn(x) {
            proof {
                let w = choose|k: int| 0 <= k < 32 && !is_hex_digit(x@[k]);
                assert(!is_hex_digit(src@[i + w]));
            }
            return false;
        }
        proof {
            assert forall|j: int| i <= j < i + 32 implies is_hex_digit(src@[j]) by {
                assert(src@[j] == x@[j - i]);
            }
        }
        i += 32;
    }
    if n - i >= 16 {
        let x = crate::vector::v128_load_slice(src, i);
        if !crate::hex_simd::check_ascii16(x) {
            proof {
                let w = choose|k: int| 0 <= k < 16 && !is_hex_digit(x@[k]);
                assert(!is_hex_digit(src@[i + w]));
            }
            return false;
        }
        proof {
            assert forall|j: int| i <= j < i + 16 implies is_hex_digit(src@[j]) by {
                assert(src@[j] == x@[j - i]);
            }
        }
        i += 16;
    }
    while i < n
        invariant
            0 <= i <= n,
            n == src@.len(),
            forall|j: int| 0 <= j < i ==> is_hex_digit(src@[j]),
        decreases n - i,
    {
        if unhex(src[i]) == UNHEX_INVALID {
            return false;
        }
        i += 1;
    }
    true
}

/// Encodes `src` into the front of `dst`, two digits per byte, and
/// returns the number of bytes written. Fails iff `dst` is shorter than
/// the encoded length `2 * src.len()`, in which case `dst` is unchanged.
pub fn encode(src: &[u8], dst: &mut Vec<u8>, case: crate::AsciiCase) -> (r: Result<usize, Error>)
    ensures
        r is Ok <==> old(dst)@.len() >= 2 * src@.len(),
        r matches Ok(n) ==> {
            &&& n == 2 * src@.len()
            &&& final(dst)@ == spec_hex_encode(src@, case == crate::AsciiCase::Upper)
                + old(dst)@.skip(2 * src@.len() as int)
        },
        r is Err ==> final(dst)@ == old(dst)@,
        final(dst)@.len() == old(dst)@.len(),
{
    let n = src.len();
    let d = dst.len();
    if n > d / 2 {
        return Err(Error::new());
    }
    assert(2 * n <= d);
    let ghost upper = case == crate::AsciiCase::Upper;
    let ghost enc = spec_hex_encode(src@, upper);
    let lut = crate::hex_simd::encode_lut(case);
    let mut i: usize = 0;
    while n - i >= 16
        invariant
            n == src@.len(),
            0 <= i <= n,
            2 * n <= d,
            d == dst@.len(),
            dst@.len() == old(dst)@.len(),
            upper == (case == crate::AsciiCase::Upper),
            enc == spec_hex_encode(src@, upper),
            crate::hex_simd::is_hex_lut(lut@, upper),
            forall|k: int| 0 <= k < 2 * i ==> dst@[k] == enc[k],
            forall|k: int| 2 * i <= k < dst@.len() ==> dst@[k] == old(dst)@[k],
        decreases n - i,
    {
        let x = crate::vector::v128_load_slice(src, i);
        let y = crate::hex_simd::encode_bytes16(x, lut);
        crate::vector::v256_store_vec(dst, 2 * i, y);
        proof {
            assert forall|k: int| 2 * i <= k < 2 * i + 32 implies dst@[k] == enc[k] by {
                let c = k - 2 * i;
                assert(dst@[k] == y@[c]);
                let p = c / 2;
                assert(c == 2 * p || c == 2 * p + 1);
                assert((2 * (i + p)) / 2 == i + p && (2 * (i + p)) % 2 == 0) by {
                    lemma_quot(i + p, 0, 2);
                }
                assert((2 * (i + p) + 1) / 2 == i + p && (2 * (i + p) + 1) % 2 == 1) by {
                    lemma_quot(i + p, 1, 2);
                }
                assert((2 * p) / 2 == p && (2 * p) % 2 == 0 && (2 * p + 1) / 2 == p && (2 * p + 1)
                    % 2 == 1) by {
                    lemma_quot(p, 0, 2);
                    lemma_quot(p, 1, 2);
                }
                assert(x@[p] == src@[i + p]);
            }
        }
        i += 16;
    }
    while i < n
        invariant
            n == src@.len(),
            0 <= i <= n,
            2 * n <= d,
            d == dst@.len(),
            dst@.len() == old(dst)@.len(),
            upper == (case == crate::AsciiCase::Upper),
            forall|k: int| 0 <= k < 2 * i ==> dst@[k] == spec_hex_encode(src@, upper)[k],
            forall|k: int| 2 * i <= k < dst@.len() ==> dst@[k] == old(dst)@[k],
        decreases n - i,
    {
        let b = src[i];
        let hi = b >> 4;
        let lo = b & 0x0f;
        assert(b >> 4 < 16 && b & 0x0f < 16) by (bit_vector);
        dst[2 * i] = hex_char(hi, case);
        dst[2 * i + 1] = hex_char(lo, case);
        assert((2 * i as int) / 2 == i && (2 * i as int + 1) / 2 == i);
        i += 1;
    }
    proof {
        assert(final(dst)@ =~= spec_hex_encode(src@, upper) + old(dst)@.skip(2 * src@.len() as int));
    }
    Ok(2 * n)
}

/// Decodes a pair of hex digits into one byte.
fn decode_pair(a: u8, b: u8) -> (r: Result<u8, Error>)
    ensures
        r is Ok <==> is_hex_digit(a) && is_hex_digit(b),
        r matches Ok(v) ==> v == spec_hex_byte(spec_unhex(a), spec_unhex(b)),
{
    let y1 = unhex(a);
    let y2 = unhex(b);
    if y1 == UNHEX_INVALID || y2 == UNHEX_INVALID {
        return Err(Error::new());
    }
    Ok((y1 << 4) | y2)
}

/// Decodes `src` into the front of `dst` and returns the number of bytes
/// written, `src.len() / 2`. Fails iff `src` is not a valid hex string
/// or `dst` is shorter than the decoded length.
pub fn decode(src: &[u8], dst: &mut Vec<u8>) -> (r: Result<usize, Error>)
    ensures
        r is Ok <==> spec_hex_check(src@) && old(dst)@.len() >= src@.len() / 2,
        r matches Ok(n) ==> {
            &&& n == src@.len() / 2
            &&& final(dst)@ == spec_hex_decode(src@) + old(dst)@.skip(src@.len() as int / 2)
        },
        final(dst)@.len() == old(dst)@.len(),
{
    let m = src.len();
    if m % 2 != 0 {
        return Err(Error::new());
    }
    let n = m / 2;
    if dst.len() < n {
        return Err(Error::new());
    }
    assert(2 * n == m);
    let ghost dec = spec_hex_decode(src@);
    let mut i: usize = 0;
    while m - 2 * i >= 64
        invariant
            m == src@.len(),
            m % 2 == 0,
            n == m / 2,
            2 * n == m,
            0 <= i <= n,
            n <= dst@.len(),
            dst@.len() == old(dst)@.len(),
            dec == spec_hex_decode(src@),
            forall|j: int| 0 <= j < 2 * i ==> is_hex_digit(src@[j]),
            forall|k: int| 0 <= k < i ==> dst@[k] == dec[k],
            forall|k: int| i <= k < dst@.len() ==> dst@[k] == old(dst)@[k],
        decreases n - i,
    {
        let x0 = crate::vector::v256_load_slice(src, 2 * i);
        let x1 = crate::vector::v256_load_slice(src, 2 * i + 32);
        match crate::hex_simd::decode_ascii32x2((x0, x1)) {
            Ok(y) => {
                crate::vector::v256_store_vec(dst, i, y);
                proof {
                    assert forall|j: int| 2 * i <= j < 2 * i + 64 implies is_hex_digit(
                        src@[j],
                    ) by {
                        if j < 2 * i + 32 {
                            assert(src@[j] == x0@[j - 2 * i]);
                        } else {
                            assert(src@[j] == x1@[j - (2 * i + 32)]);
                        }
                    }
                    assert forall|k: int| i <= k < i + 32 implies dst@[k] == dec[k] by {
                        let c = k - i;
                        assert(dst@[k] == y@[c]);
                        if c < 16 {
                            assert(y@[c] == spec_hex_decode(x0@)[c]);
                            assert(x0@[2 * c] == src@[2 * i + 2 * c] && x0@[2 * c + 1] == src@[2
                                * i + 2 * c + 1]);
                        } else {
                            assert(y@[c] == spec_hex_decode(x1@)[c - 16]);
                            assert(x1@[2 * (c - 16)] == src@[2 * i + 32 + 2 * (c - 16)] && x1@[2
                                * (c - 16) + 1] == src@[2 * i + 32 + 2 * (c - 16) + 1]);
                            assert(2 * i + 32 + 2 * (c - 16) == 2 * k);
                        }
                    }
                }
                i += 32;
            },
            Err(_) => {
                proof {
                    if all_hex(x0@) {
                        let w = choose|k: int| 0 <= k < 32 && !is_hex_digit(x1@[k]);
                        assert(!is_hex_digit(src@[2 * i + 32 + w]));
                    } else {
                        let w = choose|k: int| 0 <= k < 32 && !is_hex_digit(x0@[k]);
                        assert(!is_hex_digit(src@[2 * i + w]));
                    }
                }
                return Err(Error::new());
            },
        }
    }
    if m - 2 * i >= 32 {
        let x = crate::vector::v256_load_slice(src, 2 * i);
        match crate::hex_simd::decode_ascii32(x) {
            Ok(y) => {
                crate::vector::v128_store_vec(dst, i, y);
                proof {
                    assert forall|j: int| 2 * i <= j < 2 * i + 32 implies is_hex_digit(
                        src@[j],
                    ) by {
                        assert(src@[j] == x@[j - 2 * i]);
                    }
                    assert forall|k: int| i <= k < i + 16 implies dst@[k] == dec[k] by {
                        let c = k - i;
                        assert(dst@[k] == y@[c]);
                        assert(y@[c] == spec_hex_decode(x@)[c]);
                        assert(x@[2 * c] == src@[2 * i + 2 * c] && x@[2 * c + 1] == src@[2 * i + 2
                            * c + 1]);
                    }
                }
                i += 16;
            },
            Err(_) => {
                proof {
                    let w = choose|k: int| 0 <= k < 32 && !is_hex_digit(x@[k]);
                    assert(!is_hex_digit(src@[2 * i + w]));
                }
                return Err(Error::new());
            },
        }
    }
    if m - 2 * i >= 16 {
        let x = crate::vector::v128_load_slice(src, 2 * i);
        match crate::hex_simd::decode_ascii16(x) {
            Ok(y) => {
                crate::vector::v64_store_vec(dst, i, y);
                proof {
                    assert forall|j: int| 2 * i <= j < 2 * i + 16 implies is_hex_digit(
                        src@[j],
                    ) by {
                        assert(src@[j] == x@[j - 2 * i]);
                    }
                    assert forall|k: int| i <= k < i + 8 implies dst@[k] == dec[k] by {
                        let c = k - i;
                        assert(dst@[k] == y@[c]);
                        assert(y@[c] == spec_hex_decode(x@)[c]);
                        assert(x@[2 * c] == src@[2 * i + 2 * c] && x@[2 * c + 1] == src@[2 * i + 2
                            * c + 1]);
                    }
                }
                i += 8;
            },
            Err(_) => {
                proof {
                    let w = choose|k: int| 0 <= k < 16 && !is_hex_digit(x@[k]);
                    assert(!is_hex_digit(src@[2 * i + w]));
                }
                return Err(Error::new());
            },
        }
    }
    while i < n
        invariant
            m == src@.len(),
            m % 2 == 0,
            n == m / 2,
            0 <= i <= n,
            n <= dst@.len(),
            dst@.len() == old(dst)@.len(),
            forall|j: int| 0 <= j < 2 * i ==> is_hex_digit(src@[j]),
            forall|k: int| 0 <= k < i ==> dst@[k] == spec_hex_decode(src@)[k],
            forall|k: int| i <= k < dst@.len() ==> dst@[k] == old(dst)@[k],
        decreases n - i,
    {
        match decode_pair(src[2 * i], src[2 * i + 1]) {
            Ok(v) => {
                dst[i] = v;
            },
            Err(e) => {
                return Err(e);
            },
        }
        i += 1;
    }
    proof {
        assert(final(dst)@ =~= spec_hex_decode(src@) + old(dst)@.skip(src@.len() as int / 2));
    }
    Ok(n)
}

/// Decodes `buf` in place: on success the first `buf.len() / 2` bytes
/// hold the decoded output and the rest of the buffer is unchanged.
/// Fails iff `buf` is not a valid hex string; the prefix contents are
/// then unspecified, but the length is preserved.
pub fn decode_inplace(buf: &mut Vec<u8>) -> (r: Result<usize, Error>)
    ensures
        r is Ok <==> spec_hex_check(old(buf)@),
        r matches Ok(n) ==> {
            &&& n == old(buf)@.len() / 2
            &&& final(buf)@ == spec_hex_decode(old(buf)@) + old(buf)@.skip(old(buf)@.len() as int / 2)
        },
        final(buf)@.len() == old(buf)@.len(),
{
    let m = buf.len();
    if m % 2 != 0 {
        return Err(Error::new());
    }
    let n = m / 2;
    let mut i: usize = 0;
    while i < n
        invariant
            m == old(buf)@.len(),
            m % 2 == 0,
            n == m / 2,
            0 <= i <= n,
            buf@.len() == m,
            forall|j: int| 0 <= j < 2 * i ==> is_hex_digit(old(buf)@[j]),
            forall|k: int| 0 <= k < i ==> buf@[k] == spec_hex_decode(old(buf)@)[k],
            forall|k: int| i <= k < m ==> buf@[k] == old(buf)@[k],
        decreases n - i,
    {
        match decode_pair(buf[2 * i], buf[2 * i + 1]) {
            Ok(v) => {
                buf[i] = v;
            },
            Err(e) => {
                return Err(e);
            },
        }
        i += 1;
    }
    proof {
        assert(final(buf)@ =~= spec_hex_decode(old(buf)@) + old(buf)@.skip(old(buf)@.len() as int / 2));
    }
    Ok(n)
}

/// Each nibble of a byte is below 16.
proof fn lemma_nibble_range(b: u8)
    ensures
        b >> 4 < 16,
        b & 0x0f < 16,
{
    assert(b >> 4 < 16 && b & 0x0f < 16) by (bit_vector);
}

/// A hex digit of either case maps back to the nibble it encodes.
proof fn lemma_hex_char_val(v: u8, upper: bool)
    requires
        v < 16,
    ensures
        is_hex_digit(spec_hex_char(v, upper)),
        spec_unhex(spec_hex_char(v, upper)) == v,
{
}

/// Splitting a byte into nibbles and reassembling them is the identity.
proof fn lemma_hex_byte_split(b: u8)
    ensures
        spec_hex_byte(b >> 4, b & 0x0f) == b,
{
    assert(((b >> 4) << 4) | (b & 0x0f) == b) by (bit_vector);
}

/// Round trip: the encoding of any byte sequence is a valid hex string,
/// and decoding it returns the original sequence.
pub proof fn lemma_hex_round_trip(x: Seq<u8>, upper: bool)
    ensures
        spec_hex_check(spec_hex_encode(x, upper)),
        spec_hex_decode(spec_hex_encode(x, upper)) == x,
{
    let e = spec_hex_encode(x, upper);
    assert forall|i: int| 0 <= i < e.len() implies is_hex_digit(e[i]) by {
        lemma_nibble_range(x[i / 2]);
        lemma_hex_char_val(spec_nibble(x, i), upper);
    }
    assert forall|i: int| 0 <= i < x.len() implies spec_hex_decode(e)[i] == x[i] by {
        lemma_nibble_range(x[i]);
        assert((2 * i) % 2 == 0 && (2 * i + 1) % 2 == 1 && (2 * i) / 2 == i && (2 * i + 1) / 2 == i);
        lemma_hex_char_val(x[i] >> 4, upper);
        lemma_hex_char_val(x[i] & 0x0f, upper);
        lemma_hex_byte_split(x[i]);
    }
    assert(spec_hex_decode(e) =~= x);
}

/// Length law: the encoded length of `n` input bytes is exactly `2 * n`.
pub proof fn lemma_hex_encoded_length(x: Seq<u8>, upper: bool)
    ensures
        spec_hex_encode(x, upper).len() == 2 * x.len(),
{
}

/// Alphabet exhaustivity: the bytes accepted inside a hex string are
/// exactly the twenty-two ASCII digits `0-9`, `a-f` and `A-F`.
pub proof fn lemma_hex_alphabet(c: u8)
    ensures
        is_hex_digit(c) <==> (c == 0x30 || c == 0x31 || c == 0x32 || c == 0x33 || c == 0x34
            || c == 0x35 || c == 0x36 || c == 0x37 || c == 0x38 || c == 0x39 || c == 0x41
            || c == 0x42 || c == 0x43 || c == 0x44 || c == 0x45 || c == 0x46 || c == 0x61
            || c == 0x62 || c == 0x63 || c == 0x64 || c == 0x65 || c == 0x66),
{
}

} // verus!
