//! Byte-oriented codecs, Base64, Base32, hex and UUID text, built on a
//! portable byte-vector abstraction.
//!
//! The `vector` module is a portable lowering of a small SIMD-style
//! instruction set: byte vectors of 16 and 32 lanes with bitwise, lane
//! arithmetic, compare, shuffle and zip operations, each specified
//! lane by lane. The codec kernels are written against those operations
//! and proved to agree with the direct scalar definitions, so the wide
//! and the scalar paths of each codec return bit-identical results.

use vstd::prelude::*;

pub mod base32;
pub mod base64;
pub mod hex;
pub mod hex_simd;
pub mod uuid;
pub mod vector;

verus! {

/// Letter case selector for hex encoding.
#[derive(Clone, Copy, PartialEq, Eq, Structural, Debug)]
pub enum AsciiCase {
    Lower,
    Upper,
}

} // verus!
