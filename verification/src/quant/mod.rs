//! Block formats of quantised weights and activations.
//!
//! Each format packs a fixed number of elements into a block of bytes. What is
//! exact in them is done here: unpacking a block into its scales and integer
//! levels, and the integer sums of a dot product against an activation block.
//! The scales are kept as bit patterns; multiplying by them is left to the
//! caller.

use vstd::prelude::*;

use crate::bits::Bits32;

pub mod iq2_xxs;
pub mod iq4_codebook;
pub mod iq4_nl;
pub mod iq4_xs;
pub mod q2_k;
pub mod q4_k;
pub mod q8_0;
pub mod q8_k;

verus! {

/// The exact part of a dot product of a weight block with an activation block.
/// Its value is `act_d * d * isum - act_d * dmin * summs`.
pub struct MinDot {
    pub act_d: Bits32,
    pub d: Bits32,
    pub dmin: Bits32,
    pub isum: i32,
    pub summs: i32,
}

/// The exact part of a dot product of a weight block without a minimum with an
/// activation block. Its value is a constant of the format times
/// `act_d * d * isum`.
pub struct ScaledDot {
    pub act_d: Bits32,
    pub d: Bits32,
    pub isum: i32,
}

/// A byte as a signed number.
pub open spec fn signed8(b: u8) -> int {
    if b < 128 {
        b as int
    } else {
        b - 256
    }
}

/// A byte as a signed number.
pub fn as_signed(b: u8) -> (x: i8)
    ensures
        x == signed8(b),
{
    if b < 128 {
        b as i8
    } else {
        (b as i16 - 256) as i8
    }
}

/// A signed number as a byte.
pub fn as_byte(x: i8) -> (b: u8)
    ensures
        signed8(b) == x,
{
    if x >= 0 {
        x as u8
    } else {
        (x as i16 + 256) as u8
    }
}

/// Two to the power of `n`, for `n < 8`.
pub open spec fn pow2_below_8(n: int) -> int {
    if n == 0 {
        1
    } else if n == 1 {
        2
    } else if n == 2 {
        4
    } else if n == 3 {
        8
    } else if n == 4 {
        16
    } else if n == 5 {
        32
    } else if n == 6 {
        64
    } else {
        128
    }
}

/// Two to the power of `n`, for `n < 8`.
pub fn small_pow2(n: u32) -> (p: u8)
    requires
        n < 8,
    ensures
        p == pow2_below_8(n as int),
{
    match n {
        0 => 1,
        1 => 2,
        2 => 4,
        3 => 8,
        4 => 16,
        5 => 32,
        6 => 64,
        _ => 128,
    }
}

/// Multiplying a sum by a number multiplies both parts.
pub(crate) proof fn distributes(c: int, x: int, y: int)
    ensures
        c * (x + y) == c * x + c * y,
{
    vstd::arithmetic::mul::lemma_mul_is_distributive_add(c, x, y);
}

/// A byte stands for itself below 128, and for 256 less from 128 on.
pub proof fn a_byte_wraps_at_128(b: u8)
    ensures
        -128 <= signed8(b) <= 127,
        signed8(b) == b || signed8(b) == b - 256,
{
}

/// Powers of two double from one to the next.
pub proof fn powers_double(n: int)
    requires
        0 <= n < 7,
    ensures
        pow2_below_8(0) == 1,
        pow2_below_8(n + 1) == 2 * pow2_below_8(n),
{
}

} // verus!
