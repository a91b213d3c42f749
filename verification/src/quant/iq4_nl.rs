//! Blocks of 32 elements with levels from a codebook.
//!
//! 18 bytes: a half-precision scale `d`, then 16 bytes; byte `i` holds the
//! codebook index of element `i` (low) and of element `i + 16` (high). An
//! element is `d` times its level.

use vstd::prelude::*;

use crate::bits::Bits32;
use crate::float;
use crate::float::f16_to_f32;
use crate::le;
use crate::le::get_u16;
use crate::quant::iq4_codebook;
use crate::quant::iq4_codebook::{high, low};

verus! {

/// Elements in one block.
pub const BLOCK_SIZE: usize = 32;

/// Bytes in one block.
pub const BYTES_PER_BLOCK: usize = 18;

/// An unpacked block: element `e` is `d * levels[e]`.
pub struct Iq4NlBlock {
    pub d: Bits32,
    pub levels: Vec<i8>,
}

/// The level of element `e` of the block from `at` on.
pub open spec fn level(s: Seq<u8>, at: int, e: int) -> i8 {
    if e < 16 {
        iq4_codebook::low_level(s[at + 2 + e])
    } else {
        iq4_codebook::high_level(s[at + 2 + e - 16])
    }
}

/// `b` is the block in the 18 bytes of `s` from `at` on.
pub open spec fn is_block(b: Iq4NlBlock, s: Seq<u8>, at: int) -> bool {
    &&& b.d == float::widened(le::le16(s, at) as u16)
    &&& b.levels@.len() == 32
    &&& forall|e: int| 0 <= e < 32 ==> #[trigger] b.levels[e] == level(s, at, e)
}

/// Unpacks the block that starts at byte `at`.
pub fn block_at(s: &[u8], at: usize) -> (b: Iq4NlBlock)
    requires
        at + 18 <= s.len(),
    ensures
        is_block(b, s@, at as int),
{
    let d: Bits32 = f16_to_f32(get_u16(s, at));
    let mut levels: Vec<i8> = Vec::new();
    let mut e: usize = 0;
    while e < BLOCK_SIZE
        invariant
            e <= 32,
            at + 18 <= s.len(),
            levels.len() == e,
            forall|k: int| 0 <= k < e ==> #[trigger] levels[k] == level(s@, at as int, k),
        decreases 32 - e,
    {
        if e < 16 {
            levels.push(low(s[at + 2 + e]));
        } else {
            levels.push(high(s[at + 2 + (e - 16)]));
        }
        e += 1;
    }
    Iq4NlBlock { d, levels }
}

/// Unpacks one block.
pub fn dequant_block(block: &[u8; 18]) -> (b: Iq4NlBlock)
    ensures
        is_block(b, block@, 0),
{
    block_at(block.as_slice(), 0)
}

/// Unpacks a sequence of blocks.
pub fn dequant(bytes: &[u8]) -> (blocks: Vec<Iq4NlBlock>)
    requires
        bytes@.len() % 18 == 0,
    ensures
        blocks@.len() == bytes@.len() / 18,
        forall|k: int| 0 <= k < blocks.len() ==> is_block(#[trigger] blocks[k], bytes@, k * 18),
{
    let n: usize = bytes.len() / BYTES_PER_BLOCK;
    let mut blocks: Vec<Iq4NlBlock> = Vec::new();
    let mut k: usize = 0;
    while k < n
        invariant
            k <= n,
            n * 18 == bytes.len(),
            blocks.len() == k,
            forall|j: int| 0 <= j < k ==> is_block(#[trigger] blocks[j], bytes@, j * 18),
        decreases n - k,
    {
        blocks.push(block_at(bytes, k * BYTES_PER_BLOCK));
        k += 1;
    }
    blocks
}

/// A byte made up of two indices gives element `e` the level of the low one, and
/// element `e + 16` the level of the high one.
pub proof fn a_byte_holds_two_indices(b: Iq4NlBlock, s: Seq<u8>, at: int, e: int, i: int, j: int)
    requires
        is_block(b, s, at),
        0 <= at,
        at + 18 <= s.len(),
        0 <= e < 16,
        0 <= i < 16,
        s[at + 2 + e] == i + 16 * j,
    ensures
        b.d == float::widened((s[at] + 256 * s[at + 1]) as u16),
        b.levels@.len() == 32,
        b.levels[e] == iq4_codebook::KVALUES_IQ4NL[i],
        b.levels[e + 16] == iq4_codebook::KVALUES_IQ4NL[j],
{
    assert(b.levels[e] == level(s, at, e));
    assert(b.levels[e + 16] == level(s, at, e + 16));
}

} // verus!
