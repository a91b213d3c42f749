//! Blocks of 32 elements with one scale.
//!
//! 34 bytes: a half-precision scale `d`, then 32 signed bytes `qs`. Element
//! `i` is `d * qs[i]`.

use vstd::prelude::*;

use crate::bits::Bits32;
use crate::float;
use crate::le;
use crate::le::get_u16;
use crate::quant;
use crate::quant::as_signed;

pub use crate::float::f16_to_f32;

verus! {

/// Elements in one block.
pub const BLOCK_SIZE: usize = 32;

/// Bytes in one block.
pub const BYTES_PER_BLOCK: usize = 34;

/// An unpacked block: element `i` is `d * qs[i]`.
pub struct Q8Block {
    pub d: Bits32,
    pub qs: Vec<i8>,
}

/// `b` is the block in the 34 bytes of `s` from `at` on.
pub open spec fn is_block(b: Q8Block, s: Seq<u8>, at: int) -> bool {
    &&& b.d == float::widened(le::le16(s, at) as u16)
    &&& b.qs@.len() == 32
    &&& forall|i: int| 0 <= i < 32 ==> #[trigger] b.qs[i] == quant::signed8(s[at + 2 + i])
}

/// Unpacks the block that starts at byte `at`.
pub fn block_at(s: &[u8], at: usize) -> (b: Q8Block)
    requires
        at + 34 <= s.len(),
    ensures
        is_block(b, s@, at as int),
{
    let d: Bits32 = f16_to_f32(get_u16(s, at));
    let mut qs: Vec<i8> = Vec::new();
    let mut i: usize = 0;
    while i < BLOCK_SIZE
        invariant
            i <= 32,
            at + 34 <= s.len(),
            qs.len() == i,
            forall|j: int| 0 <= j < i ==> #[trigger] qs[j] == quant::signed8(s[at + 2 + j]),
        decreases 32 - i,
    {
        qs.push(as_signed(s[at + 2 + i]));
        i += 1;
    }
    Q8Block { d, qs }
}

/// Unpacks one block.
pub fn dequant_block(block: &[u8; 34]) -> (b: Q8Block)
    ensures
        is_block(b, block@, 0),
{
    block_at(block.as_slice(), 0)
}

/// Unpacks a sequence of blocks.
pub fn dequant(bytes: &[u8]) -> (blocks: Vec<Q8Block>)
    requires
        bytes@.len() % 34 == 0,
    ensures
        blocks@.len() == bytes@.len() / 34,
        forall|k: int| 0 <= k < blocks.len() ==> is_block(#[trigger] blocks[k], bytes@, k * 34),
{
    let n: usize = bytes.len() / BYTES_PER_BLOCK;
    let mut blocks: Vec<Q8Block> = Vec::new();
    let mut k: usize = 0;
    while k < n
        invariant
            k <= n,
            n * 34 == bytes.len(),
            blocks.len() == k,
            forall|j: int| 0 <= j < k ==> is_block(#[trigger] blocks[j], bytes@, j * 34),
        decreases n - k,
    {
        blocks.push(block_at(bytes, k * BYTES_PER_BLOCK));
        k += 1;
    }
    blocks
}

/// A block is its half-precision scale and a byte for each element, in the usual
/// form of signed bytes.
pub proof fn a_byte_holds_one_level(b: Q8Block, s: Seq<u8>, at: int, i: int)
    requires
        is_block(b, s, at),
        0 <= at,
        at + 34 <= s.len(),
        0 <= i < 32,
    ensures
        b.d == float::widened((s[at] + 256 * s[at + 1]) as u16),
        b.qs@.len() == 32,
        s[at + 2 + i] == if b.qs[i] < 0 {
            b.qs[i] + 256
        } else {
            b.qs[i] as int
        },
{
    assert(b.qs[i] == quant::signed8(s[at + 2 + i]));
}

} // verus!
