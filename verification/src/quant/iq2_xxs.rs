//! Blocks of 256 elements with levels from a grid.
//!
//! 66 bytes: a half-precision scale `d`, then 8 bytes for each group of 32
//! elements. The first four bytes of a group index the grid, each for eight
//! elements; the other four, read as one number, hold four 7-bit sign indices
//! and in their top bits a 4-bit scale. An element of group `ib` is
//! `d * (0.5 + scale[ib]) * 0.25` times its signed level.

use vstd::prelude::*;

use crate::bits::Bits32;
use crate::float;
use crate::float::f16_to_f32;
use crate::le;
use crate::le::{get_u16, get_u32};
use crate::quant;
use crate::quant::q8_k;
use crate::quant::q8_k::scale_of;
use crate::quant::{as_signed, small_pow2, ScaledDot};

verus! {

/// Elements in one block.
pub const BLOCK_SIZE: usize = 256;

/// Bytes in one block.
pub const BYTES_PER_BLOCK: usize = 66;

/// Eight levels for each grid index, one to a byte.
pub const IQ2_XXS_GRID: [u64; 256] = [
    0x0808080808080808, 0x080808080808082b, 0x0808080808081919, 0x0808080808082b08,
    0x0808080808082b2b, 0x0808080808190819, 0x0808080808191908, 0x08080808082b0808,
    0x08080808082b082b, 0x08080808082b2b08, 0x08080808082b2b2b, 0x0808080819080819,
    0x0808080819081908, 0x0808080819190808, 0x0808080819192b08, 0x08080808192b0819,
    0x08080808192b1908, 0x080808082b080808, 0x080808082b08082b, 0x080808082b082b2b,
    0x080808082b2b082b, 0x0808081908080819, 0x0808081908081908, 0x0808081908190808,
    0x0808081908191919, 0x0808081919080808, 0x080808192b081908, 0x080808192b192b08,
    0x0808082b08080808, 0x0808082b0808082b, 0x0808082b082b082b, 0x0808082b2b08082b,
    0x0808190808080819, 0x0808190808081908, 0x0808190808190808, 0x08081908082b0819,
    0x08081908082b1908, 0x0808190819080808, 0x080819081908082b, 0x0808190819082b08,
    0x08081908192b0808, 0x080819082b080819, 0x080819082b081908, 0x080819082b190808,
    0x080819082b2b1908, 0x0808191908080808, 0x080819190808082b, 0x0808191908082b08,
    0x08081919082b0808, 0x080819191908192b, 0x08081919192b2b19, 0x080819192b080808,
    0x080819192b190819, 0x0808192b08082b19, 0x0808192b08190808, 0x0808192b19080808,
    0x0808192b2b081908, 0x0808192b2b2b1908, 0x08082b0808080808, 0x08082b0808081919,
    0x08082b0808082b08, 0x08082b0808191908, 0x08082b08082b2b08, 0x08082b0819080819,
    0x08082b0819081908, 0x08082b0819190808, 0x08082b081919082b, 0x08082b082b082b08,
    0x08082b1908081908, 0x08082b1919080808, 0x08082b2b0808082b, 0x08082b2b08191908,
    0x0819080808080819, 0x0819080808081908, 0x0819080808190808, 0x08190808082b0819,
    0x0819080819080808, 0x08190808192b0808, 0x081908082b081908, 0x081908082b190808,
    0x081908082b191919, 0x0819081908080808, 0x0819081908082b08, 0x08190819082b0808,
    0x0819081919190808, 0x0819081919192b2b, 0x081908192b080808, 0x0819082b082b1908,
    0x0819082b19081919, 0x0819190808080808, 0x0819190808082b08, 0x08191908082b0808,
    0x08191908082b1919, 0x0819190819082b19, 0x081919082b080808, 0x0819191908192b08,
    0x08191919192b082b, 0x0819192b08080808, 0x0819192b0819192b, 0x08192b0808080819,
    0x08192b0808081908, 0x08192b0808190808, 0x08192b0819080808, 0x08192b082b080819,
    0x08192b1908080808, 0x08192b1908081919, 0x08192b192b2b0808, 0x08192b2b19190819,
    0x082b080808080808, 0x082b08080808082b, 0x082b080808082b2b, 0x082b080819081908,
    0x082b0808192b0819, 0x082b08082b080808, 0x082b08082b08082b, 0x082b0819082b2b19,
    0x082b081919082b08, 0x082b082b08080808, 0x082b082b0808082b, 0x082b190808080819,
    0x082b190808081908, 0x082b190808190808, 0x082b190819080808, 0x082b19081919192b,
    0x082b191908080808, 0x082b191919080819, 0x082b1919192b1908, 0x082b192b2b190808,
    0x082b2b0808082b08, 0x082b2b08082b0808, 0x082b2b082b191908, 0x082b2b2b19081908,
    0x1908080808080819, 0x1908080808081908, 0x1908080808190808, 0x1908080808192b08,
    0x19080808082b0819, 0x19080808082b1908, 0x1908080819080808, 0x1908080819082b08,
    0x190808081919192b, 0x19080808192b0808, 0x190808082b080819, 0x190808082b081908,
    0x190808082b190808, 0x1908081908080808, 0x19080819082b0808, 0x19080819192b0819,
    0x190808192b080808, 0x190808192b081919, 0x1908082b08080819, 0x1908082b08190808,
    0x1908082b19082b08, 0x1908082b1919192b, 0x1908082b192b2b08, 0x1908190808080808,
    0x1908190808082b08, 0x19081908082b0808, 0x190819082b080808, 0x190819082b192b19,
    0x190819190819082b, 0x19081919082b1908, 0x1908192b08080808, 0x19082b0808080819,
    0x19082b0808081908, 0x19082b0808190808, 0x19082b0819080808, 0x19082b0819081919,
    0x19082b1908080808, 0x19082b1919192b08, 0x19082b19192b0819, 0x19082b192b08082b,
    0x19082b2b19081919, 0x19082b2b2b190808, 0x1919080808080808, 0x1919080808082b08,
    0x1919080808190819, 0x1919080808192b19, 0x19190808082b0808, 0x191908082b080808,
    0x191908082b082b08, 0x1919081908081908, 0x191908191908082b, 0x191908192b2b1908,
    0x1919082b2b190819, 0x191919082b190808, 0x191919082b19082b, 0x1919191908082b2b,
    0x1919192b08080819, 0x1919192b19191908, 0x19192b0808080808, 0x19192b0808190819,
    0x19192b0808192b19, 0x19192b08192b1908, 0x19192b1919080808, 0x19192b2b08082b08,
    0x192b080808081908, 0x192b080808190808, 0x192b080819080808, 0x192b0808192b2b08,
    0x192b081908080808, 0x192b081919191919, 0x192b082b08192b08, 0x192b082b192b0808,
    0x192b190808080808, 0x192b190808081919, 0x192b191908190808, 0x192b19190819082b,
    0x192b19192b081908, 0x192b2b081908082b, 0x2b08080808080808, 0x2b0808080808082b,
    0x2b08080808082b2b, 0x2b08080819080819, 0x2b0808082b08082b, 0x2b08081908081908,
    0x2b08081908192b08, 0x2b08081919080808, 0x2b08082b08190819, 0x2b08190808080819,
    0x2b08190808081908, 0x2b08190808190808, 0x2b08190808191919, 0x2b08190819080808,
    0x2b081908192b0808, 0x2b08191908080808, 0x2b0819191908192b, 0x2b0819192b191908,
    0x2b08192b08082b19, 0x2b08192b19080808, 0x2b08192b192b0808, 0x2b082b080808082b,
    0x2b082b1908081908, 0x2b082b2b08190819, 0x2b19080808081908, 0x2b19080808190808,
    0x2b190808082b1908, 0x2b19080819080808, 0x2b1908082b2b0819, 0x2b1908190819192b,
    0x2b1908192b080808, 0x2b19082b19081919, 0x2b19190808080808, 0x2b191908082b082b,
    0x2b19190819081908, 0x2b19191919190819, 0x2b192b082b080819, 0x2b192b19082b0808,
    0x2b2b08080808082b, 0x2b2b080819190808, 0x2b2b08082b081919, 0x2b2b081908082b19,
    0x2b2b082b08080808, 0x2b2b190808192b08, 0x2b2b2b0819190808, 0x2b2b2b1908081908,
];

/// Eight signs for each sign index, one to a bit; a set bit negates.
pub const KSIGNS_IQ2XS: [u8; 128] = [
    0, 129, 130, 3, 132, 5, 6, 135, 136, 9, 10, 139, 12, 141, 142, 15,
    144, 17, 18, 147, 20, 149, 150, 23, 24, 153, 154, 27, 156, 29, 30, 159,
    160, 33, 34, 163, 36, 165, 166, 39, 40, 169, 170, 43, 172, 45, 46, 175,
    48, 177, 178, 51, 180, 53, 54, 183, 184, 57, 58, 187, 60, 189, 190, 63,
    192, 65, 66, 195, 68, 197, 198, 71, 72, 201, 202, 75, 204, 77, 78, 207,
    80, 209, 210, 83, 212, 85, 86, 215, 216, 89, 90, 219, 92, 221, 222, 95,
    96, 225, 226, 99, 228, 101, 102, 231, 232, 105, 106, 235, 108, 237, 238, 111,
    240, 113, 114, 243, 116, 245, 246, 119, 120, 249, 250, 123, 252, 125, 126, 255,
];

/// An unpacked block: element `e` is
/// `d * (0.5 + scales[e / 32]) * 0.25 * levels[e]`.
pub struct Iq2Block {
    pub d: Bits32,
    pub scales: Vec<u8>,
    pub levels: Vec<i16>,
}

/// 256 to the power of `j`, for `j < 8`.
pub open spec fn pow256(j: int) -> int {
    if j == 0 {
        1
    } else if j == 1 {
        0x100
    } else if j == 2 {
        0x1_0000
    } else if j == 3 {
        0x100_0000
    } else if j == 4 {
        0x1_0000_0000
    } else if j == 5 {
        0x100_0000_0000
    } else if j == 6 {
        0x1_0000_0000_0000
    } else {
        0x100_0000_0000_0000
    }
}

/// 128 to the power of `l`, for `l < 4`.
pub open spec fn pow128(l: int) -> int {
    if l == 0 {
        1
    } else if l == 1 {
        0x80
    } else if l == 2 {
        0x4000
    } else {
        0x20_0000
    }
}

/// Signed level `j` of grid entry `g` under sign entry `s`.
pub open spec fn signed_level(g: int, s: int, j: int) -> int {
    let v = IQ2_XXS_GRID[g] as int / pow256(j) % 256;
    if KSIGNS_IQ2XS[s] as int / quant::pow2_below_8(j) % 2 == 1 {
        -v
    } else {
        v
    }
}

/// The number that holds the signs and the scale of group `ib`.
pub open spec fn signs_and_scale(s: Seq<u8>, at: int, ib: int) -> int {
    le::le32(s, at + 2 + 8 * ib + 4)
}

/// The scale of group `ib` of the block from `at` on.
pub open spec fn scale(s: Seq<u8>, at: int, ib: int) -> int {
    signs_and_scale(s, at, ib) / 0x1000_0000
}

/// The grid index of run `l` of group `ib`.
pub open spec fn grid_index(s: Seq<u8>, at: int, ib: int, l: int) -> int {
    s[at + 2 + 8 * ib + l] as int
}

/// The sign index of run `l` of group `ib`.
pub open spec fn sign_index(s: Seq<u8>, at: int, ib: int, l: int) -> int {
    signs_and_scale(s, at, ib) / pow128(l) % 128
}

/// The signed level of element `e` of the block from `at` on.
pub open spec fn level(s: Seq<u8>, at: int, e: int) -> int {
    let ib = e / 32;
    let l = e % 32 / 8;
    signed_level(grid_index(s, at, ib, l), sign_index(s, at, ib, l), e % 8)
}

fn pow256_exec(j: usize) -> (p: u64)
    requires
        j < 8,
    ensures
        p == pow256(j as int),
{
    match j {
        0 => 1,
        1 => 0x100,
        2 => 0x1_0000,
        3 => 0x100_0000,
        4 => 0x1_0000_0000,
        5 => 0x100_0000_0000,
        6 => 0x1_0000_0000_0000,
        _ => 0x100_0000_0000_0000,
    }
}

fn pow128_exec(l: usize) -> (p: u32)
    requires
        l < 4,
    ensures
        p == pow128(l as int),
{
    match l {
        0 => 1,
        1 => 0x80,
        2 => 0x4000,
        _ => 0x20_0000,
    }
}

/// The eight signed levels of grid entry `g` under sign entry `s`.
pub fn signed_grid(g: usize, s: usize) -> (row: [i16; 8])
    requires
        g < 256,
        s < 128,
    ensures
        forall|j: int| 0 <= j < 8 ==> #[trigger] row[j] == signed_level(g as int, s as int, j),
        forall|j: int| 0 <= j < 8 ==> -255 <= #[trigger] row[j] <= 255,
{
    let grid: u64 = IQ2_XXS_GRID[g];
    let signs: u8 = KSIGNS_IQ2XS[s];
    let mut row: [i16; 8] = [0i16; 8];
    let mut j: usize = 0;
    while j < 8
        invariant
            j <= 8,
            g < 256,
            s < 128,
            grid == IQ2_XXS_GRID[g as int],
            signs == KSIGNS_IQ2XS[s as int],
            forall|k: int| 0 <= k < j ==> #[trigger] row[k] == signed_level(g as int, s as int, k),
            forall|k: int| 0 <= k < j ==> -255 <= #[trigger] row[k] <= 255,
        decreases 8 - j,
    {
        let v: i16 = (grid / pow256_exec(j) % 256) as i16;
        let neg: bool = signs / small_pow2(j as u32) % 2 == 1;
        row[j] = if neg {
            -v
        } else {
            v
        };
        j += 1;
    }
    row
}

/// The 32 16-bit numbers after the scale.
pub fn read_qs_u16(block: &[u8; 66]) -> (out: [u16; 32])
    ensures
        forall|i: int| 0 <= i < 32 ==> #[trigger] out[i] == le::le16(block@, 2 + 2 * i),
{
    let mut out: [u16; 32] = [0u16; 32];
    let s: &[u8] = block.as_slice();
    let mut i: usize = 0;
    while i < 32
        invariant
            i <= 32,
            s@ == block@,
            forall|k: int| 0 <= k < i ==> #[trigger] out[k] == le::le16(block@, 2 + 2 * k),
        decreases 32 - i,
    {
        out[i] = get_u16(s, 2 + 2 * i);
        i += 1;
    }
    out
}

/// `b` is the block in the 66 bytes of `s` from `at` on.
pub open spec fn is_block(b: Iq2Block, s: Seq<u8>, at: int) -> bool {
    &&& b.d == float::widened(le::le16(s, at) as u16)
    &&& b.scales@.len() == 8
    &&& b.levels@.len() == 256
    &&& forall|ib: int| 0 <= ib < 8 ==> #[trigger] b.scales[ib] == scale(s, at, ib)
    &&& forall|e: int| 0 <= e < 256 ==> #[trigger] b.levels[e] == level(s, at, e)
}

/// Unpacks the block that starts at byte `at`.
pub fn block_at(s: &[u8], at: usize) -> (b: Iq2Block)
    requires
        at + 66 <= s.len(),
    ensures
        is_block(b, s@, at as int),
{
    let d: Bits32 = f16_to_f32(get_u16(s, at));
    let mut scales: Vec<u8> = Vec::new();
    let mut levels: Vec<i16> = Vec::new();
    let mut ib: usize = 0;
    while ib < 8
        invariant
            ib <= 8,
            at + 66 <= s.len(),
            scales.len() == ib,
            levels.len() == 32 * ib,
            forall|k: int| 0 <= k < ib ==> #[trigger] scales[k] == scale(s@, at as int, k),
            forall|e: int| 0 <= e < 32 * ib ==> #[trigger] levels[e] == level(s@, at as int, e),
        decreases 8 - ib,
    {
        let aux1: u32 = get_u32(s, at + 2 + 8 * ib + 4);
        scales.push((aux1 / 0x1000_0000) as u8);
        let mut l: usize = 0;
        while l < 4
            invariant
                l <= 4,
                ib < 8,
                at + 66 <= s.len(),
                aux1 == signs_and_scale(s@, at as int, ib as int),
                levels.len() == 32 * ib + 8 * l,
                forall|e: int|
                    0 <= e < 32 * ib + 8 * l ==> #[trigger] levels[e] == level(s@, at as int, e),
            decreases 4 - l,
        {
            let g: usize = s[at + 2 + 8 * ib + l] as usize;
            let sign: usize = (aux1 / pow128_exec(l) % 128) as usize;
            let row: [i16; 8] = signed_grid(g, sign);
            let mut j: usize = 0;
            while j < 8
                invariant
                    j <= 8,
                    l < 4,
                    ib < 8,
                    g == grid_index(s@, at as int, ib as int, l as int),
                    sign == sign_index(s@, at as int, ib as int, l as int),
                    forall|k: int| 0 <= k < 8 ==> #[trigger] row[k] == signed_level(g as int, sign as int, k),
                    levels.len() == 32 * ib + 8 * l + j,
                    forall|e: int|
                        0 <= e < 32 * ib + 8 * l + j ==> #[trigger] levels[e] == level(
                            s@,
                            at as int,
                            e,
                        ),
                decreases 8 - j,
            {
                proof {
                    let e = 32 * ib + 8 * l + j;
                    assert(e / 32 == ib && e % 32 == 8 * l + j && e % 32 / 8 == l && e % 8 == j);
                }
                levels.push(row[j]);
                j += 1;
            }
            l += 1;
        }
        ib += 1;
    }
    Iq2Block { d, scales, levels }
}

/// Unpacks one block.
pub fn dequant_block(block: &[u8; 66]) -> (b: Iq2Block)
    ensures
        is_block(b, block@, 0),
{
    block_at(block.as_slice(), 0)
}

/// Unpacks a sequence of blocks.
pub fn dequant(bytes: &[u8]) -> (blocks: Vec<Iq2Block>)
    requires
        bytes@.len() % 66 == 0,
    ensures
        blocks@.len() == bytes@.len() / 66,
        forall|k: int| 0 <= k < blocks.len() ==> is_block(#[trigger] blocks[k], bytes@, k * 66),
{
    let n: usize = bytes.len() / BYTES_PER_BLOCK;
    let mut blocks: Vec<Iq2Block> = Vec::new();
    let mut k: usize = 0;
    while k < n
        invariant
            k <= n,
            n * 66 == bytes.len(),
            blocks.len() == k,
            forall|j: int| 0 <= j < k ==> is_block(#[trigger] blocks[j], bytes@, j * 66),
        decreases n - k,
    {
        blocks.push(block_at(bytes, k * BYTES_PER_BLOCK));
        k += 1;
    }
    blocks
}

/// The sum of the first `n` products of eight levels with signed bytes from
/// `from` on.
pub open spec fn dot_run(row: Seq<i16>, q8: Seq<u8>, from: int, n: nat) -> int
    decreases n,
{
    if n == 0 {
        0
    } else {
        dot_run(row, q8, from, (n - 1) as nat) + row[n - 1] * quant::signed8(q8[from + n - 1])
    }
}

fn dot_run_exec(row: &[i16; 8], q8: &[u8], from: usize) -> (sum: i32)
    requires
        from + 8 <= q8@.len(),
        q8@.len() == 16,
        forall|j: int| 0 <= j < 8 ==> -255 <= #[trigger] row[j] <= 255,
    ensures
        sum == dot_run(row@, q8@, from as int, 8),
        -261120 <= sum <= 261120,
{
    let mut sum: i32 = 0;
    let mut i: usize = 0;
    while i < 8
        invariant
            i <= 8,
            from + 8 <= q8@.len(),
            q8@.len() == 16,
            forall|j: int| 0 <= j < 8 ==> -255 <= #[trigger] row[j] <= 255,
            sum == dot_run(row@, q8@, from as int, i as nat),
            -32640 * i <= sum <= 32640 * i,
        decreases 8 - i,
    {
        let g: i32 = row[i] as i32;
        let a: i32 = as_signed(q8[from + i]) as i32;
        assert(-32640 <= g * a <= 32640) by (nonlinear_arith)
            requires
                -255 <= g <= 255,
                -128 <= a <= 127,
        ;
        sum = sum + g * a;
        i += 1;
    }
    sum
}

/// Two runs of eight levels against sixteen signed bytes.
pub fn dot_iq2_pair_16(grid0: &[i16; 8], grid1: &[i16; 8], q8: &[u8]) -> (sum: i32)
    requires
        q8@.len() == 16,
        forall|j: int| 0 <= j < 8 ==> -255 <= #[trigger] grid0[j] <= 255,
        forall|j: int| 0 <= j < 8 ==> -255 <= #[trigger] grid1[j] <= 255,
    ensures
        sum == dot_run(grid0@, q8@, 0, 8) + dot_run(grid1@, q8@, 8, 8),
        -522240 <= sum <= 522240,
{
    dot_run_exec(grid0, q8, 0) + dot_run_exec(grid1, q8, 8)
}

/// The first `n` products of the levels of group `ib` with activation levels.
pub open spec fn dot_group(q2: Seq<u8>, q8: Seq<u8>, ib: int, n: nat) -> int
    decreases n,
{
    if n == 0 {
        0
    } else {
        dot_group(q2, q8, ib, (n - 1) as nat) + level(q2, 0, 32 * ib + n - 1) * q8_k::level(
            q8,
            32 * ib + n - 1,
        )
    }
}

/// The first `n` groups' sums of levels against activation levels, each times
/// one more than twice its scale.
pub open spec fn weighted(q2: Seq<u8>, q8: Seq<u8>, n: nat) -> int
    decreases n,
{
    if n == 0 {
        0
    } else {
        weighted(q2, q8, (n - 1) as nat) + (2 * scale(q2, 0, n - 1) + 1) * dot_group(
            q2,
            q8,
            n - 1,
            32,
        )
    }
}

proof fn level_in_run(q2: Seq<u8>, ib: int, l: int, j: int)
    requires
        0 <= l < 4,
        0 <= j < 8,
    ensures
        level(q2, 0, 32 * ib + 8 * l + j) == signed_level(
            grid_index(q2, 0, ib, l),
            sign_index(q2, 0, ib, l),
            j,
        ),
{
    let e = 32 * ib + 8 * l + j;
    assert(e / 32 == ib && e % 32 == 8 * l + j && e % 32 / 8 == l && e % 8 == j);
}

/// A run of eight levels extends the sum of a group.
proof fn run_extends_group(q2: Seq<u8>, q8: Seq<u8>, ib: int, l: int, row: Seq<i16>, part: Seq<u8>, from: int, n: nat)
    requires
        0 <= ib < 8,
        0 <= l < 4,
        n <= 8,
        q8.len() == 292,
        row.len() == 8,
        from == 0 || from == 8,
        part.len() == 16,
        forall|j: int|
            0 <= j < 8 ==> #[trigger] row[j] == signed_level(
                grid_index(q2, 0, ib, l),
                sign_index(q2, 0, ib, l),
                j,
            ),
        forall|j: int| 0 <= j < 8 ==> part[from + j] == #[trigger] q8[4 + 32 * ib + 8 * l + j],
    ensures
        dot_group(q2, q8, ib, (8 * l + n) as nat) == dot_group(q2, q8, ib, (8 * l) as nat) + dot_run(
            row,
            part,
            from,
            n,
        ),
    decreases n,
{
    if n > 0 {
        run_extends_group(q2, q8, ib, l, row, part, from, (n - 1) as nat);
        let j = n - 1;
        level_in_run(q2, ib, l, j);
        assert(part[from + j] == q8[4 + 32 * ib + 8 * l + j]);
    }
}

fn dot_group_exec(q2: &[u8], q8: &[u8], ib: usize) -> (sum: i32)
    requires
        q2@.len() == 66,
        q8@.len() == 292,
        ib < 8,
    ensures
        sum == dot_group(q2@, q8@, ib as int, 32),
        -1044480 <= sum <= 1044480,
{
    let aux1: u32 = get_u32(q2, 2 + 8 * ib + 4);
    let mut sum: i32 = 0;
    let mut h: usize = 0;
    while h < 2
        invariant
            h <= 2,
            ib < 8,
            q2@.len() == 66,
            q8@.len() == 292,
            aux1 == signs_and_scale(q2@, 0, ib as int),
            sum == dot_group(q2@, q8@, ib as int, (16 * h) as nat),
            -522240 * h <= sum <= 522240 * h,
        decreases 2 - h,
    {
        let l: usize = 2 * h;
        let grid0: [i16; 8] = signed_grid(
            q2[2 + 8 * ib + l] as usize,
            (aux1 / pow128_exec(l) % 128) as usize,
        );
        let grid1: [i16; 8] = signed_grid(
            q2[2 + 8 * ib + l + 1] as usize,
            (aux1 / pow128_exec(l + 1) % 128) as usize,
        );
        let from: usize = 4 + 32 * ib + 16 * h;
        let part: &[u8] = vstd::slice::slice_subrange(q8, from, from + 16);
        proof {
            assert forall|j: int| 0 <= j < 8 implies part@[0 + j] == #[trigger] q8@[4 + 32 * ib + 8
                * l + j] by {}
            assert forall|j: int| 0 <= j < 8 implies part@[8 + j] == #[trigger] q8@[4 + 32 * ib + 8
                * (l + 1) + j] by {}
            run_extends_group(q2@, q8@, ib as int, l as int, grid0@, part@, 0, 8);
            run_extends_group(q2@, q8@, ib as int, l + 1, grid1@, part@, 8, 8);
        }
        sum = sum + dot_iq2_pair_16(&grid0, &grid1, part);
        h += 1;
    }
    sum
}

/// The dot product of a weight block with an activation block: its value is
/// `0.125 * act_d * d * isum`.
pub fn dot_iq2xxs_q8k_block(iq2_block: &[u8; 66], q8_block: &[u8]) -> (r: ScaledDot)
    requires
        q8_block@.len() == 292,
    ensures
        r.act_d == le::le32(q8_block@, 0),
        r.d == float::widened(le::le16(iq2_block@, 0) as u16),
        r.isum == weighted(iq2_block@, q8_block@, 8),
{
    let q2: &[u8] = iq2_block.as_slice();
    let d: Bits32 = f16_to_f32(get_u16(q2, 0));
    let mut isum: i32 = 0;
    let mut ib: usize = 0;
    while ib < 8
        invariant
            ib <= 8,
            q2@ == iq2_block@,
            q2@.len() == 66,
            q8_block@.len() == 292,
            isum == weighted(q2@, q8_block@, ib as nat),
            -32378880 * ib <= isum <= 32378880 * ib,
        decreases 8 - ib,
    {
        let aux1: u32 = get_u32(q2, 2 + 8 * ib + 4);
        let ls: i32 = (2 * (aux1 / 0x1000_0000) + 1) as i32;
        let dot: i32 = dot_group_exec(q2, q8_block, ib);
        assert(-32378880 <= ls * dot <= 32378880) by (nonlinear_arith)
            requires
                1 <= ls <= 31,
                -1044480 <= dot <= 1044480,
        ;
        isum = isum + ls * dot;
        ib += 1;
    }
    ScaledDot { act_d: scale_of(q8_block), d, isum }
}

/// The first `n` elements of an unpacked block, each its scale times its level,
/// times the levels of an activation.
pub open spec fn element_products(b: Iq2Block, qs: Seq<i8>, n: nat) -> int
    decreases n,
{
    if n == 0 {
        0
    } else {
        element_products(b, qs, (n - 1) as nat) + (2 * b.scales[(n - 1) / 32] + 1) * (b.levels[n - 1] * qs[n - 1])
    }
}

proof fn group_products(b: Iq2Block, q2: Seq<u8>, q8: Seq<u8>, d: Bits32, qs: Seq<i8>, j: int, n: nat)
    requires
        q2.len() == 66,
        is_block(b, q2, 0),
        q8_k::is_packed(q8, d, qs),
        qs.len() == 256,
        0 <= j < 8,
        n <= 32,
    ensures
        element_products(b, qs, (32 * j + n) as nat) == element_products(
            b,
            qs,
            (32 * j) as nat,
        ) + (2 * b.scales[j] + 1) * dot_group(q2, q8, j, n),
    decreases n,
{
    if n > 0 {
        group_products(b, q2, q8, d, qs, j, (n - 1) as nat);
        let e = 32 * j + n - 1;
        assert(e / 32 == j);
        assert(b.levels[e] == level(q2, 0, e));
        assert(q8_k::level(q8, e) == qs[e]);

        quant::distributes(
            (2 * b.scales[j] + 1) as int,
            dot_group(q2, q8, j, (n - 1) as nat),
            b.levels[e] * qs[e],
        );
    } else {
        assert((2 * b.scales[j] + 1) * 0 == 0);
    }
}

proof fn all_groups_products(b: Iq2Block, q2: Seq<u8>, q8: Seq<u8>, d: Bits32, qs: Seq<i8>, j: nat)
    requires
        q2.len() == 66,
        is_block(b, q2, 0),
        q8_k::is_packed(q8, d, qs),
        qs.len() == 256,
        j <= 8,
    ensures
        element_products(b, qs, 32 * j) == weighted(q2, q8, j),
    decreases j,
{
    if j > 0 {
        all_groups_products(b, q2, q8, d, qs, (j - 1) as nat);
        group_products(b, q2, q8, d, qs, j - 1, 32);
    }
}

/// The exact part of a dot product of two blocks is the sum over all elements:
/// unpacking the weights and multiplying element by element gives the same.
pub proof fn dot_sums_the_elements(b: Iq2Block, q2: Seq<u8>, q8: Seq<u8>, d: Bits32, qs: Seq<i8>)
    requires
        q2.len() == 66,
        is_block(b, q2, 0),
        q8_k::is_packed(q8, d, qs),
        qs.len() == 256,
    ensures
        weighted(q2, q8, 8) == element_products(b, qs, 256),
{
    all_groups_products(b, q2, q8, d, qs, 8);
}

/// Byte `l` of a group picks the eight numbers of a run out of the grid, lowest
/// byte first, and seven bits of the 32-bit number behind these bytes, the lowest
/// for the first run, pick its signs. The highest four bits of that number are
/// the scale of the group.
pub proof fn a_run_is_a_signed_grid_entry(
    b: Iq2Block,
    s: Seq<u8>,
    at: int,
    ib: int,
    l: int,
    j: int,
    bit: int,
    byte: int,
)
    requires
        is_block(b, s, at),
        0 <= at,
        at + 66 <= s.len(),
        0 <= ib < 8,
        0 <= l < 4,
        0 <= j < 8,
        j == 0 ==> bit == 1 && byte == 0x1,
        j == 1 ==> bit == 2 && byte == 0x100,
        j == 2 ==> bit == 4 && byte == 0x10000,
        j == 3 ==> bit == 8 && byte == 0x1000000,
        j == 4 ==> bit == 16 && byte == 0x100000000,
        j == 5 ==> bit == 32 && byte == 0x10000000000,
        j == 6 ==> bit == 64 && byte == 0x1000000000000,
        j == 7 ==> bit == 128 && byte == 0x100000000000000,
    ensures
        b.d == float::widened((s[at] + 256 * s[at + 1]) as u16),
        b.scales@.len() == 8,
        b.levels@.len() == 256,
        b.scales[ib] == s[at + 9 + 8 * ib] as int / 16,
        ({
            let w = s[at + 6 + 8 * ib] + 256 * s[at + 7 + 8 * ib] + 65536 * s[at + 8 + 8 * ib]
                + 16777216 * s[at + 9 + 8 * ib];
            let k = if l == 0 {
                w % 128
            } else if l == 1 {
                w / 128 % 128
            } else if l == 2 {
                w / 16384 % 128
            } else {
                w / 2097152 % 128
            };
            let v = IQ2_XXS_GRID[s[at + 2 + 8 * ib + l] as int] as int / byte % 256;
            b.levels[32 * ib + 8 * l + j] == if KSIGNS_IQ2XS[k] as int / bit % 2 == 1 {
                -v
            } else {
                v
            }
        }),
{
    let e = 32 * ib + 8 * l + j;
    assert(b.scales[ib] == scale(s, at, ib));
    assert(b.levels[e] == level(s, at, e));
    assert(e / 32 == ib && e % 32 / 8 == l && e % 8 == j);
    assert(byte == pow256(j) && bit == quant::pow2_below_8(j));
}

/// A sign index gives the first seven signs by its bits, and the last so that the
/// number of negative ones is even.
pub proof fn signs_are_even_in_number(s: int)
    requires
        0 <= s < 128,
    ensures
        KSIGNS_IQ2XS[s] == s + 128 * ((s % 2 + s / 2 % 2 + s / 4 % 2 + s / 8 % 2 + s / 16 % 2 + s
            / 32 % 2 + s / 64) % 2),
{
}

/// The entries of the grid grow from one to the next.
pub proof fn grid_entries_grow(g: int)
    requires
        0 <= g < 255,
    ensures
        IQ2_XXS_GRID[g] < IQ2_XXS_GRID[g + 1],
{
}

/// Each element adds one more than twice its scale, times its level, times the
/// level of the activation. 32 elements share a scale.
pub proof fn each_element_adds_its_product(b: Iq2Block, qs: Seq<i8>, g: int, i: int)
    requires
        0 <= g < 8,
        0 <= i < 32,
    ensures
        element_products(b, qs, 0) == 0,
        element_products(b, qs, (32 * g + i + 1) as nat) - element_products(
            b,
            qs,
            (32 * g + i) as nat,
        ) == (2 * b.scales[g] + 1) * (b.levels[32 * g + i] * qs[32 * g + i]),
{
    assert((32 * g + i) / 32 == g);
}

/// One more level adds its product with the signed byte it stands against.
pub proof fn a_run_adds_its_products(row: Seq<i16>, q8: Seq<u8>, from: int, n: nat, x: int)
    requires
        n < row.len(),
        0 <= from,
        from + n < q8.len(),
        -128 <= x < 128,
        q8[from + n] == x || q8[from + n] == x + 256,
    ensures
        dot_run(row, q8, from, 0) == 0,
        dot_run(row, q8, from, n + 1) == dot_run(row, q8, from, n) + row[n as int] * x,
{
}

/// The first number of every entry of the grid is 8, 25 or 43.
pub proof fn entries_start_with_these_numbers(g: int)
    requires
        0 <= g < 256,
    ensures
        IQ2_XXS_GRID[g] as int % 256 == 8 || IQ2_XXS_GRID[g] as int % 256 == 25
            || IQ2_XXS_GRID[g] as int % 256 == 43,
{
}

} // verus!
