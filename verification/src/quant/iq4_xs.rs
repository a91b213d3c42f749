//! Blocks of 256 elements with levels from a codebook and signed scales.
//!
//! 136 bytes: a half-precision scale `d`, 16 bits that hold the top two bits
//! of each of eight 6-bit scales, 4 bytes that hold their low four bits, then
//! 128 bytes of codebook indices, 16 for each group of 32 elements. A scale is
//! offset by 32; an element of group `ib` is `d * scale[ib]` times its level.

use vstd::prelude::*;

use crate::bits::Bits32;
use crate::float;
use crate::float::f16_to_f32;
use crate::le;
use crate::le::get_u16;
use crate::quant;
use crate::quant::iq4_codebook;
use crate::quant::iq4_codebook::{high, low};
use crate::quant::q8_k;
use crate::quant::q8_k::scale_of;
use crate::quant::{as_signed, ScaledDot};

verus! {

/// Elements in one block.
pub const BLOCK_SIZE: usize = 256;

/// Bytes in one block.
pub const BYTES_PER_BLOCK: usize = 136;

/// An unpacked block: element `e` is `d * scales[e / 32] * levels[e]`.
pub struct Iq4XsBlock {
    pub d: Bits32,
    pub scales: Vec<i32>,
    pub levels: Vec<i8>,
}

/// Four to the power of `ib`, for `ib < 8`.
pub open spec fn pow4(ib: int) -> int {
    if ib == 0 {
        1
    } else if ib == 1 {
        4
    } else if ib == 2 {
        16
    } else if ib == 3 {
        64
    } else if ib == 4 {
        256
    } else if ib == 5 {
        1024
    } else if ib == 6 {
        4096
    } else {
        16384
    }
}

/// The signed scale of group `ib`.
pub open spec fn scale(scales_l: Seq<u8>, scales_h: int, ib: int) -> int {
    let b = scales_l[ib / 2] as int;
    let lo = if ib % 2 == 0 {
        b % 16
    } else {
        b / 16
    };
    lo + scales_h / pow4(ib) % 4 * 16 - 32
}

fn pow4_exec(ib: usize) -> (p: u16)
    requires
        ib < 8,
    ensures
        p == pow4(ib as int),
{
    match ib {
        0 => 1,
        1 => 4,
        2 => 16,
        3 => 64,
        4 => 256,
        5 => 1024,
        6 => 4096,
        _ => 16384,
    }
}

/// The signed 6-bit scale of group `ib`.
pub fn signed_scale(ib: usize, scales_l: &[u8], scales_h: u16) -> (x: i32)
    requires
        ib < 8,
        scales_l@.len() == 4,
    ensures
        x == scale(scales_l@, scales_h as int, ib as int),
        -32 <= x < 32,
{
    let b: u8 = scales_l[ib / 2];
    let lo: u8 = if ib % 2 == 0 {
        b % 16
    } else {
        b / 16
    };
    let hi: u16 = scales_h / pow4_exec(ib) % 4;
    lo as i32 + hi as i32 * 16 - 32
}

/// The low bits of the scales of the block from `at` on.
pub open spec fn scales_l_of(s: Seq<u8>, at: int) -> Seq<u8> {
    s.subrange(at + 4, at + 8)
}

/// The scale of group `ib` of the block from `at` on.
pub open spec fn scale_in(s: Seq<u8>, at: int, ib: int) -> int {
    scale(scales_l_of(s, at), le::le16(s, at + 2), ib)
}

/// The level of element `e` of the block from `at` on: the first 16 elements
/// of a group take the low indices of its 16 bytes, the others the high ones.
pub open spec fn level(s: Seq<u8>, at: int, e: int) -> i8 {
    let b = s[at + 8 + 16 * (e / 32) + e % 16];
    if e % 32 < 16 {
        iq4_codebook::low_level(b)
    } else {
        iq4_codebook::high_level(b)
    }
}

/// `b` is the block in the 136 bytes of `s` from `at` on.
pub open spec fn is_block(b: Iq4XsBlock, s: Seq<u8>, at: int) -> bool {
    &&& b.d == float::widened(le::le16(s, at) as u16)
    &&& b.scales@.len() == 8
    &&& b.levels@.len() == 256
    &&& forall|ib: int| 0 <= ib < 8 ==> #[trigger] b.scales[ib] == scale_in(s, at, ib)
    &&& forall|e: int| 0 <= e < 256 ==> #[trigger] b.levels[e] == level(s, at, e)
}

/// Unpacks the block that starts at byte `at`.
pub fn block_at(s: &[u8], at: usize) -> (b: Iq4XsBlock)
    requires
        at + 136 <= s.len(),
    ensures
        is_block(b, s@, at as int),
{
    let d: Bits32 = f16_to_f32(get_u16(s, at));
    let scales_h: u16 = get_u16(s, at + 2);
    let scales_l: &[u8] = vstd::slice::slice_subrange(s, at + 4, at + 8);
    let mut scales: Vec<i32> = Vec::new();
    let mut ib: usize = 0;
    while ib < 8
        invariant
            ib <= 8,
            scales_l@ == scales_l_of(s@, at as int),
            scales_l@.len() == 4,
            scales_h == le::le16(s@, at + 2),
            scales.len() == ib,
            forall|k: int| 0 <= k < ib ==> #[trigger] scales[k] == scale_in(s@, at as int, k),
        decreases 8 - ib,
    {
        scales.push(signed_scale(ib, scales_l, scales_h));
        ib += 1;
    }
    let mut levels: Vec<i8> = Vec::new();
    let mut e: usize = 0;
    while e < BLOCK_SIZE
        invariant
            e <= 256,
            at + 136 <= s.len(),
            levels.len() == e,
            forall|k: int| 0 <= k < e ==> #[trigger] levels[k] == level(s@, at as int, k),
        decreases 256 - e,
    {
        let b: u8 = s[at + 8 + 16 * (e / 32) + e % 16];
        if e % 32 < 16 {
            levels.push(low(b));
        } else {
            levels.push(high(b));
        }
        e += 1;
    }
    Iq4XsBlock { d, scales, levels }
}

/// Unpacks one block.
pub fn dequant_block(block: &[u8; 136]) -> (b: Iq4XsBlock)
    ensures
        is_block(b, block@, 0),
{
    block_at(block.as_slice(), 0)
}

/// Unpacks a sequence of blocks.
pub fn dequant(bytes: &[u8]) -> (blocks: Vec<Iq4XsBlock>)
    requires
        bytes@.len() % 136 == 0,
    ensures
        blocks@.len() == bytes@.len() / 136,
        forall|k: int| 0 <= k < blocks.len() ==> is_block(#[trigger] blocks[k], bytes@, k * 136),
{
    let n: usize = bytes.len() / BYTES_PER_BLOCK;
    let mut blocks: Vec<Iq4XsBlock> = Vec::new();
    let mut k: usize = 0;
    while k < n
        invariant
            k <= n,
            n * 136 == bytes.len(),
            blocks.len() == k,
            forall|j: int| 0 <= j < k ==> is_block(#[trigger] blocks[j], bytes@, j * 136),
        decreases n - k,
    {
        blocks.push(block_at(bytes, k * BYTES_PER_BLOCK));
        k += 1;
    }
    blocks
}

/// The first `n` products of the levels of group `ib` with activation levels.
pub open spec fn dot_group(q4: Seq<u8>, q8: Seq<u8>, ib: int, n: nat) -> int
    decreases n,
{
    if n == 0 {
        0
    } else {
        dot_group(q4, q8, ib, (n - 1) as nat) + q8_k::level(q8, 32 * ib + n - 1) * level(
            q4,
            0,
            32 * ib + n - 1,
        )
    }
}

/// The first `n` groups' scaled sums of levels against activation levels.
pub open spec fn weighted(q4: Seq<u8>, q8: Seq<u8>, n: nat) -> int
    decreases n,
{
    if n == 0 {
        0
    } else {
        weighted(q4, q8, (n - 1) as nat) + scale_in(q4, 0, n - 1) * dot_group(q4, q8, n - 1, 32)
    }
}

fn dot_group_exec(q4: &[u8], q8: &[u8], ib: usize) -> (sum: i32)
    requires
        q4@.len() == 136,
        q8@.len() == 292,
        ib < 8,
    ensures
        sum == dot_group(q4@, q8@, ib as int, 32),
        -520192 <= sum <= 520192,
{
    let mut sum: i32 = 0;
    let mut l: usize = 0;
    while l < 32
        invariant
            l <= 32,
            ib < 8,
            q4@.len() == 136,
            q8@.len() == 292,
            sum == dot_group(q4@, q8@, ib as int, l as nat),
            -16256 * l <= sum <= 16256 * l,
        decreases 32 - l,
    {
        let b: u8 = q4[8 + 16 * ib + l % 16];
        let q: i32 = if l < 16 {
            low(b) as i32
        } else {
            high(b) as i32
        };
        let a: i32 = as_signed(q8[4 + 32 * ib + l]) as i32;
        proof {
            let e = 32 * ib + l;
            assert(e / 32 == ib && e % 32 == l && e % 16 == l % 16);
            assert(q == level(q4@, 0, e as int));
            assert(-16256 <= a * q <= 16256) by (nonlinear_arith)
                requires
                    -128 <= a <= 127,
                    -127 <= q <= 113,
            ;
        }
        sum = sum + a * q;
        l += 1;
    }
    sum
}

/// The dot product of a weight block with an activation block: its value is
/// `act_d * d * isum`.
pub fn dot_iq4xs_q8k_block(iq4_block: &[u8; 136], q8_block: &[u8]) -> (r: ScaledDot)
    requires
        q8_block@.len() == 292,
    ensures
        r.act_d == le::le32(q8_block@, 0),
        r.d == float::widened(le::le16(iq4_block@, 0) as u16),
        r.isum == weighted(iq4_block@, q8_block@, 8),
{
    let q4: &[u8] = iq4_block.as_slice();
    let d: Bits32 = f16_to_f32(get_u16(q4, 0));
    let scales_h: u16 = get_u16(q4, 2);
    let scales_l: &[u8] = vstd::slice::slice_subrange(q4, 4, 8);
    let mut isum: i32 = 0;
    let mut ib: usize = 0;
    while ib < 8
        invariant
            ib <= 8,
            q4@ == iq4_block@,
            q4@.len() == 136,
            q8_block@.len() == 292,
            scales_l@ == scales_l_of(q4@, 0),
            scales_l@.len() == 4,
            scales_h == le::le16(q4@, 2),
            isum == weighted(q4@, q8_block@, ib as nat),
            -16646144 * ib <= isum <= 16646144 * ib,
        decreases 8 - ib,
    {
        let sc: i32 = signed_scale(ib, scales_l, scales_h);
        let dot: i32 = dot_group_exec(q4, q8_block, ib);
        assert(-16646144 <= sc * dot <= 16646144) by (nonlinear_arith)
            requires
                -32 <= sc < 32,
                -520192 <= dot <= 520192,
        ;
        isum = isum + sc * dot;
        ib += 1;
    }
    ScaledDot { act_d: scale_of(q8_block), d, isum }
}

/// The first `n` elements of an unpacked block, each its scale times its level,
/// times the levels of an activation.
pub open spec fn element_products(b: Iq4XsBlock, qs: Seq<i8>, n: nat) -> int
    decreases n,
{
    if n == 0 {
        0
    } else {
        element_products(b, qs, (n - 1) as nat) + b.scales[(n - 1) / 32] * (b.levels[n - 1] * qs[n - 1])
    }
}

proof fn group_products(b: Iq4XsBlock, q4: Seq<u8>, q8: Seq<u8>, d: Bits32, qs: Seq<i8>, j: int, n: nat)
    requires
        q4.len() == 136,
        is_block(b, q4, 0),
        q8_k::is_packed(q8, d, qs),
        qs.len() == 256,
        0 <= j < 8,
        n <= 32,
    ensures
        element_products(b, qs, (32 * j + n) as nat) == element_products(
            b,
            qs,
            (32 * j) as nat,
        ) + b.scales[j] * dot_group(q4, q8, j, n),
    decreases n,
{
    if n > 0 {
        group_products(b, q4, q8, d, qs, j, (n - 1) as nat);
        let e = 32 * j + n - 1;
        assert(e / 32 == j);
        assert(b.levels[e] == level(q4, 0, e));
        assert(q8_k::level(q8, e) == qs[e]);
        assert(q8_k::level(q8, e) * level(q4, 0, e) == level(q4, 0, e) * q8_k::level(q8, e)) by (nonlinear_arith);
        quant::distributes(
            b.scales[j] as int,
            dot_group(q4, q8, j, (n - 1) as nat),
            b.levels[e] * qs[e],
        );
    } else {
        assert(b.scales[j] * 0 == 0);
    }
}

proof fn all_groups_products(b: Iq4XsBlock, q4: Seq<u8>, q8: Seq<u8>, d: Bits32, qs: Seq<i8>, j: nat)
    requires
        q4.len() == 136,
        is_block(b, q4, 0),
        q8_k::is_packed(q8, d, qs),
        qs.len() == 256,
        j <= 8,
    ensures
        element_products(b, qs, 32 * j) == weighted(q4, q8, j),
    decreases j,
{
    if j > 0 {
        all_groups_products(b, q4, q8, d, qs, (j - 1) as nat);
        group_products(b, q4, q8, d, qs, j - 1, 32);
    }
}

/// The exact part of a dot product of two blocks is the sum over all elements:
/// unpacking the weights and multiplying element by element gives the same.
pub proof fn dot_sums_the_elements(b: Iq4XsBlock, q4: Seq<u8>, q8: Seq<u8>, d: Bits32, qs: Seq<i8>)
    requires
        q4.len() == 136,
        is_block(b, q4, 0),
        q8_k::is_packed(q8, d, qs),
        qs.len() == 256,
    ensures
        weighted(q4, q8, 8) == element_products(b, qs, 256),
{
    all_groups_products(b, q4, q8, d, qs, 8);
}

/// A byte made up of two indices gives an element of the first half of its group
/// the level of the low one, and the element sixteen behind it the level of the
/// high one.
pub proof fn a_byte_holds_two_indices(
    b: Iq4XsBlock,
    s: Seq<u8>,
    at: int,
    ib: int,
    l: int,
    i: int,
    j: int,
)
    requires
        is_block(b, s, at),
        0 <= at,
        at + 136 <= s.len(),
        0 <= ib < 8,
        0 <= l < 16,
        0 <= i < 16,
        s[at + 8 + 16 * ib + l] == i + 16 * j,
    ensures
        b.levels@.len() == 256,
        b.levels[32 * ib + l] == iq4_codebook::KVALUES_IQ4NL[i],
        b.levels[32 * ib + 16 + l] == iq4_codebook::KVALUES_IQ4NL[j],
{
    let e = 32 * ib + l;
    assert(e / 32 == ib && e % 16 == l && e % 32 == l);
    assert((e + 16) / 32 == ib && (e + 16) % 16 == l && (e + 16) % 32 == l + 16);
    assert(b.levels[e] == level(s, at, e));
    assert(b.levels[e + 16] == level(s, at, e + 16));
}

/// Each 6-bit scale stands for a number from -32 on. Four bytes hold the low four
/// bits of the scales, two to a byte, and a 16-bit number holds their high two
/// bits, the first scale in the lowest.
pub proof fn six_bytes_hold_the_scales(b: Iq4XsBlock, s: Seq<u8>, at: int)
    requires
        is_block(b, s, at),
        0 <= at,
        at + 136 <= s.len(),
    ensures
        b.d == float::widened((s[at] + 256 * s[at + 1]) as u16),
        b.scales@.len() == 8,
        forall|ib: int| 0 <= ib < 8 ==> -32 <= #[trigger] b.scales[ib] < 32,
        forall|i: int|
            0 <= i < 4 ==> #[trigger] s[at + 4 + i] == (b.scales[2 * i] + 32) % 16 + 16 * ((
            b.scales[2 * i + 1] + 32) % 16),
        s[at + 2] + 256 * s[at + 3] == (b.scales[0] + 32) / 16 + 4 * ((b.scales[1] + 32) / 16) + 16
            * ((b.scales[2] + 32) / 16) + 64 * ((b.scales[3] + 32) / 16) + 256 * ((b.scales[4]
            + 32) / 16) + 1024 * ((b.scales[5] + 32) / 16) + 4096 * ((b.scales[6] + 32) / 16)
            + 16384 * ((b.scales[7] + 32) / 16),
{
    let h = le::le16(s, at + 2);
    let q = scales_l_of(s, at);
    assert forall|ib: int| 0 <= ib < 8 implies -32 <= #[trigger] b.scales[ib] < 32 && b.scales[ib]
        == scale(q, h, ib) && (b.scales[ib] + 32) / 16 == h / pow4(ib) % 4 by {
        assert(b.scales[ib] == scale_in(s, at, ib));
    }
    assert forall|i: int| 0 <= i < 4 implies #[trigger] s[at + 4 + i] == (b.scales[2 * i] + 32) % 16
        + 16 * ((b.scales[2 * i + 1] + 32) % 16) by {
        assert(q[i] == s[at + 4 + i]);
        assert(b.scales[2 * i] == scale(q, h, 2 * i));
        assert(b.scales[2 * i + 1] == scale(q, h, 2 * i + 1));
    }
    digits_of_four(h);
    assert(b.scales[0] >= -32 && b.scales[1] >= -32 && b.scales[2] >= -32 && b.scales[3] >= -32
        && b.scales[4] >= -32 && b.scales[5] >= -32 && b.scales[6] >= -32 && b.scales[7] >= -32);
}

proof fn digits_of_four(h: int)
    requires
        0 <= h < 0x1_0000,
    ensures
        h == h / pow4(0) % 4 + 4 * (h / pow4(1) % 4) + 16 * (h / pow4(2) % 4) + 64 * (h / pow4(3)
            % 4) + 256 * (h / pow4(4) % 4) + 1024 * (h / pow4(5) % 4) + 4096 * (h / pow4(6) % 4)
            + 16384 * (h / pow4(7) % 4),
{
    let a = h / 4;
    let b = h / 16;
    let c = h / 64;
    let d = h / 256;
    let e = h / 1024;
    let f = h / 4096;
    let g = h / 16384;
    assert(h == 4 * a + h % 4);
    assert(b == a / 4 && a == 4 * b + a % 4);
    assert(c == b / 4 && b == 4 * c + b % 4);
    assert(d == c / 4 && c == 4 * d + c % 4);
    assert(e == d / 4 && d == 4 * e + d % 4);
    assert(f == e / 4 && e == 4 * f + e % 4);
    assert(g == f / 4 && f == 4 * g + f % 4);
    assert(g % 4 == g);
}

/// Each element adds its scale times its level times the level of the activation.
/// 32 elements share a scale.
pub proof fn each_element_adds_its_product(b: Iq4XsBlock, qs: Seq<i8>, g: int, i: int)
    requires
        0 <= g < 8,
        0 <= i < 32,
    ensures
        element_products(b, qs, 0) == 0,
        element_products(b, qs, (32 * g + i + 1) as nat) - element_products(
            b,
            qs,
            (32 * g + i) as nat,
        ) == b.scales[g] * (b.levels[32 * g + i] * qs[32 * g + i]),
{
    assert((32 * g + i) / 32 == g);
}

} // verus!
