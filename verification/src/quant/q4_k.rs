//! Blocks of 256 elements with 4-bit levels.
//!
//! 144 bytes: half-precision scales `d` and `dmin`, 12 bytes that pack eight
//! 6-bit scales and eight 6-bit minima, then 128 bytes of levels, two to a
//! byte. An element of group `j` (32 elements) with level `q` is
//! `d * scale[j] * q - dmin * min[j]`.

use vstd::prelude::*;

use crate::bits::Bits32;
use crate::float;
use crate::float::f16_to_f32;
use crate::le;
use crate::le::get_u16;
use crate::quant;
use crate::quant::q8_k;
use crate::quant::q8_k::{get_i16, scale_of};
use crate::quant::{as_signed, MinDot};

verus! {

/// Elements in one block.
pub const BLOCK_SIZE: usize = 256;

/// Bytes in one block.
pub const BYTES_PER_BLOCK: usize = 144;

/// An unpacked block: element `e` is
/// `d * scales[e / 32] * qs[e] - dmin * mins[e / 32]`.
pub struct Q4KBlock {
    pub d: Bits32,
    pub dmin: Bits32,
    pub scales: Vec<u8>,
    pub mins: Vec<u8>,
    pub qs: Vec<u8>,
}

/// The 6-bit scale of group `j`, packed in the 12 bytes of `q`.
pub open spec fn scale_k4(q: Seq<u8>, j: int) -> int {
    if j < 4 {
        q[j] as int % 64
    } else {
        q[j + 4] as int % 16 + q[j - 4] as int / 64 * 16
    }
}

/// The 6-bit minimum of group `j`, packed in the 12 bytes of `q`.
pub open spec fn min_k4(q: Seq<u8>, j: int) -> int {
    if j < 4 {
        q[j + 4] as int % 64
    } else {
        q[j + 4] as int / 16 + q[j] as int / 64 * 16
    }
}

/// The 6-bit scale and minimum of group `j`.
pub fn get_scale_min_k4(j: usize, q: &[u8]) -> (r: (u8, u8))
    requires
        j < 8,
        q@.len() == 12,
    ensures
        r.0 == scale_k4(q@, j as int),
        r.1 == min_k4(q@, j as int),
        r.0 < 64,
        r.1 < 64,
{
    if j < 4 {
        (q[j] % 64, q[j + 4] % 64)
    } else {
        (q[j + 4] % 16 + q[j - 4] / 64 * 16, q[j + 4] / 16 + q[j] / 64 * 16)
    }
}

/// The packed scales of the block from `at` on.
pub open spec fn scales_of(s: Seq<u8>, at: int) -> Seq<u8> {
    s.subrange(at + 4, at + 16)
}

/// The level of element `e` of the block from `at` on: groups `2 k` and
/// `2 k + 1` share 32 bytes, the first in the low halves.
pub open spec fn level(s: Seq<u8>, at: int, e: int) -> int {
    let b = s[at + 16 + 32 * (e / 64) + e % 32] as int;
    if e / 32 % 2 == 0 {
        b % 16
    } else {
        b / 16
    }
}

/// `b` is the block in the 144 bytes of `s` from `at` on.
pub open spec fn is_block(b: Q4KBlock, s: Seq<u8>, at: int) -> bool {
    &&& b.d == float::widened(le::le16(s, at) as u16)
    &&& b.dmin == float::widened(le::le16(s, at + 2) as u16)
    &&& b.scales@.len() == 8
    &&& b.mins@.len() == 8
    &&& b.qs@.len() == 256
    &&& forall|j: int| 0 <= j < 8 ==> #[trigger] b.scales[j] == scale_k4(scales_of(s, at), j)
    &&& forall|j: int| 0 <= j < 8 ==> #[trigger] b.mins[j] == min_k4(scales_of(s, at), j)
    &&& forall|e: int| 0 <= e < 256 ==> #[trigger] b.qs[e] == level(s, at, e)
}

/// Unpacks the block that starts at byte `at`.
pub fn block_at(s: &[u8], at: usize) -> (b: Q4KBlock)
    requires
        at + 144 <= s.len(),
    ensures
        is_block(b, s@, at as int),
{
    let d: Bits32 = f16_to_f32(get_u16(s, at));
    let dmin: Bits32 = f16_to_f32(get_u16(s, at + 2));
    let packed: &[u8] = vstd::slice::slice_subrange(s, at + 4, at + 16);
    let mut scales: Vec<u8> = Vec::new();
    let mut mins: Vec<u8> = Vec::new();
    let mut j: usize = 0;
    while j < 8
        invariant
            j <= 8,
            packed@ == scales_of(s@, at as int),
            packed@.len() == 12,
            scales.len() == j,
            mins.len() == j,
            forall|k: int| 0 <= k < j ==> #[trigger] scales[k] == scale_k4(packed@, k),
            forall|k: int| 0 <= k < j ==> #[trigger] mins[k] == min_k4(packed@, k),
        decreases 8 - j,
    {
        let (sc, mn) = get_scale_min_k4(j, packed);
        scales.push(sc);
        mins.push(mn);
        j += 1;
    }
    let mut qs: Vec<u8> = Vec::new();
    let mut e: usize = 0;
    while e < BLOCK_SIZE
        invariant
            e <= 256,
            at + 144 <= s.len(),
            qs.len() == e,
            forall|k: int| 0 <= k < e ==> #[trigger] qs[k] == level(s@, at as int, k),
        decreases 256 - e,
    {
        let b: u8 = s[at + 16 + 32 * (e / 64) + e % 32];
        if e / 32 % 2 == 0 {
            qs.push(b % 16);
        } else {
            qs.push(b / 16);
        }
        e += 1;
    }
    Q4KBlock { d, dmin, scales, mins, qs }
}

/// Unpacks one block.
pub fn dequant_block(block: &[u8; 144]) -> (b: Q4KBlock)
    ensures
        is_block(b, block@, 0),
{
    block_at(block.as_slice(), 0)
}

/// Unpacks a sequence of blocks.
pub fn dequant(bytes: &[u8]) -> (blocks: Vec<Q4KBlock>)
    requires
        bytes@.len() % 144 == 0,
    ensures
        blocks@.len() == bytes@.len() / 144,
        forall|k: int| 0 <= k < blocks.len() ==> is_block(#[trigger] blocks[k], bytes@, k * 144),
{
    let n: usize = bytes.len() / BYTES_PER_BLOCK;
    let mut blocks: Vec<Q4KBlock> = Vec::new();
    let mut k: usize = 0;
    while k < n
        invariant
            k <= n,
            n * 144 == bytes.len(),
            blocks.len() == k,
            forall|j: int| 0 <= j < k ==> is_block(#[trigger] blocks[j], bytes@, j * 144),
        decreases n - k,
    {
        blocks.push(block_at(bytes, k * BYTES_PER_BLOCK));
        k += 1;
    }
    blocks
}

/// The first `n` products of the levels of group `j` with activation levels.
pub open spec fn dot_group(q4: Seq<u8>, q8: Seq<u8>, j: int, n: nat) -> int
    decreases n,
{
    if n == 0 {
        0
    } else {
        dot_group(q4, q8, j, (n - 1) as nat) + q8_k::level(q8, 32 * j + n - 1) * level(
            q4,
            0,
            32 * j + n - 1,
        )
    }
}

/// The first `n` groups' scaled sums of levels against activation levels.
pub open spec fn weighted(q4: Seq<u8>, q8: Seq<u8>, n: nat) -> int
    decreases n,
{
    if n == 0 {
        0
    } else {
        weighted(q4, q8, (n - 1) as nat) + scale_k4(scales_of(q4, 0), n - 1) * dot_group(
            q4,
            q8,
            n - 1,
            32,
        )
    }
}

/// The first `n` groups' minima times their activation sums, of which each
/// group spans two.
pub open spec fn min_weighted(q4: Seq<u8>, q8: Seq<u8>, n: nat) -> int
    decreases n,
{
    if n == 0 {
        0
    } else {
        min_weighted(q4, q8, (n - 1) as nat) + (q8_k::group_sum(q8, 2 * (n - 1))
            + q8_k::group_sum(q8, 2 * (n - 1) + 1)) * min_k4(scales_of(q4, 0), n - 1)
    }
}

fn dot_group_exec(q4: &[u8], q8: &[u8], j: usize) -> (sum: i32)
    requires
        q4@.len() == 144,
        q8@.len() == 292,
        j < 8,
    ensures
        sum == dot_group(q4@, q8@, j as int, 32),
        -61440 <= sum <= 61440,
{
    let mut sum: i32 = 0;
    let mut l: usize = 0;
    while l < 32
        invariant
            l <= 32,
            j < 8,
            q4@.len() == 144,
            q8@.len() == 292,
            sum == dot_group(q4@, q8@, j as int, l as nat),
            -1920 * l <= sum <= 1920 * l,
        decreases 32 - l,
    {
        let b: u8 = q4[16 + 32 * (j / 2) + l];
        let q: i32 = if j % 2 == 0 {
            (b % 16) as i32
        } else {
            (b / 16) as i32
        };
        let a: i32 = as_signed(q8[4 + 32 * j + l]) as i32;
        proof {
            let e = 32 * j + l;
            assert(e / 64 == j / 2 && e % 32 == l && e / 32 == j);
            assert(q == level(q4@, 0, e as int));
            assert(-1920 <= a * q <= 1920) by (nonlinear_arith)
                requires
                    -128 <= a <= 127,
                    0 <= q <= 15,
            ;
        }
        sum = sum + a * q;
        l += 1;
    }
    sum
}

/// The dot product of a weight block with an activation block.
pub fn dot_q4k_q8k_block(q4_block: &[u8; 144], q8_block: &[u8]) -> (r: MinDot)
    requires
        q8_block@.len() == 292,
    ensures
        r.act_d == le::le32(q8_block@, 0),
        r.d == float::widened(le::le16(q4_block@, 0) as u16),
        r.dmin == float::widened(le::le16(q4_block@, 2) as u16),
        r.isum == weighted(q4_block@, q8_block@, 8),
        r.summs == min_weighted(q4_block@, q8_block@, 8),
{
    let q4: &[u8] = q4_block.as_slice();
    let d: Bits32 = f16_to_f32(get_u16(q4, 0));
    let dmin: Bits32 = f16_to_f32(get_u16(q4, 2));
    let packed: &[u8] = vstd::slice::slice_subrange(q4, 4, 16);
    let mut summs: i32 = 0;
    let mut isum: i32 = 0;
    let mut j: usize = 0;
    while j < 8
        invariant
            j <= 8,
            q4@ == q4_block@,
            q4@.len() == 144,
            q8_block@.len() == 292,
            packed@ == scales_of(q4@, 0),
            packed@.len() == 12,
            summs == min_weighted(q4@, q8_block@, j as nat),
            isum == weighted(q4@, q8_block@, j as nat),
            -4128768 * j <= summs <= 4128768 * j,
            -3870720 * j <= isum <= 3870720 * j,
        decreases 8 - j,
    {
        let (sc, mn) = get_scale_min_k4(j, packed);
        let bs0: i32 = get_i16(q8_block, 260 + 4 * j) as i32;
        let bs1: i32 = get_i16(q8_block, 262 + 4 * j) as i32;
        let bs: i32 = bs0 + bs1;
        let m: i32 = mn as i32;
        assert(-4128768 <= bs * m <= 4128768) by (nonlinear_arith)
            requires
                -65536 <= bs <= 65534,
                0 <= m <= 63,
        ;
        summs = summs + bs * m;
        let c: i32 = sc as i32;
        let dot: i32 = dot_group_exec(q4, q8_block, j);
        assert(-3870720 <= c * dot <= 3870720) by (nonlinear_arith)
            requires
                0 <= c <= 63,
                -61440 <= dot <= 61440,
        ;
        isum = isum + c * dot;
        j += 1;
    }
    MinDot { act_d: scale_of(q8_block), d, dmin, isum, summs }
}

/// The first `n` elements of an unpacked block, each its scale times its level,
/// times the levels of an activation.
pub open spec fn element_products(b: Q4KBlock, qs: Seq<i8>, n: nat) -> int
    decreases n,
{
    if n == 0 {
        0
    } else {
        element_products(b, qs, (n - 1) as nat) + b.scales[(n - 1) / 32] * (b.qs[n - 1] * qs[n - 1])
    }
}

/// The minima of the first `n` elements of an unpacked block times the levels
/// of an activation.
pub open spec fn element_minima(b: Q4KBlock, qs: Seq<i8>, n: nat) -> int
    decreases n,
{
    if n == 0 {
        0
    } else {
        element_minima(b, qs, (n - 1) as nat) + b.mins[(n - 1) / 32] * qs[n - 1]
    }
}

proof fn group_products(b: Q4KBlock, q4: Seq<u8>, q8: Seq<u8>, d: Bits32, qs: Seq<i8>, j: int, n: nat)
    requires
        q4.len() == 144,
        is_block(b, q4, 0),
        q8_k::is_packed(q8, d, qs),
        qs.len() == 256,
        0 <= j < 8,
        n <= 32,
    ensures
        element_products(b, qs, (32 * j + n) as nat) == element_products(
            b,
            qs,
            (32 * j) as nat,
        ) + b.scales[j] * dot_group(q4, q8, j, n),
    decreases n,
{
    if n > 0 {
        group_products(b, q4, q8, d, qs, j, (n - 1) as nat);
        let e = 32 * j + n - 1;
        assert(e / 32 == j);
        assert(b.qs[e] == level(q4, 0, e));
        assert(q8_k::level(q8, e) == qs[e]);
        assert(q8_k::level(q8, e) * level(q4, 0, e) == level(q4, 0, e) * q8_k::level(q8, e)) by (nonlinear_arith);
        quant::distributes(
            b.scales[j] as int,
            dot_group(q4, q8, j, (n - 1) as nat),
            b.qs[e] * qs[e],
        );
    } else {
        assert(b.scales[j] * 0 == 0);
    }
}

proof fn all_groups_products(b: Q4KBlock, q4: Seq<u8>, q8: Seq<u8>, d: Bits32, qs: Seq<i8>, j: nat)
    requires
        q4.len() == 144,
        is_block(b, q4, 0),
        q8_k::is_packed(q8, d, qs),
        qs.len() == 256,
        j <= 8,
    ensures
        element_products(b, qs, 32 * j) == weighted(q4, q8, j),
    decreases j,
{
    if j > 0 {
        all_groups_products(b, q4, q8, d, qs, (j - 1) as nat);
        group_products(b, q4, q8, d, qs, j - 1, 32);
    }
}

proof fn group_minima(b: Q4KBlock, qs: Seq<i8>, j: int, n: nat)
    requires
        qs.len() == 256,
        0 <= j < 8,
        n <= 32,
    ensures
        element_minima(b, qs, (32 * j + n) as nat) == element_minima(
            b,
            qs,
            (32 * j) as nat,
        ) + b.mins[j] * q8_k::level_sum(qs, 32 * j, n),
    decreases n,
{
    if n > 0 {
        group_minima(b, qs, j, (n - 1) as nat);
        let e = 32 * j + n - 1;
        assert(e / 32 == j);
        quant::distributes(
            b.mins[j] as int,
            q8_k::level_sum(qs, 32 * j, (n - 1) as nat),
            qs[e] as int,
        );
    } else {
        assert(b.mins[j] * 0 == 0);
    }
}

proof fn all_groups_minima(b: Q4KBlock, q4: Seq<u8>, q8: Seq<u8>, d: Bits32, qs: Seq<i8>, j: nat)
    requires
        q4.len() == 144,
        is_block(b, q4, 0),
        q8_k::is_packed(q8, d, qs),
        qs.len() == 256,
        j <= 8,
    ensures
        element_minima(b, qs, 32 * j) == min_weighted(q4, q8, j),
    decreases j,
{
    if j > 0 {
        all_groups_minima(b, q4, q8, d, qs, (j - 1) as nat);
        group_minima(b, qs, j - 1, 32);
        let k = j - 1;
        q8_k::level_sum_splits(qs, 32 * k, 16, 16);
        assert(q8_k::group_sum(q8, 2 * k) == q8_k::level_sum(qs, 16 * (2 * k), 16));
        assert(q8_k::group_sum(q8, 2 * k + 1) == q8_k::level_sum(qs, 16 * (2 * k + 1), 16));
        assert(b.mins[k] == min_k4(scales_of(q4, 0), k));
        vstd::arithmetic::mul::lemma_mul_is_commutative(
            b.mins[k] as int,
            q8_k::level_sum(qs, 32 * k, 32),
        );
    }
}

/// The exact part of a dot product of two blocks is the sum over all elements:
/// unpacking the weights and multiplying element by element gives the same.
pub proof fn dot_sums_the_elements(b: Q4KBlock, q4: Seq<u8>, q8: Seq<u8>, d: Bits32, qs: Seq<i8>)
    requires
        q4.len() == 144,
        is_block(b, q4, 0),
        q8_k::is_packed(q8, d, qs),
        qs.len() == 256,
    ensures
        weighted(q4, q8, 8) == element_products(b, qs, 256),
        min_weighted(q4, q8, 8) == element_minima(b, qs, 256),
{
    all_groups_products(b, q4, q8, d, qs, 8);
    all_groups_minima(b, q4, q8, d, qs, 8);
}

/// Byte `l` of quarter `k` is made up of the levels of elements `l` and `l + 32`
/// of that quarter, the first of them in the low half.
pub proof fn a_byte_holds_two_levels(b: Q4KBlock, s: Seq<u8>, at: int, k: int, l: int)
    requires
        is_block(b, s, at),
        0 <= at,
        at + 144 <= s.len(),
        0 <= k < 4,
        0 <= l < 32,
    ensures
        b.qs@.len() == 256,
        b.qs[64 * k + l] < 16,
        s[at + 16 + 32 * k + l] == b.qs[64 * k + l] + 16 * b.qs[64 * k + 32 + l],
{
    let e = 64 * k + l;
    assert(e / 64 == k && e % 32 == l && e / 32 % 2 == 0);
    assert((e + 32) / 64 == k && (e + 32) % 32 == l && (e + 32) / 32 % 2 == 1);
    assert(b.qs[e] == level(s, at, e));
    assert(b.qs[e + 32] == level(s, at, e + 32));
}

/// A block starts with its two half-precision scales; then twelve bytes hold eight
/// 6-bit scales and eight 6-bit minima. The first four of each fill the low six
/// bits of the first eight bytes; of the others, the low four bits fill the last
/// four bytes, and the high two bits the rest of the first eight.
pub proof fn twelve_bytes_hold_scales_and_minima(b: Q4KBlock, s: Seq<u8>, at: int, j: int)
    requires
        is_block(b, s, at),
        0 <= at,
        at + 144 <= s.len(),
        0 <= j < 4,
    ensures
        b.d == float::widened((s[at] + 256 * s[at + 1]) as u16),
        b.dmin == float::widened((s[at + 2] + 256 * s[at + 3]) as u16),
        b.scales@.len() == 8,
        b.mins@.len() == 8,
        b.scales[j] < 64,
        b.scales[j + 4] < 64,
        b.mins[j] < 64,
        b.mins[j + 4] < 64,
        s[at + 4 + j] == b.scales[j] + 64 * (b.scales[j + 4] as int / 16),
        s[at + 8 + j] == b.mins[j] + 64 * (b.mins[j + 4] as int / 16),
        s[at + 12 + j] == b.scales[j + 4] as int % 16 + 16 * (b.mins[j + 4] as int % 16),
{
    let q = scales_of(s, at);
    assert(q[j] == s[at + 4 + j] && q[j + 4] == s[at + 8 + j] && q[j + 8] == s[at + 12 + j]);
    assert(b.scales[j] == scale_k4(q, j));
    assert(b.scales[j + 4] == scale_k4(q, j + 4));
    assert(b.mins[j] == min_k4(q, j));
    assert(b.mins[j + 4] == min_k4(q, j + 4));
}

/// Each element adds its scale times its level times the level of the activation,
/// and its minimum times the level of the activation. 32 elements share a scale
/// and a minimum.
pub proof fn each_element_adds_its_product(b: Q4KBlock, qs: Seq<i8>, g: int, i: int)
    requires
        0 <= g < 8,
        0 <= i < 32,
    ensures
        element_products(b, qs, 0) == 0,
        element_minima(b, qs, 0) == 0,
        element_products(b, qs, (32 * g + i + 1) as nat) - element_products(
            b,
            qs,
            (32 * g + i) as nat,
        ) == b.scales[g] * (b.qs[32 * g + i] * qs[32 * g + i]),
        element_minima(b, qs, (32 * g + i + 1) as nat) - element_minima(
            b,
            qs,
            (32 * g + i) as nat,
        ) == b.mins[g] * qs[32 * g + i],
{
    assert((32 * g + i) / 32 == g);
}

} // verus!
