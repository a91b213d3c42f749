//! Blocks of 256 elements with 2-bit levels.
//!
//! 84 bytes: half-precision scales `d` and `dmin`, 16 bytes that hold for each
//! group of 16 elements a 4-bit scale (low) and a 4-bit minimum (high), then 64
//! bytes of levels, four to a byte. An element of group `b` with level `q` is
//! `d * scale[b] * q - dmin * min[b]`.

use vstd::prelude::*;

use crate::bits::Bits32;
use crate::float;
use crate::float::f16_to_f32;
use crate::le;
use crate::le::get_u16;
use crate::quant;
use crate::quant::q8_k;
use crate::quant::q8_k::{get_i16, scale_of};
use crate::quant::{as_signed, small_pow2, MinDot};

verus! {

/// Elements in one block.
pub const BLOCK_SIZE: usize = 256;

/// Bytes in one block.
pub const BYTES_PER_BLOCK: usize = 84;

/// An unpacked block: element `e` is
/// `d * scales[e / 16] * qs[e] - dmin * mins[e / 16]`.
pub struct Q2KBlock {
    pub d: Bits32,
    pub dmin: Bits32,
    pub scales: Vec<u8>,
    pub mins: Vec<u8>,
    pub qs: Vec<u8>,
}

/// The 2-bit level in `b` from bit `shift` on.
pub open spec fn two_bits(b: u8, shift: int) -> int {
    b as int / quant::pow2_below_8(shift) % 4
}

/// The scale of group `b` of the block from `at` on.
pub open spec fn scale(s: Seq<u8>, at: int, b: int) -> int {
    s[at + 4 + b] as int % 16
}

/// The minimum of group `b` of the block from `at` on.
pub open spec fn minimum(s: Seq<u8>, at: int, b: int) -> int {
    s[at + 4 + b] as int / 16
}

/// The level of element `e` of the block from `at` on. Each half of the block
/// has 32 bytes; byte `l` of a half holds its elements `l`, `l + 32`, `l + 64`
/// and `l + 96`, lowest bits first.
pub open spec fn level(s: Seq<u8>, at: int, e: int) -> int {
    two_bits(s[at + 20 + 32 * (e / 128) + e % 32], 2 * (e % 128 / 32))
}

/// `b` is the block in the 84 bytes of `s` from `at` on.
pub open spec fn is_block(b: Q2KBlock, s: Seq<u8>, at: int) -> bool {
    &&& b.d == float::widened(le::le16(s, at) as u16)
    &&& b.dmin == float::widened(le::le16(s, at + 2) as u16)
    &&& b.scales@.len() == 16
    &&& b.mins@.len() == 16
    &&& b.qs@.len() == 256
    &&& forall|g: int| 0 <= g < 16 ==> #[trigger] b.scales[g] == scale(s, at, g)
    &&& forall|g: int| 0 <= g < 16 ==> #[trigger] b.mins[g] == minimum(s, at, g)
    &&& forall|e: int| 0 <= e < 256 ==> #[trigger] b.qs[e] == level(s, at, e)
}

/// Unpacks the block that starts at byte `at`.
pub fn block_at(s: &[u8], at: usize) -> (b: Q2KBlock)
    requires
        at + 84 <= s.len(),
    ensures
        is_block(b, s@, at as int),
{
    let d: Bits32 = f16_to_f32(get_u16(s, at));
    let dmin: Bits32 = f16_to_f32(get_u16(s, at + 2));
    let mut scales: Vec<u8> = Vec::new();
    let mut mins: Vec<u8> = Vec::new();
    let mut g: usize = 0;
    while g < 16
        invariant
            g <= 16,
            at + 84 <= s.len(),
            scales.len() == g,
            mins.len() == g,
            forall|k: int| 0 <= k < g ==> #[trigger] scales[k] == scale(s@, at as int, k),
            forall|k: int| 0 <= k < g ==> #[trigger] mins[k] == minimum(s@, at as int, k),
        decreases 16 - g,
    {
        scales.push(s[at + 4 + g] % 16);
        mins.push(s[at + 4 + g] / 16);
        g += 1;
    }
    let mut qs: Vec<u8> = Vec::new();
    let mut e: usize = 0;
    while e < BLOCK_SIZE
        invariant
            e <= 256,
            at + 84 <= s.len(),
            qs.len() == e,
            forall|k: int| 0 <= k < e ==> #[trigger] qs[k] == level(s@, at as int, k),
        decreases 256 - e,
    {
        let p: u8 = small_pow2((2 * (e % 128 / 32)) as u32);
        qs.push(s[at + 20 + 32 * (e / 128) + e % 32] / p % 4);
        e += 1;
    }
    Q2KBlock { d, dmin, scales, mins, qs }
}

/// Unpacks one block.
pub fn dequant_block(block: &[u8; 84]) -> (b: Q2KBlock)
    ensures
        is_block(b, block@, 0),
{
    block_at(block.as_slice(), 0)
}

/// Unpacks a sequence of blocks.
pub fn dequant(bytes: &[u8]) -> (blocks: Vec<Q2KBlock>)
    requires
        bytes@.len() % 84 == 0,
    ensures
        blocks@.len() == bytes@.len() / 84,
        forall|k: int| 0 <= k < blocks.len() ==> is_block(#[trigger] blocks[k], bytes@, k * 84),
{
    let n: usize = bytes.len() / BYTES_PER_BLOCK;
    let mut blocks: Vec<Q2KBlock> = Vec::new();
    let mut k: usize = 0;
    while k < n
        invariant
            k <= n,
            n * 84 == bytes.len(),
            blocks.len() == k,
            forall|j: int| 0 <= j < k ==> is_block(#[trigger] blocks[j], bytes@, j * 84),
        decreases n - k,
    {
        blocks.push(block_at(bytes, k * BYTES_PER_BLOCK));
        k += 1;
    }
    blocks
}

/// The sum of the first `n` products of levels in `q2` and signed bytes in
/// `q8`.
pub open spec fn dot_levels(q2: Seq<u8>, q8: Seq<u8>, shift: int, n: nat) -> int
    decreases n,
{
    if n == 0 {
        0
    } else {
        dot_levels(q2, q8, shift, (n - 1) as nat) + quant::signed8(q8[n - 1]) * two_bits(
            q2[n - 1],
            shift,
        )
    }
}

/// Sixteen levels against sixteen signed bytes.
pub fn dot_q2_16(q2: &[u8], q8: &[u8], shift: u32) -> (sum: i32)
    requires
        q2@.len() == 16,
        q8@.len() == 16,
        shift < 8,
    ensures
        sum == dot_levels(q2@, q8@, shift as int, 16),
        -6144 <= sum <= 6144,
{
    let p: u8 = small_pow2(shift);
    let mut sum: i32 = 0;
    let mut i: usize = 0;
    while i < 16
        invariant
            i <= 16,
            q2@.len() == 16,
            q8@.len() == 16,
            shift < 8,
            p == quant::pow2_below_8(shift as int),
            sum == dot_levels(q2@, q8@, shift as int, i as nat),
            -384 * i <= sum <= 384 * i,
        decreases 16 - i,
    {
        let q: i32 = (q2[i] / p % 4) as i32;
        let a: i32 = as_signed(q8[i]) as i32;
        assert(-384 <= a * q <= 384) by (nonlinear_arith)
            requires
                -128 <= a <= 127,
                0 <= q <= 3,
        ;
        assert(q == two_bits(q2[i as int], shift as int));
        sum = sum + a * q;
        i += 1;
    }
    sum
}

/// The sixteen bytes of levels of group `b`.
pub open spec fn group_bytes(q2: Seq<u8>, b: int) -> Seq<u8> {
    q2.subrange(20 + 32 * (b / 8) + 16 * (b % 2), 36 + 32 * (b / 8) + 16 * (b % 2))
}

/// The first `n` groups' scaled sums of levels against activation levels.
pub open spec fn weighted(q2: Seq<u8>, q8: Seq<u8>, n: nat) -> int
    decreases n,
{
    if n == 0 {
        0
    } else {
        let b = n - 1;
        weighted(q2, q8, b as nat) + scale(q2, 0, b) * dot_levels(
            group_bytes(q2, b),
            q8.subrange(4 + 16 * b, 20 + 16 * b),
            2 * (b % 8 / 2),
            16,
        )
    }
}

/// The first `n` groups' minima times their activation sums.
pub open spec fn min_weighted(q2: Seq<u8>, q8: Seq<u8>, n: nat) -> int
    decreases n,
{
    if n == 0 {
        0
    } else {
        min_weighted(q2, q8, (n - 1) as nat) + q8_k::group_sum(q8, n - 1) * minimum(q2, 0, n - 1)
    }
}

/// The dot product of a weight block with an activation block.
pub fn dot_q2k_q8k_block(q2_block: &[u8; 84], q8_block: &[u8]) -> (r: MinDot)
    requires
        q8_block@.len() == 292,
    ensures
        r.act_d == le::le32(q8_block@, 0),
        r.d == float::widened(le::le16(q2_block@, 0) as u16),
        r.dmin == float::widened(le::le16(q2_block@, 2) as u16),
        r.isum == weighted(q2_block@, q8_block@, 16),
        r.summs == min_weighted(q2_block@, q8_block@, 16),
{
    let q2: &[u8] = q2_block.as_slice();
    let d: Bits32 = f16_to_f32(get_u16(q2, 0));
    let dmin: Bits32 = f16_to_f32(get_u16(q2, 2));
    let mut summs: i32 = 0;
    let mut isum: i32 = 0;
    let mut b: usize = 0;
    while b < 16
        invariant
            b <= 16,
            q2@ == q2_block@,
            q2@.len() == 84,
            q8_block@.len() == 292,
            summs == min_weighted(q2@, q8_block@, b as nat),
            isum == weighted(q2@, q8_block@, b as nat),
            -491520 * b <= summs <= 491520 * b,
            -92160 * b <= isum <= 92160 * b,
        decreases 16 - b,
    {
        let bsum: i32 = get_i16(q8_block, 260 + 2 * b) as i32;
        let mn: i32 = (q2[4 + b] / 16) as i32;
        assert(-491520 <= bsum * mn <= 491520) by (nonlinear_arith)
            requires
                -32768 <= bsum <= 32767,
                0 <= mn <= 15,
        ;
        summs = summs + bsum * mn;
        let off: usize = 20 + 32 * (b / 8) + 16 * (b % 2);
        let sc: i32 = (q2[4 + b] % 16) as i32;
        let dot: i32 = dot_q2_16(
            vstd::slice::slice_subrange(q2, off, off + 16),
            vstd::slice::slice_subrange(q8_block, 4 + 16 * b, 20 + 16 * b),
            (2 * (b % 8 / 2)) as u32,
        );
        assert(-92160 <= sc * dot <= 92160) by (nonlinear_arith)
            requires
                0 <= sc <= 15,
                -6144 <= dot <= 6144,
        ;
        isum = isum + sc * dot;
        b += 1;
    }
    MinDot { act_d: scale_of(q8_block), d, dmin, isum, summs }
}

/// Group `b` covers elements `16 * b` to `16 * b + 15`: the bytes and the shift
/// that the dot product uses for it hold the levels of these elements.
pub proof fn groups_cover_elements(q2: Seq<u8>, b: int, i: int)
    requires
        q2.len() == 84,
        0 <= b < 16,
        0 <= i < 16,
    ensures
        two_bits(group_bytes(q2, b)[i], 2 * (b % 8 / 2)) == level(q2, 0, 16 * b + i),
{
    let e = 16 * b + i;
    assert(e / 128 == b / 8);
    assert(e % 32 == 16 * (b % 2) + i);
    assert(e % 128 / 32 == b % 8 / 2);
}

/// The first `n` elements of an unpacked block, each its scale times its level,
/// times the levels of an activation.
pub open spec fn element_products(b: Q2KBlock, qs: Seq<i8>, n: nat) -> int
    decreases n,
{
    if n == 0 {
        0
    } else {
        element_products(b, qs, (n - 1) as nat) + b.scales[(n - 1) / 16] * (b.qs[n - 1] * qs[n - 1])
    }
}

/// The minima of the first `n` elements of an unpacked block times the levels
/// of an activation.
pub open spec fn element_minima(b: Q2KBlock, qs: Seq<i8>, n: nat) -> int
    decreases n,
{
    if n == 0 {
        0
    } else {
        element_minima(b, qs, (n - 1) as nat) + b.mins[(n - 1) / 16] * qs[n - 1]
    }
}

proof fn group_products(b: Q2KBlock, q2: Seq<u8>, q8: Seq<u8>, d: Bits32, qs: Seq<i8>, j: int, n: nat)
    requires
        q2.len() == 84,
        is_block(b, q2, 0),
        q8_k::is_packed(q8, d, qs),
        qs.len() == 256,
        0 <= j < 16,
        n <= 16,
    ensures
        element_products(b, qs, (16 * j + n) as nat) == element_products(
            b,
            qs,
            (16 * j) as nat,
        ) + b.scales[j] * dot_levels(
            group_bytes(q2, j),
            q8.subrange(4 + 16 * j, 20 + 16 * j),
            2 * (j % 8 / 2),
            n,
        ),
    decreases n,
{
    if n > 0 {
        group_products(b, q2, q8, d, qs, j, (n - 1) as nat);
        let e = 16 * j + n - 1;
        assert(e / 16 == j);
        assert(b.qs[e] == level(q2, 0, e));
        assert(q8_k::level(q8, e) == qs[e]);
        groups_cover_elements(q2, j, n - 1);
        assert(q8.subrange(4 + 16 * j, 20 + 16 * j)[n - 1] == q8[4 + e]);
        assert(q8_k::level(q8, e) * level(q2, 0, e) == level(q2, 0, e) * q8_k::level(q8, e)) by (nonlinear_arith);
        quant::distributes(
            b.scales[j] as int,
            dot_levels(
            group_bytes(q2, j),
            q8.subrange(4 + 16 * j, 20 + 16 * j),
            2 * (j % 8 / 2),
            (n - 1) as nat,
        ),
            b.qs[e] * qs[e],
        );
    } else {
        assert(b.scales[j] * 0 == 0);
    }
}

proof fn all_groups_products(b: Q2KBlock, q2: Seq<u8>, q8: Seq<u8>, d: Bits32, qs: Seq<i8>, j: nat)
    requires
        q2.len() == 84,
        is_block(b, q2, 0),
        q8_k::is_packed(q8, d, qs),
        qs.len() == 256,
        j <= 16,
    ensures
        element_products(b, qs, 16 * j) == weighted(q2, q8, j),
    decreases j,
{
    if j > 0 {
        all_groups_products(b, q2, q8, d, qs, (j - 1) as nat);
        group_products(b, q2, q8, d, qs, j - 1, 16);
    }
}

proof fn group_minima(b: Q2KBlock, qs: Seq<i8>, j: int, n: nat)
    requires
        qs.len() == 256,
        0 <= j < 16,
        n <= 16,
    ensures
        element_minima(b, qs, (16 * j + n) as nat) == element_minima(
            b,
            qs,
            (16 * j) as nat,
        ) + b.mins[j] * q8_k::level_sum(qs, 16 * j, n),
    decreases n,
{
    if n > 0 {
        group_minima(b, qs, j, (n - 1) as nat);
        let e = 16 * j + n - 1;
        assert(e / 16 == j);
        quant::distributes(
            b.mins[j] as int,
            q8_k::level_sum(qs, 16 * j, (n - 1) as nat),
            qs[e] as int,
        );
    } else {
        assert(b.mins[j] * 0 == 0);
    }
}

proof fn all_groups_minima(b: Q2KBlock, q2: Seq<u8>, q8: Seq<u8>, d: Bits32, qs: Seq<i8>, j: nat)
    requires
        q2.len() == 84,
        is_block(b, q2, 0),
        q8_k::is_packed(q8, d, qs),
        qs.len() == 256,
        j <= 16,
    ensures
        element_minima(b, qs, 16 * j) == min_weighted(q2, q8, j),
    decreases j,
{
    if j > 0 {
        all_groups_minima(b, q2, q8, d, qs, (j - 1) as nat);
        group_minima(b, qs, j - 1, 16);
        let k = j - 1;
        assert(q8_k::group_sum(q8, k) == q8_k::level_sum(qs, 16 * k, 16));
        assert(b.mins[k] == minimum(q2, 0, k));
        vstd::arithmetic::mul::lemma_mul_is_commutative(
            b.mins[k] as int,
            q8_k::level_sum(qs, 16 * k, 16),
        );
    }
}

/// The exact part of a dot product of two blocks is the sum over all elements:
/// unpacking the weights and multiplying element by element gives the same.
pub proof fn dot_sums_the_elements(b: Q2KBlock, q2: Seq<u8>, q8: Seq<u8>, d: Bits32, qs: Seq<i8>)
    requires
        q2.len() == 84,
        is_block(b, q2, 0),
        q8_k::is_packed(q8, d, qs),
        qs.len() == 256,
    ensures
        weighted(q2, q8, 16) == element_products(b, qs, 256),
        min_weighted(q2, q8, 16) == element_minima(b, qs, 256),
{
    all_groups_products(b, q2, q8, d, qs, 16);
    all_groups_minima(b, q2, q8, d, qs, 16);
}

/// Byte `l` of half `h` is made up of the levels of elements `l`, `l + 32`,
/// `l + 64` and `l + 96` of that half, the first of them in the lowest bits.
pub proof fn a_byte_holds_four_levels(b: Q2KBlock, s: Seq<u8>, at: int, h: int, l: int)
    requires
        is_block(b, s, at),
        0 <= at,
        at + 84 <= s.len(),
        0 <= h < 2,
        0 <= l < 32,
    ensures
        b.qs@.len() == 256,
        b.qs[128 * h + l] < 4,
        b.qs[128 * h + 32 + l] < 4,
        b.qs[128 * h + 64 + l] < 4,
        b.qs[128 * h + 96 + l] < 4,
        s[at + 20 + 32 * h + l] == b.qs[128 * h + l] + 4 * b.qs[128 * h + 32 + l] + 16 * b.qs[128
            * h + 64 + l] + 64 * b.qs[128 * h + 96 + l],
{
    let e = 128 * h + l;
    assert(e / 128 == h && e % 32 == l && e % 128 / 32 == 0);
    assert((e + 32) / 128 == h && (e + 32) % 32 == l && (e + 32) % 128 / 32 == 1);
    assert((e + 64) / 128 == h && (e + 64) % 32 == l && (e + 64) % 128 / 32 == 2);
    assert((e + 96) / 128 == h && (e + 96) % 32 == l && (e + 96) % 128 / 32 == 3);
    assert(b.qs[e] == level(s, at, e));
    assert(b.qs[e + 32] == level(s, at, e + 32));
    assert(b.qs[e + 64] == level(s, at, e + 64));
    assert(b.qs[e + 96] == level(s, at, e + 96));
}

/// A block starts with its two half-precision scales; then comes a byte for each
/// group of 16 elements, the scale of the group in its low half and the minimum
/// in its high half.
pub proof fn scales_come_before_the_levels(b: Q2KBlock, s: Seq<u8>, at: int, g: int)
    requires
        is_block(b, s, at),
        0 <= at,
        at + 84 <= s.len(),
        0 <= g < 16,
    ensures
        b.d == float::widened((s[at] + 256 * s[at + 1]) as u16),
        b.dmin == float::widened((s[at + 2] + 256 * s[at + 3]) as u16),
        b.scales@.len() == 16,
        b.mins@.len() == 16,
        b.scales[g] < 16,
        s[at + 4 + g] == b.scales[g] + 16 * b.mins[g],
{
    assert(b.scales[g] == scale(s, at, g));
    assert(b.mins[g] == minimum(s, at, g));
}

/// One more byte adds, for each of its four levels, that level times the signed
/// byte it stands against; the levels are taken lowest bits first.
pub proof fn each_shift_takes_its_level(
    q2: Seq<u8>,
    q8: Seq<u8>,
    n: nat,
    x: int,
    l0: int,
    l1: int,
    l2: int,
    l3: int,
)
    requires
        n < q2.len(),
        n < q8.len(),
        0 <= l0 < 4,
        0 <= l1 < 4,
        0 <= l2 < 4,
        0 <= l3 < 4,
        q2[n as int] == l0 + 4 * l1 + 16 * l2 + 64 * l3,
        -128 <= x < 128,
        q8[n as int] == x || q8[n as int] == x + 256,
    ensures
        dot_levels(q2, q8, 0, 0) == 0,
        dot_levels(q2, q8, 2, 0) == 0,
        dot_levels(q2, q8, 4, 0) == 0,
        dot_levels(q2, q8, 6, 0) == 0,
        dot_levels(q2, q8, 0, n + 1) == dot_levels(q2, q8, 0, n) + x * l0,
        dot_levels(q2, q8, 2, n + 1) == dot_levels(q2, q8, 2, n) + x * l1,
        dot_levels(q2, q8, 4, n + 1) == dot_levels(q2, q8, 4, n) + x * l2,
        dot_levels(q2, q8, 6, n + 1) == dot_levels(q2, q8, 6, n) + x * l3,
{
    let b = q2[n as int];
    assert(two_bits(b, 0) == l0);
    assert(two_bits(b, 2) == l1);
    assert(two_bits(b, 4) == l2);
    assert(two_bits(b, 6) == l3);
    assert(quant::signed8(q8[n as int]) == x);
}

/// Each element adds its scale times its level times the level of the activation,
/// and its minimum times the level of the activation. Sixteen elements share a
/// scale and a minimum.
pub proof fn each_element_adds_its_product(b: Q2KBlock, qs: Seq<i8>, g: int, i: int)
    requires
        0 <= g < 16,
        0 <= i < 16,
    ensures
        element_products(b, qs, 0) == 0,
        element_minima(b, qs, 0) == 0,
        element_products(b, qs, (16 * g + i + 1) as nat) - element_products(
            b,
            qs,
            (16 * g + i) as nat,
        ) == b.scales[g] * (b.qs[16 * g + i] * qs[16 * g + i]),
        element_minima(b, qs, (16 * g + i + 1) as nat) - element_minima(
            b,
            qs,
            (16 * g + i) as nat,
        ) == b.mins[g] * qs[16 * g + i],
{
    assert((16 * g + i) / 16 == g);
}

} // verus!
