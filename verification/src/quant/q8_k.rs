//! Activation blocks of 256 elements.
//!
//! 292 bytes: a single-precision scale `d`, 256 signed bytes `qs`, then for
//! every 16 of these their sum as a signed 16-bit number.

use vstd::prelude::*;

use crate::bits::{Bits32, ZERO};
use crate::float;
use crate::float::greater;
use crate::le;
use crate::le::{get_u16, get_u32, put_u32};
use crate::quant;
use crate::quant::{as_byte, as_signed};

verus! {

/// Elements in one block.
pub const BLOCK_SIZE: usize = 256;

/// Bytes in one block.
pub const BYTES_PER_BLOCK: usize = 292;

/// The absolute value of a single-precision number.
pub open spec fn abs_of(b: Bits32) -> Bits32 {
    b % 0x8000_0000
}

/// `m` is the first of the numbers with the greatest absolute value, or zero
/// where no number differs from zero. NaNs do not count.
pub open spec fn is_signed_max(x: Seq<Bits32>, m: Bits32) -> bool {
    if forall|i: int| 0 <= i < x.len() ==> !float::gt(abs_of(#[trigger] x[i]), ZERO) {
        m == ZERO
    } else {
        exists|k: int|
            {
                &&& 0 <= k < x.len()
                &&& m == #[trigger] x[k]
                &&& float::gt(abs_of(m), ZERO)
                &&& forall|i: int| 0 <= i < x.len() ==> !float::gt(abs_of(#[trigger] x[i]), abs_of(m))
                &&& forall|i: int|
                    0 <= i < k ==> float::is_nan(abs_of(#[trigger] x[i])) || float::gt(
                        abs_of(m),
                        abs_of(x[i]),
                    )
            }
    }
}

/// The number with the greatest absolute value, by which a row is scaled.
pub fn signed_max(x: &[Bits32]) -> (m: Bits32)
    ensures
        is_signed_max(x@, m),
{
    let mut amax: Bits32 = ZERO;
    let mut m: Bits32 = ZERO;
    let ghost mut at: int = -1;
    let mut i: usize = 0;
    while i < x.len()
        invariant
            i <= x.len(),
            amax == abs_of(m),
            !float::is_nan(amax),
            amax < 0x8000_0000,
            at == -1 ==> m == ZERO && forall|j: int|
                0 <= j < i ==> !float::gt(abs_of(#[trigger] x[j]), ZERO),
            at != -1 ==> 0 <= at < i && m == x[at] && float::gt(amax, ZERO) && (forall|j: int|
                0 <= j < i ==> !float::gt(abs_of(#[trigger] x[j]), amax)) && (forall|j: int|
                0 <= j < at ==> float::is_nan(abs_of(#[trigger] x[j])) || float::gt(
                    amax,
                    abs_of(x[j]),
                )),
        decreases x.len() - i,
    {
        let v: Bits32 = x[i];
        let av: Bits32 = v % 0x8000_0000;
        if greater(av, amax) {
            amax = av;
            m = v;
            proof {
                at = i as int;
            }
        }
        i += 1;
    }
    proof {
        if at != -1 {
            assert(float::gt(abs_of(x[at]), ZERO));
        }
    }
    m
}

/// A rounded level held within a signed byte.
pub open spec fn clamped(q: int) -> int {
    if q < -128 {
        -128
    } else if q > 127 {
        127
    } else {
        q
    }
}

/// Holds a rounded level within a signed byte.
pub fn clamp_level(q: i32) -> (x: i8)
    ensures
        x == clamped(q as int),
{
    if q < -128 {
        -128
    } else if q > 127 {
        127
    } else {
        q as i8
    }
}

/// The sum of the levels from `from` on, `n` of them.
pub open spec fn level_sum(qs: Seq<i8>, from: int, n: nat) -> int
    decreases n,
{
    if n == 0 {
        0
    } else {
        level_sum(qs, from, (n - 1) as nat) + qs[from + n - 1]
    }
}

/// A signed 16-bit number in the two bytes of `s` from `i` on.
pub open spec fn sle16(s: Seq<u8>, i: int) -> int {
    let x = le::le16(s, i);
    if x < 0x8000 {
        x
    } else {
        x - 0x1_0000
    }
}

/// Level `i` of a block.
pub open spec fn level(block: Seq<u8>, i: int) -> int {
    quant::signed8(block[4 + i])
}

/// Group sum `j` of a block.
pub open spec fn group_sum(block: Seq<u8>, j: int) -> int {
    sle16(block, 260 + 2 * j)
}

/// Reads a signed 16-bit number.
pub fn get_i16(s: &[u8], i: usize) -> (x: i16)
    requires
        i + 2 <= s.len(),
    ensures
        x == sle16(s@, i as int),
{
    let u: u16 = get_u16(s, i);
    if u < 0x8000 {
        u as i16
    } else {
        (u as i32 - 0x1_0000) as i16
    }
}

/// `block` holds the scale `d`, the levels `qs` and the sums of every 16 of
/// them.
pub open spec fn is_packed(block: Seq<u8>, d: Bits32, qs: Seq<i8>) -> bool {
    &&& block.len() == 292
    &&& le::le32(block, 0) == d
    &&& forall|i: int| 0 <= i < 256 ==> level(block, i) == #[trigger] qs[i]
    &&& forall|j: int|
        0 <= j < 16 ==> #[trigger] group_sum(block, j) == level_sum(qs, 16 * j, 16)
}

/// Packs a scale and 256 levels into a block.
pub fn pack_block(d: Bits32, qs: &[i8]) -> (block: Vec<u8>)
    requires
        qs@.len() == 256,
    ensures
        is_packed(block@, d, qs@),
{
    let mut block: Vec<u8> = Vec::new();
    put_u32(&mut block, d);
    proof {
        le::le32_reads_bytes32(d);
        assert(block@ =~= le::bytes32(d));
    }
    let mut i: usize = 0;
    while i < 256
        invariant
            i <= 256,
            qs@.len() == 256,
            block.len() == 4 + i,
            le::le32(block@, 0) == d,
            forall|j: int| 0 <= j < i ==> level(block@, j) == #[trigger] qs[j],
        decreases 256 - i,
    {
        let ghost before = block@;
        block.push(as_byte(qs[i]));
        assert(forall|j: int| 0 <= j < before.len() ==> block@[j] == before[j]);
        i += 1;
    }
    let mut j: usize = 0;
    while j < 16
        invariant
            j <= 16,
            qs@.len() == 256,
            block.len() == 260 + 2 * j,
            le::le32(block@, 0) == d,
            forall|k: int| 0 <= k < 256 ==> level(block@, k) == #[trigger] qs[k],
            forall|k: int|
                0 <= k < j ==> #[trigger] group_sum(block@, k) == level_sum(qs@, 16 * k, 16),
        decreases 16 - j,
    {
        let mut sum: i16 = 0;
        let mut k: usize = 0;
        while k < 16
            invariant
                k <= 16,
                j < 16,
                qs@.len() == 256,
                sum == level_sum(qs@, 16 * j, k as nat),
                -128 * k <= sum <= 127 * k,
            decreases 16 - k,
        {
            sum = sum + qs[16 * j + k] as i16;
            k += 1;
        }
        let u: u16 = if sum >= 0 {
            sum as u16
        } else {
            (sum as i32 + 0x1_0000) as u16
        };
        let ghost before = block@;
        block.push((u % 0x100) as u8);
        block.push((u / 0x100) as u8);
        assert(forall|k: int| 0 <= k < before.len() ==> block@[k] == before[k]);
        assert(group_sum(block@, j as int) == sum);
        assert forall|k: int| 0 <= k < j implies #[trigger] group_sum(block@, k) == level_sum(
            qs@,
            16 * k,
            16,
        ) by {
            assert(group_sum(before, k) == level_sum(qs@, 16 * k, 16));
        }
        j += 1;
    }
    block
}

/// The block of a row without any number other than zero.
pub fn zero_block() -> (block: Vec<u8>)
    ensures
        block@.len() == 292,
        forall|i: int| 0 <= i < 292 ==> block[i] == 0,
{
    vec![0u8; BYTES_PER_BLOCK]
}

/// The bit pattern of a block's scale.
pub fn scale_of(block: &[u8]) -> (d: Bits32)
    requires
        block@.len() >= 4,
    ensures
        d == le::le32(block@, 0),
{
    get_u32(block, 0)
}

/// The sum of consecutive levels falls into the sums of two parts.
pub proof fn level_sum_splits(qs: Seq<i8>, from: int, a: nat, b: nat)
    ensures
        level_sum(qs, from, a + b) == level_sum(qs, from, a) + level_sum(qs, from + a, b),
    decreases b,
{
    if b > 0 {
        level_sum_splits(qs, from, a, (b - 1) as nat);
    }
}

/// A packed block is the scale, lowest byte first, a signed byte for each level,
/// and the sum of every sixteen levels as a signed 16-bit number.
pub proof fn a_packed_block_byte_by_byte(block: Seq<u8>, d: Bits32, qs: Seq<i8>, i: int, j: int)
    requires
        is_packed(block, d, qs),
        qs.len() == 256,
        0 <= i < 256,
        0 <= j < 16,
    ensures
        block.len() == 292,
        d == block[0] + 256 * block[1] + 65536 * block[2] + 16777216 * block[3],
        block[4 + i] == if qs[i] < 0 {
            qs[i] + 256
        } else {
            qs[i] as int
        },
        ({
            let sum = qs[16 * j] + qs[16 * j + 1] + qs[16 * j + 2] + qs[16 * j + 3] + qs[16 * j + 4]
                + qs[16 * j + 5] + qs[16 * j + 6] + qs[16 * j + 7] + qs[16 * j + 8] + qs[16 * j + 9]
                + qs[16 * j + 10] + qs[16 * j + 11] + qs[16 * j + 12] + qs[16 * j + 13] + qs[16 * j
                + 14] + qs[16 * j + 15];
            block[260 + 2 * j] + 256 * block[261 + 2 * j] == if sum < 0 {
                sum + 65536
            } else {
                sum
            }
        }),
{
    assert(level(block, i) == qs[i]);
    assert(group_sum(block, j) == level_sum(qs, 16 * j, 16));
    reveal_with_fuel(level_sum, 17);
}

/// Clamping keeps a level that a signed byte can hold, gives the nearest one of
/// those otherwise, and keeps the order.
pub proof fn clamping_gives_the_nearest(q: int, p: int, x: int)
    requires
        -128 <= x <= 127,
    ensures
        -128 <= clamped(q) <= 127,
        -128 <= q <= 127 ==> clamped(q) == q,
        q <= p ==> clamped(q) <= clamped(p),
        q >= clamped(q) ==> q - clamped(q) <= if q >= x {
            q - x
        } else {
            x - q
        },
        q < clamped(q) ==> clamped(q) - q <= if q >= x {
            q - x
        } else {
            x - q
        },
{
}

/// The absolute value drops the sign and nothing else.
pub proof fn the_absolute_value_drops_the_sign(b: Bits32)
    ensures
        b < 0x8000_0000 ==> abs_of(b) == b,
        b >= 0x8000_0000 ==> abs_of(b) == b - 0x8000_0000,
{
}

/// A row without numbers has the maximum zero. One more number takes the place of
/// the maximum exactly where its absolute value is greater.
pub proof fn a_greater_number_is_the_new_maximum(
    x: Seq<Bits32>,
    v: Bits32,
    before: Bits32,
    after: Bits32,
)
    requires
        is_signed_max(x, before),
        is_signed_max(x.push(v), after),
    ensures
        is_signed_max(Seq::empty(), ZERO),
        after == if float::gt(abs_of(v), abs_of(before)) {
            v
        } else {
            before
        },
{
    let y = x.push(v);
    assert(y[x.len() as int] == v);
    assert(forall|i: int| 0 <= i < x.len() ==> #[trigger] y[i] == x[i]);
    assert(forall|i: int| 0 <= i < x.len() ==> #[trigger] x[i] == y[i]);
    let flat_x = forall|i: int| 0 <= i < x.len() ==> !float::gt(abs_of(#[trigger] x[i]), ZERO);
    let flat_y = forall|i: int| 0 <= i < y.len() ==> !float::gt(abs_of(#[trigger] y[i]), ZERO);
    if flat_y {
        assert(flat_x);
    } else {
        let k = choose|k: int|
            {
                &&& 0 <= k < y.len()
                &&& after == #[trigger] y[k]
                &&& float::gt(abs_of(after), ZERO)
                &&& forall|i: int|
                    0 <= i < y.len() ==> !float::gt(abs_of(#[trigger] y[i]), abs_of(after))
                &&& forall|i: int|
                    0 <= i < k ==> float::is_nan(abs_of(#[trigger] y[i])) || float::gt(
                        abs_of(after),
                        abs_of(y[i]),
                    )
            };
        if flat_x {
            if k < x.len() {
                assert(!float::gt(abs_of(x[k]), ZERO));
            }
        } else {
            let h = choose|h: int|
                {
                    &&& 0 <= h < x.len()
                    &&& before == #[trigger] x[h]
                    &&& float::gt(abs_of(before), ZERO)
                    &&& forall|i: int|
                        0 <= i < x.len() ==> !float::gt(abs_of(#[trigger] x[i]), abs_of(before))
                    &&& forall|i: int|
                        0 <= i < h ==> float::is_nan(abs_of(#[trigger] x[i])) || float::gt(
                            abs_of(before),
                            abs_of(x[i]),
                        )
                };
            assert(y[h] == before);
            assert(!float::gt(abs_of(y[h]), abs_of(after)));
            assert(!float::gt(abs_of(v), abs_of(after)));
            if k < x.len() {
                assert(!float::gt(abs_of(x[k]), abs_of(before)));
                if k < h {
                    assert(float::is_nan(abs_of(x[k])) || float::gt(
                        abs_of(before),
                        abs_of(x[k]),
                    ));
                }
                if h < k {
                    assert(float::is_nan(abs_of(y[h])) || float::gt(
                        abs_of(after),
                        abs_of(y[h]),
                    ));
                }
            } else {
                assert(float::is_nan(abs_of(y[h])) || float::gt(abs_of(after), abs_of(y[h])));
            }
        }
    }
}

} // verus!
