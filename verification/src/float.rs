//! Floating-point numbers by their bit patterns: their order, widening from
//! half precision, and narrowing from double precision.

use vstd::arithmetic::mul::*;
use vstd::arithmetic::power2::*;
use vstd::bits::*;
use vstd::prelude::*;

use crate::bits::Bits32;

verus! {

/// The bit pattern of negative infinity.
pub const NEG_INFINITY: Bits32 = 0xFF80_0000;

// ---------------------------------------------------------------------------
// Order
// ---------------------------------------------------------------------------

/// The pattern is not a number.
pub open spec fn is_nan(b: Bits32) -> bool {
    b % 0x8000_0000 > 0x7F80_0000
}

/// Where a number stands: patterns with a clear sign bit by their value,
/// those with a set one mirrored at zero, so that both zeros stand together.
pub open spec fn rank(b: Bits32) -> int {
    if b < 0x8000_0000 {
        b as int
    } else {
        0x8000_0000 - b
    }
}

/// `a > b`, which no NaN is part of.
pub open spec fn gt(a: Bits32, b: Bits32) -> bool {
    !is_nan(a) && !is_nan(b) && rank(a) > rank(b)
}

/// `a > b`, as single-precision numbers compare.
pub fn greater(a: Bits32, b: Bits32) -> (r: bool)
    ensures
        r == gt(a, b),
{
    if a % 0x8000_0000 > 0x7F80_0000 || b % 0x8000_0000 > 0x7F80_0000 {
        return false;
    }
    let x: i64 = if a < 0x8000_0000 {
        a as i64
    } else {
        0x8000_0000 - a as i64
    };
    let y: i64 = if b < 0x8000_0000 {
        b as i64
    } else {
        0x8000_0000 - b as i64
    };
    x > y
}

/// `i` is the first of the greatest entries that are not in `taken`; NaNs and
/// negative infinity do not count.
pub open spec fn is_best(values: Seq<Bits32>, taken: Seq<usize>, i: int) -> bool {
    &&& 0 <= i < values.len()
    &&& !taken.contains(i as usize)
    &&& gt(values[i], NEG_INFINITY)
    &&& forall|j: int|
        0 <= j < values.len() && !taken.contains(j as usize) ==> !gt(#[trigger] values[j], values[i])
    &&& forall|j: int|
        0 <= j < i && !taken.contains(j as usize) ==> is_nan(#[trigger] values[j]) || gt(
            values[i],
            values[j],
        )
}

/// No entry outside `taken` counts.
pub open spec fn has_no_best(values: Seq<Bits32>, taken: Seq<usize>) -> bool {
    forall|j: int|
        0 <= j < values.len() && !taken.contains(j as usize) ==> !gt(
            #[trigger] values[j],
            NEG_INFINITY,
        )
}

/// There is at most one best entry.
pub proof fn best_is_unique(values: Seq<Bits32>, taken: Seq<usize>, i: int, j: int)
    requires
        is_best(values, taken, i),
        is_best(values, taken, j),
    ensures
        i == j,
{
    if i < j {
        assert(is_nan(values[i]) || gt(values[j], values[i]));
    } else if j < i {
        assert(is_nan(values[j]) || gt(values[i], values[j]));
    }
}

/// Whether `i` is among the first `n` entries of `s`.
fn among(s: &[usize], n: usize, i: usize) -> (r: bool)
    requires
        n <= s.len(),
    ensures
        r == s@.take(n as int).contains(i),
{
    let mut k: usize = 0;
    while k < n
        invariant
            k <= n <= s.len(),
            !s@.take(k as int).contains(i),
        decreases n - k,
    {
        if s[k] == i {
            assert(s@.take(n as int)[k as int] == i);
            return true;
        }
        proof {
            let now = s@.take(k + 1);
            assert forall|m: int| 0 <= m < k + 1 implies now[m] != i by {
                if m < k {
                    assert(s@.take(k as int)[m] != i);
                }
            }
        }
        k += 1;
    }
    false
}

/// The best entry outside the first `n` indices of `taken`, if there is one.
pub fn best_outside(values: &[Bits32], taken: &[usize], n: usize) -> (r: Option<usize>)
    requires
        n <= taken.len(),
    ensures
        match r {
            Some(i) => is_best(values@, taken@.take(n as int), i as int),
            None => has_no_best(values@, taken@.take(n as int)),
        },
{
    let mut best: Option<usize> = None;
    let mut best_v: Bits32 = NEG_INFINITY;
    let mut i: usize = 0;
    let ghost t = taken@.take(n as int);
    while i < values.len()
        invariant
            i <= values.len(),
            n <= taken.len(),
            t == taken@.take(n as int),
            match best {
                Some(k) => k < i && values[k as int] == best_v && is_best(
                    values@.take(i as int),
                    t,
                    k as int,
                ),
                None => best_v == NEG_INFINITY && has_no_best(values@.take(i as int), t),
            },
        decreases values.len() - i,
    {
        let ghost head = values@.take(i as int);
        let ghost next = values@.take(i + 1);
        assert(forall|j: int| 0 <= j < i ==> next[j] == #[trigger] head[j]);
        if !among(taken, n, i) && greater(values[i], best_v) {
            best_v = values[i];
            best = Some(i);
            assert forall|j: int| 0 <= j < next.len() && !t.contains(j as usize) implies !gt(
                #[trigger] next[j],
                next[i as int],
            ) && (j < i ==> is_nan(next[j]) || gt(next[i as int], next[j])) by {
                if j < i {
                    assert(next[j] == head[j]);
                }
            }
        } else {
            assert forall|j: int| 0 <= j < next.len() && !t.contains(j as usize) implies !gt(
                #[trigger] next[j],
                best_v,
            ) by {
                if j < i {
                    assert(next[j] == head[j]);
                }
            }
        }
        i += 1;
    }
    assert(values@.take(values.len() as int) =~= values@);
    best
}

// ---------------------------------------------------------------------------
// The greatest entries
// ---------------------------------------------------------------------------

/// `i` is the lowest index outside `taken`.
pub open spec fn is_lowest_free(taken: Seq<usize>, i: int) -> bool {
    &&& 0 <= i <= usize::MAX
    &&& !taken.contains(i as usize)
    &&& forall|j: usize| j < i ==> #[trigger] taken.contains(j)
}

/// What is chosen next: the best entry outside `taken`, or the lowest index
/// outside it where no entry counts.
pub open spec fn is_next(values: Seq<Bits32>, taken: Seq<usize>, i: int) -> bool {
    if has_no_best(values, taken) {
        is_lowest_free(taken, i)
    } else {
        is_best(values, taken, i)
    }
}

/// `out` is chosen from `values` step by step.
pub open spec fn is_topk(values: Seq<Bits32>, out: Seq<usize>) -> bool {
    forall|s: int| 0 <= s < out.len() ==> is_next(values, #[trigger] out.take(s), out[s] as int)
}

proof fn some_index_is_free(s: Seq<usize>, n: nat)
    requires
        s.len() < n,
        n <= usize::MAX + 1,
    ensures
        exists|i: usize| i < n && !#[trigger] s.contains(i),
    decreases n,
{
    let last = (n - 1) as usize;
    if !s.contains(last) {
        assert(last < n);
    } else {
        let p = choose|p: int| 0 <= p < s.len() && s[p] == last;
        let rest = s.remove(p);
        some_index_is_free(rest, (n - 1) as nat);
        let i = choose|i: usize| i < n - 1 && !#[trigger] rest.contains(i);
        assert(!s.contains(i)) by {
            if s.contains(i) {
                let q = choose|q: int| 0 <= q < s.len() && s[q] == i;
                assert(q != p);
                if q < p {
                    assert(rest[q] == i);
                } else {
                    assert(rest[q - 1] == i);
                }
            }
        }
    }
}

/// Fills `out` with the indices of the `k` greatest entries, in descending
/// order; ties go to the lower index. NaNs and negative infinity are passed
/// over; where nothing else is left, the lowest indices not yet chosen follow.
pub fn topk_indices_desc(values: &[Bits32], k: usize, out: &mut [usize])
    requires
        k <= values.len(),
        old(out).len() == k,
    ensures
        final(out)@.len() == k,
        is_topk(values@, final(out)@),
{
    let mut slot: usize = 0;
    while slot < k
        invariant
            slot <= k <= values.len(),
            out.len() == k,
            is_topk(values@, out@.take(slot as int)),
        decreases k - slot,
    {
        let ghost chosen = out@.take(slot as int);
        let next: usize = match best_outside(values, &*out, slot) {
            Some(i) => i,
            None => {
                let mut i: usize = 0;
                proof {
                    some_index_is_free(chosen, values@.len());
                }
                while among(&*out, slot, i)
                    invariant
                        slot <= k <= values.len(),
                        out.len() == k,
                        chosen == out@.take(slot as int),
                        i <= values.len(),
                        exists|j: usize| i <= j < values.len() && !#[trigger] chosen.contains(j),
                        forall|j: usize| j < i ==> #[trigger] chosen.contains(j),
                    decreases values.len() - i,
                {
                    i += 1;
                }
                i
            },
        };
        out[slot] = next;
        slot += 1;
        let ghost now = out@.take(slot as int);
        assert(now.take(slot - 1) =~= chosen);
        assert forall|s: int| 0 <= s < now.len() implies is_next(
            values@,
            #[trigger] now.take(s),
            now[s] as int,
        ) by {
            if s < slot - 1 {
                assert(now.take(s) =~= chosen.take(s));
                assert(now[s] == chosen[s]);
            }
        }
    }
    assert(out@.take(k as int) =~= out@);
}

/// What is chosen is fixed by the values.
pub proof fn topk_is_unique(values: Seq<Bits32>, a: Seq<usize>, b: Seq<usize>)
    requires
        is_topk(values, a),
        is_topk(values, b),
        a.len() == b.len(),
    ensures
        a == b,
    decreases a.len(),
{
    if a.len() > 0 {
        let n = a.len() - 1;
        let x = a.take(n);
        let y = b.take(n);
        assert forall|s: int| 0 <= s < n implies is_next(values, #[trigger] x.take(s), x[s] as int) by {
            assert(x.take(s) =~= a.take(s));
        }
        assert forall|s: int| 0 <= s < n implies is_next(values, #[trigger] y.take(s), y[s] as int) by {
            assert(y.take(s) =~= b.take(s));
        }
        topk_is_unique(values, x, y);
        let i = a[n] as int;
        let j = b[n] as int;
        assert(is_next(values, a.take(n), i));
        assert(is_next(values, b.take(n), j));
        if has_no_best(values, x) {
            if i < j {
                assert(y.contains(i as usize));
            } else if j < i {
                assert(x.contains(j as usize));
            }
        } else {
            best_is_unique(values, x, i, j);
        }
        assert(a =~= x.push(a[n]));
        assert(b =~= y.push(b[n]));
    }
}

/// The chosen indices are distinct, stand in descending order of their
/// values, and no value left out is greater than one that was chosen.
pub proof fn topk_selects_the_greatest(values: Seq<Bits32>, out: Seq<usize>)
    requires
        is_topk(values, out),
    ensures
        forall|a: int, b: int| 0 <= a < b < out.len() ==> out[a] != out[b],
        forall|a: int, b: int|
            0 <= a < b < out.len() && out[b] < values.len() ==> !gt(
                values[#[trigger] out[b] as int],
                values[#[trigger] out[a] as int],
            ),
        forall|a: int, i: int|
            0 <= a < out.len() && 0 <= i < values.len() && !out.contains(i as usize) ==> !gt(
                #[trigger] values[i],
                values[#[trigger] out[a] as int],
            ),
{
    assert forall|a: int, b: int| 0 <= a < b < out.len() implies out[a] != out[b] by {
        assert(is_next(values, out.take(b), out[b] as int));
        assert(out.take(b)[a] == out[a]);
        assert(out.take(b).contains(out[a]));
    }
    assert forall|a: int, i: int|
        0 <= a < out.len() && 0 <= i < values.len() && !out.take(a).contains(
            i as usize,
        ) implies !gt(#[trigger] values[i], values[#[trigger] out[a] as int]) by {
        assert(is_next(values, out.take(a), out[a] as int));
        if has_no_best(values, out.take(a)) {
            let v = values[out[a] as int];
            if out[a] < values.len() {
                assert(!gt(v, NEG_INFINITY));
            }
            assert(!gt(values[i], NEG_INFINITY));
            if gt(values[i], v) {
                assert(rank(values[i]) <= rank(NEG_INFINITY));
                assert(rank(v) >= rank(NEG_INFINITY));
            }
        }
    }
    assert forall|a: int, b: int| 0 <= a < b < out.len() && out[b] < values.len() implies !gt(
        values[#[trigger] out[b] as int],
        values[#[trigger] out[a] as int],
    ) by {
        if out.take(a).contains(out[b]) {
            let p = choose|p: int| 0 <= p < a && out.take(a)[p] == out[b];
            assert(out[p] == out[b]);
        }
    }
    assert forall|a: int, i: int|
        0 <= a < out.len() && 0 <= i < values.len() && !out.contains(i as usize) implies !gt(
        #[trigger] values[i],
        values[#[trigger] out[a] as int],
    ) by {
        if out.take(a).contains(i as usize) {
            let p = choose|p: int| 0 <= p < a && out.take(a)[p] == i as usize;
            assert(out[p] == i as usize);
        }
    }
}

/// Selecting as many entries as there are selects them all.
pub proof fn topk_of_all_is_all(values: Seq<Bits32>, out: Seq<usize>, i: int)
    requires
        is_topk(values, out),
        out.len() == values.len() <= usize::MAX,
        0 <= i < values.len(),
    ensures
        out.contains(i as usize),
{
    topk_selects_the_greatest(values, out);
    topk_stays_in_range(values, out);
    let n = values.len() as int;
    let places = out.map_values(|x: usize| x as int);
    assert forall|a: int, b: int| 0 <= a < b < places.len() implies places[a] != places[b] by {}
    assert(places.no_duplicates());
    places.unique_seq_to_set();
    vstd::set_lib::lemma_int_range(0, n);
    let all = vstd::set_lib::set_int_range(0, n);
    assert(places.to_set().subset_of(all));
    vstd::set_lib::lemma_subset_equality(places.to_set(), all);
    assert(all.contains(i));
    assert(places.to_set().contains(i));
    assert(places.contains(i));
    let a = choose|a: int| 0 <= a < places.len() && places[a] == i;
    assert(out[a] == i as usize);
}

/// Without taken entries something is chosen for every index below the
/// number of values: the chosen indices are all in range.
pub proof fn topk_stays_in_range(values: Seq<Bits32>, out: Seq<usize>)
    requires
        is_topk(values, out),
        out.len() <= values.len() <= usize::MAX,
    ensures
        forall|a: int| 0 <= a < out.len() ==> (#[trigger] out[a]) < values.len(),
{
    assert forall|a: int| 0 <= a < out.len() implies (#[trigger] out[a]) < values.len() by {
        assert(is_next(values, out.take(a), out[a] as int));
        if has_no_best(values, out.take(a)) {
            some_index_is_free(out.take(a), values.len());
            let i = choose|i: usize| i < values.len() && !#[trigger] out.take(a).contains(i);
            if out[a] > i {
                assert(out.take(a).contains(i));
            }
        }
    }
}

// ---------------------------------------------------------------------------
// Half precision
// ---------------------------------------------------------------------------

/// How often `m` must be doubled to reach 1024, for `0 < m < 1024`.
pub open spec fn doublings(m: int) -> int {
    if m >= 512 {
        1
    } else if m >= 256 {
        2
    } else if m >= 128 {
        3
    } else if m >= 64 {
        4
    } else if m >= 32 {
        5
    } else if m >= 16 {
        6
    } else if m >= 8 {
        7
    } else if m >= 4 {
        8
    } else if m >= 2 {
        9
    } else {
        10
    }
}

/// `m` doubled until it reaches 1024, for `0 < m < 1024`.
pub open spec fn doubled(m: int) -> int {
    if m >= 512 {
        m * 2
    } else if m >= 256 {
        m * 4
    } else if m >= 128 {
        m * 8
    } else if m >= 64 {
        m * 16
    } else if m >= 32 {
        m * 32
    } else if m >= 16 {
        m * 64
    } else if m >= 8 {
        m * 128
    } else if m >= 4 {
        m * 256
    } else if m >= 2 {
        m * 512
    } else {
        m * 1024
    }
}

/// The single-precision pattern of the half-precision pattern `h`: the sign
/// is kept, the exponent moves from bias 15 to bias 127, numbers below the
/// normal range are normalised, and infinities and NaNs keep their mantissa.
pub open spec fn widened(h: u16) -> int {
    let sign = h as int / 0x8000;
    let exp = h as int / 0x400 % 0x20;
    let mant = h as int % 0x400;
    sign * 0x8000_0000 + if exp == 0 && mant == 0 {
        0
    } else if exp == 0 {
        (113 - doublings(mant)) * 0x80_0000 + (doubled(mant) - 0x400) * 0x2000
    } else if exp == 0x1F {
        0xFF * 0x80_0000 + mant * 0x2000
    } else {
        (exp + 112) * 0x80_0000 + mant * 0x2000
    }
}

/// Converts a half-precision pattern to the single-precision pattern of the
/// same number.
pub fn f16_to_f32(h: u16) -> (bits: Bits32)
    ensures
        bits == widened(h),
{
    let sign: u32 = (h / 0x8000) as u32;
    let exp: u32 = (h / 0x400 % 0x20) as u32;
    let mant: u32 = (h % 0x400) as u32;
    let magnitude: u32 = if exp == 0 {
        if mant == 0 {
            0
        } else {
            let mut m: u32 = mant;
            let mut e: u32 = 113;
            while m < 0x400
                invariant
                    0 < mant < 0x400,
                    0 < m < 0x800,
                    103 <= e <= 113,
                    ({
                        ||| e == 113 && m == mant
                        ||| e == 112 && m == mant * 2
                        ||| e == 111 && m == mant * 4
                        ||| e == 110 && m == mant * 8
                        ||| e == 109 && m == mant * 16
                        ||| e == 108 && m == mant * 32
                        ||| e == 107 && m == mant * 64
                        ||| e == 106 && m == mant * 128
                        ||| e == 105 && m == mant * 256
                        ||| e == 104 && m == mant * 512
                        ||| e == 103 && m == mant * 1024
                    }),
                    e < 113 ==> m % 2 == 0 && m / 2 < 0x400,
                decreases 0x800 - m,
            {
                m = m * 2;
                e = e - 1;
            }
            assert(m == doubled(mant as int) && 113 - e == doublings(mant as int));
            e * 0x80_0000 + (m - 0x400) * 0x2000
        }
    } else if exp == 0x1F {
        0xFFu32 * 0x80_0000 + mant * 0x2000
    } else {
        (exp + 112) * 0x80_0000 + mant * 0x2000
    };
    sign * 0x8000_0000 + magnitude
}

/// The magnitude of a finite half-precision number, in units of 2^-24.
pub open spec fn magnitude16(h: u16) -> int {
    let exp = h as int / 0x400 % 0x20;
    let mant = h as int % 0x400;
    if exp == 0 {
        mant
    } else {
        (0x400 + mant) * pow2((exp - 1) as nat)
    }
}

/// The magnitude of a finite single-precision number, in units of 2^-149.
pub open spec fn magnitude32(b: Bits32) -> int {
    let exp = b as int / 0x80_0000 % 0x100;
    let mant = b as int % 0x80_0000;
    if exp == 0 {
        mant
    } else {
        (0x80_0000 + mant) * pow2((exp - 1) as nat)
    }
}

/// Widening keeps every finite number, and its sign.
pub proof fn widening_keeps_the_number(h: u16)
    requires
        h as int / 0x400 % 0x20 != 0x1F,
    ensures
        0 <= widened(h) <= u32::MAX,
        widened(h) / 0x8000_0000 == h as int / 0x8000,
        magnitude32(widened(h) as u32) == magnitude16(h) * pow2(125),
{
    let exp = h as int / 0x400 % 0x20;
    let mant = h as int % 0x400;
    let b = widened(h) as u32;
    lemma2_to64();
    if exp == 0 && mant == 0 {
        assert(magnitude32(b) == 0);
        assert(0 * pow2(125) == 0);
    } else if exp == 0 {
        let d = doublings(mant);
        assert(b as int / 0x80_0000 % 0x100 == 113 - d);
        assert(0x80_0000 + b as int % 0x80_0000 == doubled(mant) * 0x2000);
        assert(doubled(mant) == mant * pow2(d as nat));
        lemma_pow2_adds(d as nat, 13);
        lemma_pow2_adds((d + 13) as nat, (112 - d) as nat);
        assert(mant * pow2(d as nat) * 0x2000 * pow2((112 - d) as nat) == mant * (pow2(d as nat)
            * pow2(13) * pow2((112 - d) as nat))) by (nonlinear_arith)
            requires
                pow2(13) == 0x2000,
        ;
        assert((d + 13) + (112 - d) == 125);
        assert(pow2(d as nat) * pow2(13) * pow2((112 - d) as nat) == pow2(125));
    } else {
        assert(b as int / 0x80_0000 % 0x100 == exp + 112);
        assert(0x80_0000 + b as int % 0x80_0000 == (0x400 + mant) * 0x2000);
        lemma_pow2_adds(13, (exp + 111) as nat);
        lemma_pow2_adds((exp - 1) as nat, 125);
        assert((0x400 + mant) * 0x2000 * pow2((exp + 111) as nat) == (0x400 + mant) * pow2(
            (exp - 1) as nat,
        ) * pow2(125)) by (nonlinear_arith)
            requires
                pow2(13) == 0x2000,
                pow2(13) * pow2((exp + 111) as nat) == pow2((exp + 124) as nat),
                pow2((exp - 1) as nat) * pow2(125) == pow2((exp + 124) as nat),
        ;
    }
}

// ---------------------------------------------------------------------------
// Double precision
// ---------------------------------------------------------------------------

/// `m / d` rounded to the nearest whole number, ties to the even one.
pub open spec fn rounded(m: nat, d: nat) -> nat {
    let q = m / d;
    let r = m % d;
    if 2 * r > d || (2 * r == d && q % 2 == 1) {
        q + 1
    } else {
        q
    }
}

/// The single-precision pattern nearest to the double-precision pattern `b`,
/// ties to even; what is too large becomes infinite. A NaN becomes a quiet NaN
/// with the leading bits of its payload.
pub open spec fn narrowed(b: u64) -> int {
    let sign = b as int / 0x8000_0000_0000_0000;
    let exp = b as int / 0x10_0000_0000_0000 % 0x800;
    let mant = b as int % 0x10_0000_0000_0000;
    sign * 0x8000_0000 + if exp == 0x7FF && mant != 0 {
        0x7FC0_0000 + mant / 0x2000_0000 % 0x40_0000
    } else if exp >= 1151 {
        0x7F80_0000
    } else if exp >= 897 {
        (exp - 897) * 0x80_0000 + rounded((0x10_0000_0000_0000 + mant) as nat, 0x2000_0000)
    } else if exp == 0 {
        rounded(mant as nat, pow2(925)) as int
    } else {
        rounded((0x10_0000_0000_0000 + mant) as nat, pow2((926 - exp) as nat)) as int
    }
}

fn round_to_even(m: u64, d: u64) -> (n: u64)
    requires
        d > 0,
        m < 0x8000_0000_0000_0000,
        d < 0x8000_0000_0000_0000,
    ensures
        n == rounded(m as nat, d as nat),
{
    let q: u64 = m / d;
    let r: u64 = m % d;
    assert(q <= m) by (nonlinear_arith)
        requires
            d > 0,
            q == m / d,
    ;
    if 2 * r > d || (2 * r == d && q % 2 == 1) {
        q + 1
    } else {
        q
    }
}

proof fn small_rounds_to_zero(m: nat, e: nat)
    requires
        m < 0x20_0000_0000_0000,
        e >= 55,
    ensures
        rounded(m, pow2(e)) == 0,
{
    lemma2_to64();
    lemma2_to64_rest();
    if e > 55 {
        lemma_pow2_strictly_increases(55, e);
    }
    assert(pow2(55) == 0x80_0000_0000_0000);
    let d = pow2(e);
    assert(m / d == 0 && m % d == m) by (nonlinear_arith)
        requires
            m < d,
            d > 0,
    ;
}

/// Converts a double-precision pattern to the nearest single-precision one.
pub fn f64_to_f32(b: u64) -> (bits: Bits32)
    ensures
        bits == narrowed(b),
{
    let sign: u32 = (b / 0x8000_0000_0000_0000) as u32;
    let exp: u64 = b / 0x10_0000_0000_0000 % 0x800;
    let mant: u64 = b % 0x10_0000_0000_0000;
    proof {
        lemma2_to64();
        lemma2_to64_rest();
    }
    let magnitude: u32 = if exp == 0x7FF && mant != 0 {
        0x7FC0_0000 + (mant / 0x2000_0000 % 0x40_0000) as u32
    } else if exp >= 1151 {
        0x7F80_0000
    } else if exp >= 897 {
        let n: u64 = round_to_even(0x10_0000_0000_0000 + mant, 0x2000_0000);
        ((exp - 897) * 0x80_0000 + n) as u32
    } else if exp == 0 {
        proof {
            small_rounds_to_zero(mant as nat, 925);
        }
        0
    } else if exp <= 871 {
        proof {
            small_rounds_to_zero((0x10_0000_0000_0000 + mant) as nat, (926 - exp) as nat);
        }
        0
    } else {
        let shift: u64 = 926 - exp;
        proof {
            lemma_u64_shl_is_mul(1, shift);
            if shift < 54 {
                lemma_pow2_strictly_increases(shift as nat, 54);
            }
            if shift > 30 {
                lemma_pow2_strictly_increases(30, shift as nat);
            }
            lemma_pow2_pos(shift as nat);
        }
        let d: u64 = 1u64 << shift;
        let n: u64 = round_to_even(0x10_0000_0000_0000 + mant, d);
        proof {
            let m = 0x10_0000_0000_0000 + mant;
            assert(m / d as int <= 0x80_0000) by (nonlinear_arith)
                requires
                    0 <= m < 0x20_0000_0000_0000,
                    d >= 0x4000_0000,
            ;
        }
        n as u32
    };
    sign * 0x8000_0000 + magnitude
}

// ---------------------------------------------------------------------------
// What the patterns mean
// ---------------------------------------------------------------------------

/// Magnitudes are counted in units of the smallest number: patterns below the
/// normal range count themselves, and from there on the magnitude doubles with
/// every step of the exponent.
pub proof fn magnitudes_double_with_the_exponent(b: Bits32, h: u16)
    ensures
        b < 0x100_0000 ==> magnitude32(b) == b,
        0x80_0000 <= b < 0x7F80_0000 ==> magnitude32((b + 0x80_0000) as u32) == 2 * magnitude32(b),
        b < 0x8000_0000 ==> magnitude32((b + 0x8000_0000) as u32) == magnitude32(b),
        h < 0x800 ==> magnitude16(h) == h,
        0x400 <= h < 0x7C00 ==> magnitude16((h + 0x400) as u16) == 2 * magnitude16(h),
        h < 0x8000 ==> magnitude16((h + 0x8000) as u16) == magnitude16(h),
{
    lemma2_to64();
    if 0x80_0000 <= b < 0x100_0000 {
        assert(b as int / 0x80_0000 % 0x100 == 1);
        assert((b as int) * pow2(0) == b) by (nonlinear_arith)
            requires
                pow2(0) == 1,
        ;
    }
    if 0x400 <= h < 0x800 {
        assert(h as int / 0x400 % 0x20 == 1);
        assert((h as int) * pow2(0) == h) by (nonlinear_arith)
            requires
                pow2(0) == 1,
        ;
    }
    if h < 0x8000 {
        let c = (h + 0x8000) as u16;
        assert(c as int / 0x400 % 0x20 == h as int / 0x400 % 0x20);
        assert(c as int % 0x400 == h as int % 0x400);
    }
    if 0x80_0000 <= b < 0x7F80_0000 {
        let c = (b + 0x80_0000) as u32;
        let e = b as int / 0x80_0000 % 0x100;
        let m = 0x80_0000 + b as int % 0x80_0000;
        assert(c as int / 0x80_0000 % 0x100 == e + 1);
        assert(c as int % 0x80_0000 == b as int % 0x80_0000);
        lemma_pow2_unfold(e as nat);
        assert(m * (2 * pow2((e - 1) as nat)) == 2 * (m * pow2((e - 1) as nat)))
            by (nonlinear_arith);
    }
    if 0x400 <= h < 0x7C00 {
        let c = (h + 0x400) as u16;
        let e = h as int / 0x400 % 0x20;
        let m = 0x400 + h as int % 0x400;
        assert(c as int / 0x400 % 0x20 == e + 1);
        assert(c as int % 0x400 == h as int % 0x400);
        lemma_pow2_unfold(e as nat);
        assert(m * (2 * pow2((e - 1) as nat)) == 2 * (m * pow2((e - 1) as nat)))
            by (nonlinear_arith);
    }
}

proof fn magnitudes_grow(x: Bits32, y: Bits32)
    requires
        x < y <= 0x7F80_0000,
    ensures
        0 <= magnitude32(x) < magnitude32(y),
{
    lemma2_to64();
    let ex = x as int / 0x80_0000 % 0x100;
    let ey = y as int / 0x80_0000 % 0x100;
    let mx = x as int % 0x80_0000;
    let my = y as int % 0x80_0000;
    if ex > 0 {
        lemma_pow2_pos((ex - 1) as nat);
        assert((0x80_0000 + mx) * pow2((ex - 1) as nat) >= 0) by (nonlinear_arith)
            requires
                mx >= 0,
        ;
    }
    if ex == ey {
        if ex > 0 {
            assert((0x80_0000 + mx) * pow2((ex - 1) as nat) < (0x80_0000 + my) * pow2(
                (ex - 1) as nat,
            )) by (nonlinear_arith)
                requires
                    mx < my,
                    pow2((ex - 1) as nat) > 0,
            ;
        }
    } else {
        assert(ex < ey);
        if ey > ex + 1 {
            lemma_pow2_strictly_increases(ex as nat, (ey - 1) as nat);
        }
        lemma_pow2_pos((ey - 1) as nat);
        assert(0x80_0000 * pow2((ey - 1) as nat) <= (0x80_0000 + my) * pow2((ey - 1) as nat))
            by (nonlinear_arith)
            requires
                my >= 0,
        ;
        if ex == 0 {
            assert(0x80_0000 <= 0x80_0000 * pow2((ey - 1) as nat)) by (nonlinear_arith)
                requires
                    pow2((ey - 1) as nat) >= 1,
            ;
        } else {
            lemma_pow2_unfold(ex as nat);
            assert((0x80_0000 + mx) * pow2((ex - 1) as nat) < 0x80_0000 * pow2(ex as nat))
                by (nonlinear_arith)
                requires
                    0 <= mx < 0x80_0000,
                    pow2(ex as nat) == 2 * pow2((ex - 1) as nat),
                    pow2((ex - 1) as nat) > 0,
            ;
            assert(0x80_0000 * pow2(ex as nat) <= 0x80_0000 * pow2((ey - 1) as nat))
                by (nonlinear_arith)
                requires
                    pow2(ex as nat) <= pow2((ey - 1) as nat),
            ;
        }
    }
}

/// Of two patterns that are numbers, the greater is the one that stands for the
/// greater number; both zeros are equal, and a NaN is neither greater nor less
/// than anything.
pub proof fn the_greater_pattern_is_the_greater_number(a: Bits32, b: Bits32)
    ensures
        ({
            let x = if a < 0x8000_0000 {
                magnitude32(a)
            } else {
                -magnitude32(a)
            };
            let y = if b < 0x8000_0000 {
                magnitude32(b)
            } else {
                -magnitude32(b)
            };
            let numbers = a % 0x8000_0000 <= 0x7F80_0000 && b % 0x8000_0000 <= 0x7F80_0000;
            gt(a, b) <==> numbers && x > y
        }),
{
    let p = a % 0x8000_0000;
    let q = b % 0x8000_0000;
    if p <= 0x7F80_0000 && q <= 0x7F80_0000 {
        magnitudes_double_with_the_exponent(p, 0);
        magnitudes_double_with_the_exponent(q, 0);
        assert(a >= 0x8000_0000 ==> a == p + 0x8000_0000);
        assert(b >= 0x8000_0000 ==> b == q + 0x8000_0000);
        magnitudes_double_with_the_exponent(0, 0);
        if p > 0 {
            magnitudes_grow(0, p);
        }
        if q > 0 {
            magnitudes_grow(0, q);
        }
        if p < q {
            magnitudes_grow(p, q);
        }
        if q < p {
            magnitudes_grow(q, p);
        }
    }
}

/// Widening keeps the sign of everything, makes infinity of infinity and NaN of
/// NaN, and keeps what a NaN carries in the highest bits.
pub proof fn widening_keeps_what_is_not_finite(h: u16)
    ensures
        0 <= widened(h) <= u32::MAX,
        widened(h) / 0x8000_0000 == h as int / 0x8000,
        h % 0x8000 == 0x7C00 <==> widened(h) % 0x8000_0000 == 0x7F80_0000,
        h % 0x8000 > 0x7C00 <==> widened(h) % 0x8000_0000 > 0x7F80_0000,
        h % 0x8000 > 0x7C00 ==> is_nan(widened(h) as u32),
        h % 0x8000 >= 0x7C00 ==> widened(h) % 0x80_0000 == 0x2000 * (h as int % 0x400),
{
}

/// One more entry is the best exactly where it is greater than the best so far;
/// among equals the first stays.
pub proof fn one_more_entry(values: Seq<Bits32>, taken: Seq<usize>, v: Bits32, i: int)
    requires
        values.len() < usize::MAX,
        !taken.contains(values.len() as usize),
    ensures
        is_best(values, taken, i) && !gt(v, values[i]) ==> is_best(values.push(v), taken, i),
        is_best(values, taken, i) && gt(v, values[i]) ==> is_best(
            values.push(v),
            taken,
            values.len() as int,
        ),
        has_no_best(values, taken) && gt(v, NEG_INFINITY) ==> is_best(
            values.push(v),
            taken,
            values.len() as int,
        ),
        has_no_best(values, taken) && !gt(v, NEG_INFINITY) ==> has_no_best(values.push(v), taken),
        has_no_best(Seq::empty(), taken),
{
    let w = values.push(v);
    let n = values.len() as int;
    assert(w[n] == v);
    assert(forall|j: int| 0 <= j < n ==> #[trigger] w[j] == values[j]);
    if is_best(values, taken, i) && gt(v, values[i]) {
        assert forall|j: int| 0 <= j < n && !taken.contains(j as usize) implies is_nan(
            #[trigger] w[j],
        ) || gt(w[n], w[j]) by {
            assert(!gt(values[j], values[i]));
        }
        assert forall|j: int| 0 <= j < w.len() && !taken.contains(j as usize) implies !gt(
            #[trigger] w[j],
            w[n],
        ) by {
            if j < n {
                assert(!gt(values[j], values[i]));
            }
        }
    }
    if has_no_best(values, taken) && gt(v, NEG_INFINITY) {
        assert forall|j: int| 0 <= j < n && !taken.contains(j as usize) implies is_nan(
            #[trigger] w[j],
        ) || gt(w[n], w[j]) by {
            assert(!gt(values[j], NEG_INFINITY));
        }
        assert forall|j: int| 0 <= j < w.len() && !taken.contains(j as usize) implies !gt(
            #[trigger] w[j],
            w[n],
        ) by {
            if j < n {
                assert(!gt(values[j], NEG_INFINITY));
            }
        }
    }
}

/// Of equal values the one with the lower index is chosen first. What is no number
/// or negative infinity comes last, in the order of the indices.
pub proof fn ties_go_to_the_lower_index(values: Seq<Bits32>, out: Seq<usize>, a: int, i: int)
    requires
        is_topk(values, out),
        0 <= a < out.len(),
        out[a] < values.len() <= usize::MAX,
        0 <= i < out[a],
        forall|b: int| 0 <= b < a ==> out[b] != i,
    ensures
        gt(values[out[a] as int], NEG_INFINITY),
        is_nan(values[i]) || gt(values[out[a] as int], values[i]),
{
    let taken = out.take(a);
    assert(is_next(values, taken, out[a] as int));
    assert(!taken.contains(i as usize)) by {
        if taken.contains(i as usize) {
            let b = choose|b: int| 0 <= b < taken.len() && taken[b] == i as usize;
            assert(out[b] == i);
        }
    }
    if has_no_best(values, taken) {
        assert(taken.contains(i as usize));
    }
}

/// Rounding gives the nearest whole number, and of two nearest ones the even one.
pub proof fn rounding_gives_the_nearest(m: nat, d: nat)
    requires
        d > 0,
    ensures
        2 * (rounded(m, d) * d) <= 2 * m + d,
        2 * m <= 2 * (rounded(m, d) * d) + d,
        2 * (rounded(m, d) * d) == 2 * m + d || 2 * m == 2 * (rounded(m, d) * d) + d ==> rounded(
            m,
            d,
        ) % 2 == 0,
{
    let q = m / d;
    let r = m % d;
    assert(m == q * d + r && 0 <= r < d) by (nonlinear_arith)
        requires
            d > 0,
            q == m / d,
            r == m % d,
    ;
    assert((q + 1) * d == q * d + d) by (nonlinear_arith);
}

/// Narrowing gives the nearest single-precision number and keeps the sign. In the
/// normal range patterns are compared directly: 29 bits are dropped and the
/// exponent is counted from another start.
pub proof fn narrowing_gives_the_nearest(b: u64)
    ensures
        ({
            let exp = b as int / 0x10_0000_0000_0000 % 0x800;
            let mant = b as int % 0x10_0000_0000_0000;
            let n = narrowed(b) % 0x8000_0000;
            let exact = b as int % 0x8000_0000_0000_0000 - 896 * 0x10_0000_0000_0000;
            &&& 0 <= narrowed(b) <= u32::MAX
            &&& narrowed(b) / 0x8000_0000 == b as int / 0x8000_0000_0000_0000
            &&& 897 <= exp < 1151 ==> {
                &&& 2 * (n * 0x2000_0000) <= 2 * exact + 0x2000_0000
                &&& 2 * exact <= 2 * (n * 0x2000_0000) + 0x2000_0000
                &&& 2 * (n * 0x2000_0000) == 2 * exact + 0x2000_0000 || 2 * exact == 2 * (n
                    * 0x2000_0000) + 0x2000_0000 ==> n % 2 == 0
            }
            &&& 872 <= exp < 897 ==> {
                let d = pow2((926 - exp) as nat);
                let m = 0x10_0000_0000_0000 + mant;
                &&& 2 * (n * d) <= 2 * m + d
                &&& 2 * m <= 2 * (n * d) + d
                &&& 2 * (n * d) == 2 * m + d || 2 * m == 2 * (n * d) + d ==> n % 2 == 0
            }
            &&& exp < 872 ==> n == 0
            &&& 1151 <= exp < 2047 || exp == 2047 && mant == 0 ==> n == 0x7F80_0000
            &&& exp == 2047 && mant != 0 ==> is_nan(narrowed(b) as u32) && n >= 0x7FC0_0000 && n
                - 0x7FC0_0000 == mant % 0x8_0000_0000_0000 / 0x2000_0000
        }),
{
    let exp = b as int / 0x10_0000_0000_0000 % 0x800;
    let mant = b as int % 0x10_0000_0000_0000;
    let sign = b as int / 0x8000_0000_0000_0000;
    assert(b == sign * 0x8000_0000_0000_0000 + exp * 0x10_0000_0000_0000 + mant);
    assert(sign == 0 || sign == 1);
    let m = (0x10_0000_0000_0000 + mant) as nat;
    if exp == 2047 && mant != 0 {
    } else if exp >= 1151 {
    } else if exp >= 897 {
        rounding_gives_the_nearest(m, 0x2000_0000);
        let k = rounded(m, 0x2000_0000) as int;
        assert(0x80_0000 <= k <= 0x100_0000);
    } else if exp == 0 {
        small_rounds_to_zero(mant as nat, 925);
    } else if exp < 872 {
        small_rounds_to_zero(m, (926 - exp) as nat);
    } else {
        let d = pow2((926 - exp) as nat);
        lemma2_to64();
        lemma2_to64_rest();
        lemma_pow2_pos((926 - exp) as nat);
        if exp < 896 {
            lemma_pow2_strictly_increases(30, (926 - exp) as nat);
        }
        rounding_gives_the_nearest(m, d);
        let k = rounded(m, d) as int;
        assert(k <= 0x80_0000) by (nonlinear_arith)
            requires
                2 * (k * d) <= 2 * m + d,
                m < 0x20_0000_0000_0000,
                d >= 0x4000_0000,
        ;
    }
}

} // verus!
