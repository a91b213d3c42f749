//! Buffers of single-precision numbers, each held by its bit pattern.

use vstd::prelude::*;

verus! {

/// A single-precision number by its bit pattern.
pub type Bits32 = u32;

/// The bit pattern of positive zero.
pub const ZERO: Bits32 = 0;

/// `len` copies of `x`.
pub open spec fn splat(x: Bits32, len: nat) -> Seq<Bits32> {
    Seq::new(len, |i: int| x)
}

/// Part `h` of a sequence of parts of `n` entries each.
pub open spec fn part<A>(s: Seq<A>, h: int, n: int) -> Seq<A> {
    s.subrange(h * n, h * n + n)
}

/// Part `h` of `parts` parts lies within them.
pub proof fn part_in_range(h: int, parts: int, n: int)
    requires
        0 <= h < parts,
        0 <= n,
    ensures
        0 <= h * n,
        h * n + n <= parts * n,
        (h + 1) * n == h * n + n,
{
    assert(0 <= h * n && h * n + n <= parts * n) by (nonlinear_arith)
        requires
            0 <= h < parts,
            0 <= n,
    ;
    assert((h + 1) * n == h * n + n) by (nonlinear_arith);
}

/// Sets every entry to `x`.
pub fn fill(v: &mut Vec<Bits32>, x: Bits32)
    ensures
        final(v)@ == splat(x, old(v)@.len()),
{
    let mut i: usize = 0;
    while i < v.len()
        invariant
            v.len() == old(v).len(),
            i <= v.len(),
            forall|j: int| 0 <= j < i ==> v[j] == x,
        decreases v.len() - i,
    {
        v[i] = x;
        i += 1;
    }
    assert(v@ =~= splat(x, old(v)@.len()));
}

/// Overwrites the entries of `dst` from `off` on by `src`.
pub fn copy_at(dst: &mut Vec<Bits32>, off: usize, src: &[Bits32])
    requires
        off + src.len() <= old(dst).len(),
    ensures
        final(dst)@ == old(dst)@.take(off as int) + src@ + old(dst)@.skip((off + src.len()) as int),
{
    let mut i: usize = 0;
    while i < src.len()
        invariant
            off + src.len() <= old(dst).len(),
            dst.len() == old(dst).len(),
            i <= src.len(),
            forall|j: int| 0 <= j < i ==> dst[off + j] == #[trigger] src[j],
            forall|j: int|
                0 <= j < dst.len() && !(off <= j < off + i) ==> #[trigger] dst[j] == old(dst)[j],
        decreases src.len() - i,
    {
        dst[off + i] = src[i];
        i += 1;
    }
    let ghost want = old(dst)@.take(off as int) + src@ + old(dst)@.skip((off + src.len()) as int);
    assert forall|j: int| 0 <= j < dst.len() implies dst@[j] == want[j] by {
        if off <= j < off + src.len() {
            assert(dst@[off + (j - off)] == src@[j - off]);
        }
    }
    assert(dst@ =~= want);
}

/// Overwrites `dst` by `src`, which is as long.
pub fn copy_all(dst: &mut Vec<Bits32>, src: &[Bits32])
    requires
        old(dst).len() == src.len(),
    ensures
        final(dst)@ == src@,
{
    copy_at(dst, 0, src);
    assert(dst@ =~= src@);
}

/// Moves the entries from `from` on to the front, leaving the last `from`
/// entries as they are.
pub fn shift_down(v: &mut Vec<Bits32>, from: usize)
    requires
        from <= old(v).len(),
    ensures
        final(v)@.len() == old(v)@.len(),
        final(v)@.take(old(v).len() - from) == old(v)@.skip(from as int),
        final(v)@.skip(old(v).len() - from) == old(v)@.skip(old(v).len() - from),
{
    let n: usize = v.len() - from;
    let mut i: usize = 0;
    while i < n
        invariant
            v.len() == old(v).len(),
            n == v.len() - from,
            i <= n,
            forall|j: int| 0 <= j < i ==> #[trigger] v[j] == old(v)[from + j],
            forall|j: int| i <= j < v.len() ==> #[trigger] v[j] == old(v)[j],
        decreases n - i,
    {
        v[i] = v[from + i];
        i += 1;
    }
    assert(v@.take(n as int) =~= old(v)@.skip(from as int));
    assert(v@.skip(n as int) =~= old(v)@.skip(n as int));
}

/// Entry `k` of part `h` is entry `h * n + k` of the whole, and a part has `n`
/// entries.
pub proof fn parts_follow_each_other<A>(s: Seq<A>, h: int, n: int, k: int)
    requires
        0 <= h,
        0 <= k < n,
        h * n + n <= s.len(),
    ensures
        part(s, h, n).len() == n,
        part(s, h, n)[k] == s[h * n + k],
{
    assert(0 <= h * n) by (nonlinear_arith)
        requires
            0 <= h,
            0 <= n,
    ;
}

/// All copies are the same.
pub proof fn copies_are_equal(x: Bits32, len: nat, i: int)
    requires
        0 <= i < len,
    ensures
        splat(x, len).len() == len,
        splat(x, len)[i] == x,
{
}

} // verus!
