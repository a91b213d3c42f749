//! Residual streams side by side.

use vstd::prelude::*;

use crate::bits;
use crate::bits::{copy_at, Bits32};

verus! {

/// Every one of the `n_hc` streams in `out` is `plain`.
pub open spec fn are_copies(out: Seq<Bits32>, plain: Seq<Bits32>, n_hc: int) -> bool {
    &&& out.len() == n_hc * plain.len()
    &&& forall|h: int|
        0 <= h < n_hc ==> #[trigger] bits::part(out, h, plain.len() as int) == plain
}

/// Copies an embedding into every one of `n_hc` streams.
pub fn hc_from_plain_embedding(out: &mut Vec<Bits32>, plain: &[Bits32], n_embd: usize, n_hc: usize)
    requires
        plain@.len() == n_embd,
        old(out)@.len() == n_hc * n_embd,
    ensures
        are_copies(final(out)@, plain@, n_hc as int),
{
    let mut h: usize = 0;
    while h < n_hc
        invariant
            h <= n_hc,
            plain@.len() == n_embd,
            out@.len() == n_hc * n_embd,
            forall|g: int| 0 <= g < h ==> #[trigger] bits::part(out@, g, n_embd as int) == plain@,
        decreases n_hc - h,
    {
        proof {
            bits::part_in_range(h as int, n_hc as int, n_embd as int);
            assert(out.len() == out@.len());
        }
        let ghost before = out@;
        let off: usize = h * n_embd;
        copy_at(out, off, plain);
        proof {
            assert forall|g: int| 0 <= g < h + 1 implies #[trigger] bits::part(
                out@,
                g,
                n_embd as int,
            ) == plain@ by {
                bits::part_in_range(g, n_hc as int, n_embd as int);
                if g < h {
                    assert(g * n_embd + n_embd <= h * n_embd) by (nonlinear_arith)
                        requires
                            g < h,
                    ;
                    assert(bits::part(out@, g, n_embd as int) =~= bits::part(
                        before,
                        g,
                        n_embd as int,
                    ));
                } else {
                    assert(bits::part(out@, g, n_embd as int) =~= plain@);
                }
            }
        }
        h += 1;
    }
}

/// Entry `i` of every stream is entry `i` of the embedding.
pub proof fn every_stream_is_the_embedding(
    out: Seq<Bits32>,
    plain: Seq<Bits32>,
    n_hc: int,
    h: int,
    i: int,
)
    requires
        are_copies(out, plain, n_hc),
        0 <= h < n_hc,
        0 <= i < plain.len(),
    ensures
        out.len() == n_hc * plain.len(),
        out[h * plain.len() + i] == plain[i],
{
    bits::part_in_range(h, n_hc, plain.len() as int);
    assert(bits::part(out, h, plain.len() as int) == plain);
    bits::parts_follow_each_other(out, h, plain.len() as int, i);
}

} // verus!
