//! The indexer of layers with ratio 4: its streaming compression, and the
//! compressed rows that each of its heads lets attention see.

use vstd::prelude::*;

use crate::bits;
use crate::bits::{copy_at, Bits32};
use crate::config::INDEXER_TOP_K;
use crate::float;
use crate::float::topk_indices_desc;
use crate::model::compressor;
use crate::model::compressor::{pool_columns, slide, Emission, PoolColumn};
use crate::model::kv_cache::{IndexerState, IDX_DIM};

verus! {

/// What each column of an indexer's window pools.
pub fn indexer_pool(state: &IndexerState) -> (columns: Vec<Option<PoolColumn>>)
    requires
        state.wf(),
    ensures
        compressor::are_columns(columns@, state.state_kv@, state.state_score@, 4, 128),
{
    pool_columns(state.state_score.as_slice(), state.state_kv.as_slice(), 4, IDX_DIM)
}

/// Takes the rows that the token at `pos` projects into an indexer's window.
///
/// On the last token of a group of four the result says what the compressed
/// row pools and at which position it stands, and the group moves to the front
/// of the window. The caller computes the row and hands it to
/// [`IndexerState::push_comp`].
pub fn indexer_decode_one(
    state: &mut IndexerState,
    kv_row: &[Bits32],
    score_row: &[Bits32],
    pos: u32,
) -> (r: Option<Emission>)
    requires
        old(state).wf(),
        kv_row@.len() == 256,
        score_row@.len() == 256,
    ensures
        final(state).wf(),
        final(state)@ == compressor::stepped(old(state)@, 4, 256, pos, kv_row@, score_row@),
        r is Some <==> compressor::is_boundary(4, pos),
        match r {
            Some(e) => e.comp_pos == pos - 3 && compressor::are_columns(
                e.columns@,
                compressor::stored(
                    old(state)@.kv,
                    compressor::state_row(4, pos) * 256,
                    kv_row@,
                ),
                compressor::stored(
                    old(state)@.score,
                    compressor::state_row(4, pos) * 256,
                    score_row@,
                ),
                4,
                128,
            ),
            None => true,
        },
{
    let row: usize = 4 + (pos % 4) as usize;
    let off: usize = row * 256;
    copy_at(&mut state.state_kv, off, kv_row);
    copy_at(&mut state.state_score, off, score_row);
    if (pos as u64 + 1) % 4 != 0 {
        return None;
    }
    let columns = indexer_pool(state);
    let comp_pos: usize = (pos - 3) as usize;
    slide(&mut state.state_kv);
    slide(&mut state.state_score);
    Some(Emission { comp_pos, columns })
}

/// How many of `n_comp` compressed rows one head selects.
pub open spec fn allowed_len(n_comp: nat) -> nat {
    if n_comp < 512 {
        n_comp
    } else {
        512
    }
}

/// The rows that each head selects, head after head: those with the greatest
/// scores, in descending order, at most `INDEXER_TOP_K` of them.
///
/// `scores` holds the scores of the `n_comp` compressed rows, head after head.
pub fn indexer_allowed_decode_one(scores: &[Bits32], n_idx_head: usize, n_comp: usize) -> (allowed:
    Vec<usize>)
    requires
        scores@.len() == n_idx_head * n_comp,
    ensures
        allowed@.len() == n_idx_head * allowed_len(n_comp as nat),
        forall|h: int|
            0 <= h < n_idx_head ==> float::is_topk(
                #[trigger] bits::part(scores@, h, n_comp as int),
                bits::part(allowed@, h, allowed_len(n_comp as nat) as int),
            ),
{
    let k: usize = if n_comp < INDEXER_TOP_K as usize {
        n_comp
    } else {
        INDEXER_TOP_K as usize
    };
    let mut allowed: Vec<usize> = Vec::new();
    let mut h: usize = 0;
    while h < n_idx_head
        invariant
            h <= n_idx_head,
            k == allowed_len(n_comp as nat),
            scores@.len() == n_idx_head * n_comp,
            allowed@.len() == h * k,
            forall|g: int|
                0 <= g < h ==> float::is_topk(
                    #[trigger] bits::part(scores@, g, n_comp as int),
                    bits::part(allowed@, g, k as int),
                ),
        decreases n_idx_head - h,
    {
        proof {
            bits::part_in_range(h as int, n_idx_head as int, n_comp as int);
            bits::part_in_range(h as int, n_idx_head as int, k as int);
            assert(scores.len() == scores@.len());
        }
        let start: usize = h * n_comp;
        let part = vstd::slice::slice_subrange(scores, start, start + n_comp);
        let mut chosen: Vec<usize> = vec![0; k];
        topk_indices_desc(part, k, chosen.as_mut_slice());
        let ghost before = allowed@;
        let ghost picked = chosen@;
        allowed.append(&mut chosen);
        proof {
            assert forall|g: int|
                0 <= g < h + 1 implies float::is_topk(
                #[trigger] bits::part(scores@, g, n_comp as int),
                bits::part(allowed@, g, k as int),
            ) by {
                if g < h {
                    bits::part_in_range(g, h as int, k as int);
                    assert(bits::part(allowed@, g, k as int) =~= bits::part(before, g, k as int));
                } else {
                    assert(bits::part(allowed@, g, k as int) =~= picked);
                }
            }
        }
        h += 1;
    }
    allowed
}

/// A head selects every row while there are at most 512, and 512 of more.
pub proof fn at_most_512_rows_are_selected(n_comp: nat)
    ensures
        n_comp <= 512 ==> allowed_len(n_comp) == n_comp,
        n_comp >= 512 ==> allowed_len(n_comp) == 512,
{
}

} // verus!
