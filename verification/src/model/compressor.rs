//! Streaming compression of the attention rows.
//!
//! Each token writes one state row. On the last token of every group of
//! `ratio` tokens the window is pooled, column by column, into one compressed
//! row. Which entries each column pools, and when, is decided here; the
//! weighting itself is floating-point work for the caller.

use vstd::prelude::*;

use crate::bits;
use crate::bits::{copy_at, Bits32};
use crate::float;
use crate::float::{best_outside, greater};
use crate::model::kv_cache;
use crate::model::kv_cache::{CompressorState, LaneView, HEAD_DIM};

verus! {

/// Half of the score that stands for none: the bit pattern of -5e29. A column
/// without a greater score has received nothing.
pub const EMPTY_BELOW: Bits32 = 0xF0C9_F2CA;

/// The entries that one column pools: the scores by which they are weighted,
/// the greatest of these, and the values.
pub struct PoolColumn {
    pub max: Bits32,
    pub scores: Vec<Bits32>,
    pub values: Vec<Bits32>,
}

/// A compressed row that is due: its position, and what each of its columns
/// pools. A column that has received nothing pools to zero.
pub struct Emission {
    pub comp_pos: usize,
    pub columns: Vec<Option<PoolColumn>>,
}

// ---------------------------------------------------------------------------
// Models
// ---------------------------------------------------------------------------

/// The number of entries that one column pools.
pub open spec fn pool_len(ratio: u32) -> nat {
    if ratio == 4 {
        8
    } else {
        ratio as nat
    }
}

/// Where entry `t` of column `j` stands in a window of rows with `dim` columns
/// per lane. With ratio 4 the entries alternate between the first lane of the
/// first four rows and the second lane of the last four.
pub open spec fn pool_slot(ratio: u32, dim: int, j: int, t: int) -> int {
    if ratio == 4 {
        if t % 2 == 0 {
            t / 2 * (2 * dim) + j
        } else {
            (4 + t / 2) * (2 * dim) + dim + j
        }
    } else {
        t * dim + j
    }
}

/// What column `j` picks out of a window.
pub open spec fn pooled(window: Seq<Bits32>, ratio: u32, dim: int, j: int) -> Seq<Bits32> {
    Seq::new(pool_len(ratio), |t: int| window[pool_slot(ratio, dim, j, t)])
}

/// `c` is the column with the given scores and values.
pub open spec fn is_column(
    c: Option<PoolColumn>,
    scores: Seq<Bits32>,
    values: Seq<Bits32>,
) -> bool {
    match c {
        Some(p) => {
            &&& p.scores@ == scores
            &&& p.values@ == values
            &&& float::gt(p.max, EMPTY_BELOW)
            &&& exists|i: int| #[trigger]
                float::is_best(scores, Seq::empty(), i) && p.max == scores[i]
        },
        None => forall|t: int|
            0 <= t < scores.len() ==> !float::gt(#[trigger] scores[t], EMPTY_BELOW),
    }
}

/// `columns` are all columns of a window.
pub open spec fn are_columns(
    columns: Seq<Option<PoolColumn>>,
    kv: Seq<Bits32>,
    score: Seq<Bits32>,
    ratio: u32,
    dim: int,
) -> bool {
    &&& columns.len() == dim
    &&& forall|j: int|
        0 <= j < dim ==> is_column(
            #[trigger] columns[j],
            pooled(score, ratio, dim, j),
            pooled(kv, ratio, dim, j),
        )
}

/// The row of the window that the token at `pos` writes.
pub open spec fn state_row(ratio: u32, pos: u32) -> int {
    if ratio == 4 {
        4 + pos as int % 4
    } else {
        pos as int % ratio as int
    }
}

/// The token at `pos` is the last of its group.
pub open spec fn is_boundary(ratio: u32, pos: u32) -> bool {
    (pos + 1) % ratio as int == 0
}

/// A window whose entries from `off` on were overwritten by `row`.
pub open spec fn stored(window: Seq<Bits32>, off: int, row: Seq<Bits32>) -> Seq<Bits32> {
    window.take(off) + row + window.skip(off + row.len())
}

/// A window whose second half was copied over its first.
pub open spec fn slid(window: Seq<Bits32>) -> Seq<Bits32> {
    window.skip(window.len() as int / 2) + window.skip(window.len() as int / 2)
}

/// A lane after the token at `pos` has written its rows and, with ratio 4, a
/// full group has moved on.
pub open spec fn stepped(
    l: LaneView,
    ratio: u32,
    width: int,
    pos: u32,
    kv: Seq<Bits32>,
    score: Seq<Bits32>,
) -> LaneView {
    let off = state_row(ratio, pos) * width;
    let k = stored(l.kv, off, kv);
    let s = stored(l.score, off, score);
    if ratio == 4 && is_boundary(ratio, pos) {
        LaneView { kv: slid(k), score: slid(s), ..l }
    } else {
        LaneView { kv: k, score: s, ..l }
    }
}

// ---------------------------------------------------------------------------
// Pooling
// ---------------------------------------------------------------------------

proof fn slot_in_window(ratio: u32, dim: int, j: int, t: int, len: int)
    requires
        0 <= j < dim,
        0 <= t < pool_len(ratio),
        len == if ratio == 4 {
            16 * dim
        } else {
            ratio * dim
        },
    ensures
        0 <= pool_slot(ratio, dim, j, t) < len,
{
    if ratio == 4 {
        let h = t / 2;
        assert(0 <= h < 4);
        assert(h * (2 * dim) <= 3 * (2 * dim) && h * (2 * dim) >= 0) by (nonlinear_arith)
            requires
                0 <= h <= 3,
                dim > 0,
        ;
        assert((4 + h) * (2 * dim) == 8 * dim + h * (2 * dim)) by (nonlinear_arith);
    } else {
        assert(t * dim >= 0 && t * dim + dim <= ratio * dim) by (nonlinear_arith)
            requires
                0 <= t < ratio,
                dim > 0,
        ;
    }
}

/// Column `j` of a window of rows with `dim` columns per lane.
fn pool_column(score: &[Bits32], kv: &[Bits32], ratio: u32, dim: usize, j: usize) -> (c: Option<
    PoolColumn,
>)
    requires
        0 < dim <= 512,
        j < dim,
        ratio > 0,
        score@.len() == kv@.len(),
        score@.len() == if ratio == 4 {
            16 * dim
        } else {
            ratio * dim
        },
    ensures
        is_column(
            c,
            pooled(score@, ratio, dim as int, j as int),
            pooled(kv@, ratio, dim as int, j as int),
        ),
{
    let n: usize = if ratio == 4 {
        8
    } else {
        ratio as usize
    };
    let mut scores: Vec<Bits32> = Vec::new();
    let mut values: Vec<Bits32> = Vec::new();
    let ghost want_s = pooled(score@, ratio, dim as int, j as int);
    let ghost want_v = pooled(kv@, ratio, dim as int, j as int);
    let mut t: usize = 0;
    while t < n
        invariant
            0 < dim <= 512,
            j < dim,
            ratio > 0,
            n == pool_len(ratio),
            t <= n,
            score@.len() == kv@.len(),
            score@.len() == if ratio == 4 {
                16 * dim
            } else {
                ratio * dim
            },
            want_s == pooled(score@, ratio, dim as int, j as int),
            want_v == pooled(kv@, ratio, dim as int, j as int),
            scores@ == want_s.take(t as int),
            values@ == want_v.take(t as int),
        decreases n - t,
    {
        proof {
            slot_in_window(ratio, dim as int, j as int, t as int, score@.len() as int);
            assert(score.len() == score@.len());
        }
        let slot: usize = if ratio == 4 {
            let h: usize = t / 2;
            assert(h * (2 * dim) <= 4096) by (nonlinear_arith)
                requires
                    h <= 3,
                    dim <= 512,
            ;
            assert((4 + h) * (2 * dim) <= 8192) by (nonlinear_arith)
                requires
                    h <= 3,
                    dim <= 512,
            ;
            if t % 2 == 0 {
                h * (2 * dim) + j
            } else {
                (4 + h) * (2 * dim) + dim + j
            }
        } else {
            t * dim + j
        };
        assert(slot == pool_slot(ratio, dim as int, j as int, t as int));
        scores.push(score[slot]);
        values.push(kv[slot]);
        assert(scores@ =~= want_s.take(t + 1));
        assert(values@ =~= want_v.take(t + 1));
        t += 1;
    }
    assert(scores@ =~= want_s);
    assert(values@ =~= want_v);
    let none: Vec<usize> = Vec::new();
    assert(none@.take(0) =~= Seq::<usize>::empty());
    match best_outside(scores.as_slice(), none.as_slice(), 0) {
        Some(i) => {
            let max: Bits32 = scores[i];
            if greater(max, EMPTY_BELOW) {
                Some(PoolColumn { max, scores, values })
            } else {
                assert forall|t: int| 0 <= t < want_s.len() implies !float::gt(
                    #[trigger] want_s[t],
                    EMPTY_BELOW,
                ) by {
                    assert(!float::gt(want_s[t], max));
                }
                None
            }
        },
        None => {
            assert forall|t: int| 0 <= t < want_s.len() implies !float::gt(
                #[trigger] want_s[t],
                EMPTY_BELOW,
            ) by {
                assert(!float::gt(want_s[t], float::NEG_INFINITY));
            }
            None
        },
    }
}

/// All columns of a window of rows with `dim` columns per lane.
pub fn pool_columns(score: &[Bits32], kv: &[Bits32], ratio: u32, dim: usize) -> (columns: Vec<
    Option<PoolColumn>,
>)
    requires
        0 < dim <= 512,
        ratio > 0,
        score@.len() == kv@.len(),
        score@.len() == if ratio == 4 {
            16 * dim
        } else {
            ratio * dim
        },
    ensures
        are_columns(columns@, kv@, score@, ratio, dim as int),
{
    let mut columns: Vec<Option<PoolColumn>> = Vec::new();
    let mut j: usize = 0;
    while j < dim
        invariant
            0 < dim <= 512,
            ratio > 0,
            j <= dim,
            columns.len() == j,
            score@.len() == kv@.len(),
            score@.len() == if ratio == 4 {
                16 * dim
            } else {
                ratio * dim
            },
            forall|k: int|
                0 <= k < j ==> is_column(
                    #[trigger] columns[k],
                    pooled(score@, ratio, dim as int, k),
                    pooled(kv@, ratio, dim as int, k),
                ),
        decreases dim - j,
    {
        columns.push(pool_column(score, kv, ratio, dim, j));
        j += 1;
    }
    columns
}

/// What each column of a compressor's window pools.
pub fn compressor_pool(state: &CompressorState) -> (columns: Vec<Option<PoolColumn>>)
    requires
        state.wf(),
    ensures
        are_columns(columns@, state.state_kv@, state.state_score@, state.ratio, 512),
{
    pool_columns(state.state_score.as_slice(), state.state_kv.as_slice(), state.ratio, HEAD_DIM)
}

// ---------------------------------------------------------------------------
// One step
// ---------------------------------------------------------------------------

/// Copies the second half of a window over its first.
pub fn slide(window: &mut Vec<Bits32>)
    requires
        old(window).len() % 2 == 0,
    ensures
        final(window)@ == slid(old(window)@),
{
    let half: usize = window.len() / 2;
    let mut i: usize = 0;
    while i < half
        invariant
            window.len() == old(window).len(),
            window.len() == 2 * half,
            i <= half,
            forall|k: int| 0 <= k < i ==> #[trigger] window[k] == old(window)[half + k],
            forall|k: int| i <= k < window.len() ==> #[trigger] window[k] == old(window)[k],
        decreases half - i,
    {
        window[i] = window[half + i];
        i += 1;
    }
    assert(window@ =~= slid(old(window)@));
}

/// Takes the rows that the token at `pos` projects into a compressor's window.
///
/// On the last token of a group the result says what the compressed row pools
/// and at which position it stands; with ratio 4 the group then moves to the
/// front of the window. The caller computes the row and hands it to
/// [`CompressorState::push_comp`].
pub fn compressor_decode_one(
    state: &mut CompressorState,
    kv_row: &[Bits32],
    score_row: &[Bits32],
    pos: u32,
) -> (r: Option<Emission>)
    requires
        old(state).wf(),
        kv_row@.len() == kv_cache::coff_of(old(state).ratio) * 512,
        score_row@.len() == kv_cache::coff_of(old(state).ratio) * 512,
    ensures
        final(state).wf(),
        final(state).ratio == old(state).ratio,
        final(state)@ == stepped(
            old(state)@,
            old(state).ratio,
            kv_cache::coff_of(old(state).ratio) as int * 512,
            pos,
            kv_row@,
            score_row@,
        ),
        r is Some <==> is_boundary(old(state).ratio, pos),
        match r {
            Some(e) => e.comp_pos == pos + 1 - old(state).ratio && ({
                let off = state_row(old(state).ratio, pos) * (kv_cache::coff_of(old(state).ratio)
                    as int * 512);
                are_columns(
                    e.columns@,
                    stored(old(state)@.kv, off, kv_row@),
                    stored(old(state)@.score, off, score_row@),
                    old(state).ratio,
                    512,
                )
            }),
            None => true,
        },
{
    let ratio: u32 = state.ratio;
    let width: usize = state.width();
    let row: usize = if ratio == 4 {
        4 + (pos % 4) as usize
    } else {
        (pos % ratio) as usize
    };
    proof {
        assert(row * width + width <= kv_cache::state_len(ratio)) by (nonlinear_arith)
            requires
                row < if ratio == 4 {
                    8
                } else {
                    ratio as int
                },
                width == if ratio == 4 {
                    1024int
                } else {
                    512int
                },
                kv_cache::state_len(ratio) == if ratio == 4 {
                    8192int
                } else {
                    ratio * 512
                },
        ;
        assert(state.state_kv.len() == state.state_kv@.len());
    }
    let off: usize = row * width;
    copy_at(&mut state.state_kv, off, kv_row);
    copy_at(&mut state.state_score, off, score_row);
    if (pos as u64 + 1) % (ratio as u64) != 0 {
        return None;
    }
    let columns = compressor_pool(state);
    proof {
        assert(pos + 1 >= ratio) by (nonlinear_arith)
            requires
                (pos + 1) % (ratio as int) == 0,
                ratio > 0,
        ;
    }
    let comp_pos: usize = (pos as u64 + 1 - ratio as u64) as usize;
    if ratio == 4 {
        slide(&mut state.state_kv);
        slide(&mut state.state_score);
    }
    Some(Emission { comp_pos, columns })
}

/// Exactly one token in every `ratio` completes a group, and the compressed
/// row of a group stands at the position of its first token.
pub proof fn one_emission_per_group(ratio: u32, group: nat, pos: u32)
    requires
        ratio > 0,
        group * ratio <= pos < (group + 1) * ratio,
    ensures
        is_boundary(ratio, pos) <==> pos == (group + 1) * ratio - 1,
        is_boundary(ratio, pos) ==> pos + 1 - ratio == group * ratio,
{
    assert((group + 1) * ratio == group * ratio + ratio) by (nonlinear_arith);
    let r = pos + 1 - group * ratio;
    assert((pos + 1) % (ratio as int) == r % (ratio as int)) by (nonlinear_arith)
        requires
            pos + 1 == group * ratio + r,
            ratio > 0,
            0 < r <= ratio,
    ;
    if r < ratio {
        assert(r % (ratio as int) == r) by (nonlinear_arith)
            requires
                0 < r < ratio,
        ;
    } else {
        assert(r % (ratio as int) == 0) by (nonlinear_arith)
            requires
                r == ratio,
                ratio > 0,
        ;
    }
}

/// With ratio 4, both halves of the window agree once a group has moved on.
pub proof fn halves_agree_after_slide(window: Seq<Bits32>)
    requires
        window.len() % 2 == 0,
    ensures
        slid(window).len() == window.len(),
        slid(window).take(window.len() as int / 2) == slid(window).skip(window.len() as int / 2),
{
    let h = window.len() as int / 2;
    assert(slid(window).take(h) =~= window.skip(h));
    assert(slid(window).skip(h) =~= window.skip(h));
}

// ---------------------------------------------------------------------------
// Groups of tokens
// ---------------------------------------------------------------------------

/// A lane after `n` tokens from position `start` on, of which token `t` writes the
/// rows `kv[t]` and `score[t]`.
pub open spec fn fed(
    l: LaneView,
    ratio: u32,
    width: int,
    start: int,
    kv: Seq<Seq<Bits32>>,
    score: Seq<Seq<Bits32>>,
    n: nat,
) -> LaneView
    decreases n,
{
    if n == 0 {
        l
    } else {
        let m = (n - 1) as nat;
        stepped(
            fed(l, ratio, width, start, kv, score, m),
            ratio,
            width,
            (start + m) as u32,
            kv[m as int],
            score[m as int],
        )
    }
}

/// A write changes one row and no other.
pub proof fn a_write_changes_one_row(
    window: Seq<Bits32>,
    width: int,
    r: int,
    row: Seq<Bits32>,
    q: int,
    c: int,
)
    requires
        0 <= r,
        0 <= q,
        0 <= c < width,
        row.len() == width,
        r * width + width <= window.len(),
        q * width + width <= window.len(),
    ensures
        stored(window, r * width, row).len() == window.len(),
        stored(window, r * width, row)[q * width + c] == if q == r {
            row[c]
        } else {
            window[q * width + c]
        },
{
    assert(0 <= r * width && 0 <= q * width) by (nonlinear_arith)
        requires
            0 <= r,
            0 <= q,
            0 <= width,
    ;
    if q < r {
        assert(q * width + width <= r * width) by (nonlinear_arith)
            requires
                q + 1 <= r,
                0 <= width,
        ;
    }
    if q > r {
        assert(r * width + width <= q * width) by (nonlinear_arith)
            requires
                r + 1 <= q,
                0 <= width,
        ;
    }
}

/// Once a group has moved on, the first half of the window holds what the second
/// half held, and the second half still holds it.
pub proof fn the_second_half_moves_to_the_front(window: Seq<Bits32>, half: int, i: int)
    requires
        window.len() == 2 * half,
        0 <= i < half,
    ensures
        slid(window).len() == window.len(),
        slid(window)[i] == window[half + i],
        slid(window)[half + i] == window[half + i],
{
}

proof fn place_in_group(ratio: u32, g: nat, t: int)
    requires
        ratio > 0,
        0 <= t < ratio,
        g * ratio + t <= u32::MAX,
    ensures
        state_row(ratio, (g * ratio + t) as u32) == if ratio == 4 {
            4 + t
        } else {
            t
        },
        is_boundary(ratio, (g * ratio + t) as u32) <==> t == ratio - 1,
{
    let pos = (g * ratio + t) as u32;
    assert(g * ratio >= 0) by (nonlinear_arith);
    assert((g + 1) * ratio == g * ratio + ratio) by (nonlinear_arith);
    one_emission_per_group(ratio, g, pos);
    assert((g * ratio + t) % (ratio as int) == t) by (nonlinear_arith)
        requires
            0 <= t < ratio,
    ;
}

proof fn unfinished_group(
    l: LaneView,
    ratio: u32,
    width: int,
    g: nat,
    kv: Seq<Seq<Bits32>>,
    score: Seq<Seq<Bits32>>,
    n: nat,
    q: int,
    c: int,
)
    requires
        ratio > 0,
        0 <= c < width,
        n < ratio,
        n <= kv.len(),
        n <= score.len(),
        g * ratio + ratio - 1 <= u32::MAX,
        l.kv.len() == l.score.len(),
        l.kv.len() == if ratio == 4 {
            8 * width
        } else {
            ratio * width
        },
        0 <= q < if ratio == 4 {
            8
        } else {
            ratio as int
        },
        forall|t: int| 0 <= t < n ==> #[trigger] kv[t].len() == width,
        forall|t: int| 0 <= t < n ==> #[trigger] score[t].len() == width,
    ensures
        ({
            let f = fed(l, ratio, width, (g * ratio) as int, kv, score, n);
            let t = if ratio == 4 {
                q - 4
            } else {
                q
            };
            &&& f.kv.len() == l.kv.len()
            &&& f.score.len() == l.score.len()
            &&& f.kv[q * width + c] == if 0 <= t < n {
                kv[t][c]
            } else {
                l.kv[q * width + c]
            }
            &&& f.score[q * width + c] == if 0 <= t < n {
                score[t][c]
            } else {
                l.score[q * width + c]
            }
        }),
    decreases n,
{
    if n > 0 {
        let m = (n - 1) as nat;
        unfinished_group(l, ratio, width, g, kv, score, m, q, c);
        place_in_group(ratio, g, m as int);
        let f = fed(l, ratio, width, (g * ratio) as int, kv, score, m);
        let r = if ratio == 4 {
            4 + m as int
        } else {
            m as int
        };
        let rows = if ratio == 4 {
            8int
        } else {
            ratio as int
        };
        assert(q * width + width <= rows * width) by (nonlinear_arith)
            requires
                q + 1 <= rows,
                0 <= width,
        ;
        assert(r * width + width <= rows * width) by (nonlinear_arith)
            requires
                r + 1 <= rows,
                0 <= width,
        ;
        a_write_changes_one_row(f.kv, width, r, kv[m as int], q, c);
        a_write_changes_one_row(f.score, width, r, score[m as int], q, c);
    }
}

proof fn fed_in_two(
    l: LaneView,
    ratio: u32,
    width: int,
    start: int,
    kv: Seq<Seq<Bits32>>,
    score: Seq<Seq<Bits32>>,
    m: nat,
    n: nat,
)
    requires
        m + n <= kv.len(),
        m + n <= score.len(),
    ensures
        fed(l, ratio, width, start, kv, score, m + n) == fed(
            fed(l, ratio, width, start, kv, score, m),
            ratio,
            width,
            start + m,
            kv.skip(m as int),
            score.skip(m as int),
            n,
        ),
    decreases n,
{
    if n > 0 {
        fed_in_two(l, ratio, width, start, kv, score, m, (n - 1) as nat);
    }
}

/// After the last token of a group of four the first half of the window holds, row
/// for row, what the four tokens wrote, whatever stood in the window before.
pub proof fn a_full_group_stands_in_front(
    l: LaneView,
    width: int,
    g: nat,
    kv: Seq<Seq<Bits32>>,
    score: Seq<Seq<Bits32>>,
    t: int,
    c: int,
)
    requires
        0 <= c < width,
        0 <= t < 4,
        kv.len() >= 4,
        score.len() >= 4,
        4 * g + 3 <= u32::MAX,
        l.kv.len() == 8 * width,
        l.score.len() == 8 * width,
        forall|i: int| 0 <= i < 4 ==> #[trigger] kv[i].len() == width,
        forall|i: int| 0 <= i < 4 ==> #[trigger] score[i].len() == width,
    ensures
        ({
            let f = fed(l, 4, width, 4 * g as int, kv, score, 4);
            &&& f.kv.len() == 8 * width
            &&& f.score.len() == 8 * width
            &&& f.kv[t * width + c] == kv[t][c]
            &&& f.score[t * width + c] == score[t][c]
        }),
{
    unfinished_group(l, 4, width, g, kv, score, 3, 4 + t, c);
    place_in_group(4, g, 3);
    let f = fed(l, 4, width, (g * 4) as int, kv, score, 3);
    assert((4 + t) * width == 4 * width + t * width) by (nonlinear_arith);
    assert(0 <= t * width && t * width + width <= 4 * width) by (nonlinear_arith)
        requires
            0 <= t < 4,
            0 <= width,
    ;
    a_write_changes_one_row(f.kv, width, 7, kv[3], 4 + t, c);
    a_write_changes_one_row(f.score, width, 7, score[3], 4 + t, c);
    the_second_half_moves_to_the_front(stored(f.kv, 7 * width, kv[3]), 4 * width, t * width + c);
    the_second_half_moves_to_the_front(
        stored(f.score, 7 * width, score[3]),
        4 * width,
        t * width + c,
    );
}

/// What the last token of a group of four emits: column `j` weighs, in turn, entry
/// `j` of each row in the first half of the window as the group found it, and entry
/// `dim + j` of each of the four rows that the group wrote.
pub proof fn a_group_of_four_pools_both_lanes(
    l: LaneView,
    dim: int,
    g: nat,
    kv: Seq<Seq<Bits32>>,
    score: Seq<Seq<Bits32>>,
    columns: Seq<Option<PoolColumn>>,
    j: int,
    t: int,
)
    requires
        0 <= j < dim,
        0 <= t < 4,
        kv.len() >= 4,
        score.len() >= 4,
        4 * g + 3 <= u32::MAX,
        l.kv.len() == 16 * dim,
        l.score.len() == 16 * dim,
        forall|i: int| 0 <= i < 4 ==> #[trigger] kv[i].len() == 2 * dim,
        forall|i: int| 0 <= i < 4 ==> #[trigger] score[i].len() == 2 * dim,
        ({
            let f = fed(l, 4, 2 * dim, 4 * g as int, kv, score, 3);
            let off = state_row(4, (4 * g + 3) as u32) * (2 * dim);
            are_columns(columns, stored(f.kv, off, kv[3]), stored(f.score, off, score[3]), 4, dim)
        }),
    ensures
        columns.len() == dim,
        columns[j] matches Some(p) ==> {
            &&& p.values@.len() == 8
            &&& p.scores@.len() == 8
            &&& p.values@[2 * t] == l.kv[t * (2 * dim) + j]
            &&& p.scores@[2 * t] == l.score[t * (2 * dim) + j]
            &&& p.values@[2 * t + 1] == kv[t][dim + j]
            &&& p.scores@[2 * t + 1] == score[t][dim + j]
            &&& p.scores@.contains(p.max)
            &&& float::gt(p.max, EMPTY_BELOW)
            &&& !float::gt(l.score[t * (2 * dim) + j], p.max)
            &&& !float::gt(score[t][dim + j], p.max)
        },
        columns[j] is None ==> !float::gt(l.score[t * (2 * dim) + j], EMPTY_BELOW) && !float::gt(
            score[t][dim + j],
            EMPTY_BELOW,
        ),
{
    let w = 2 * dim;
    let f = fed(l, 4, w, (g * 4) as int, kv, score, 3);
    unfinished_group(l, 4, w, g, kv, score, 3, t, j);
    unfinished_group(l, 4, w, g, kv, score, 3, 4 + t, dim + j);
    place_in_group(4, g, 3);
    assert(0 <= t * w && t * w + w <= 4 * w) by (nonlinear_arith)
        requires
            0 <= t < 4,
            0 <= w,
    ;
    assert((4 + t) * w == 4 * w + t * w) by (nonlinear_arith);
    a_write_changes_one_row(f.kv, w, 7, kv[3], t, j);
    a_write_changes_one_row(f.score, w, 7, score[3], t, j);
    a_write_changes_one_row(f.kv, w, 7, kv[3], 4 + t, dim + j);
    a_write_changes_one_row(f.score, w, 7, score[3], 4 + t, dim + j);
    let k = stored(f.kv, 7 * w, kv[3]);
    let s = stored(f.score, 7 * w, score[3]);
    let ps = pooled(s, 4, dim, j);
    let pk = pooled(k, 4, dim, j);
    assert(is_column(columns[j], ps, pk));
    assert((2 * t) / 2 == t && (2 * t + 1) / 2 == t);
    assert(ps[2 * t] == s[t * w + j]);
    assert(ps[2 * t + 1] == s[(4 + t) * w + (dim + j)]);
    assert(pk[2 * t] == k[t * w + j]);
    assert(pk[2 * t + 1] == k[(4 + t) * w + (dim + j)]);
}

/// The row emitted at position `4 * g + 7` pools the first-lane entries of the four
/// tokens before its group and the second-lane entries of its own four tokens.
pub proof fn an_emission_spans_two_groups(
    l: LaneView,
    dim: int,
    g: nat,
    kv: Seq<Seq<Bits32>>,
    score: Seq<Seq<Bits32>>,
    columns: Seq<Option<PoolColumn>>,
    j: int,
    t: int,
)
    requires
        0 <= j < dim,
        0 <= t < 4,
        kv.len() == 8,
        score.len() == 8,
        4 * g + 7 <= u32::MAX,
        l.kv.len() == 16 * dim,
        l.score.len() == 16 * dim,
        forall|i: int| 0 <= i < 8 ==> #[trigger] kv[i].len() == 2 * dim,
        forall|i: int| 0 <= i < 8 ==> #[trigger] score[i].len() == 2 * dim,
        ({
            let f = fed(l, 4, 2 * dim, 4 * g as int, kv, score, 7);
            let off = state_row(4, (4 * g + 7) as u32) * (2 * dim);
            are_columns(columns, stored(f.kv, off, kv[7]), stored(f.score, off, score[7]), 4, dim)
        }),
    ensures
        columns.len() == dim,
        columns[j] matches Some(p) ==> {
            &&& p.values@.len() == 8
            &&& p.scores@.len() == 8
            &&& p.values@[2 * t] == kv[t][j]
            &&& p.scores@[2 * t] == score[t][j]
            &&& p.values@[2 * t + 1] == kv[4 + t][dim + j]
            &&& p.scores@[2 * t + 1] == score[4 + t][dim + j]
        },
        columns[j] is None ==> !float::gt(score[t][j], EMPTY_BELOW) && !float::gt(
            score[4 + t][dim + j],
            EMPTY_BELOW,
        ),
{
    let w = 2 * dim;
    let f = fed(l, 4, w, 4 * g as int, kv, score, 4);
    a_full_group_stands_in_front(l, w, g, kv, score, t, j);
    fed_in_two(l, 4, w, 4 * g as int, kv, score, 4, 3);
    a_group_of_four_pools_both_lanes(
        f,
        dim,
        g + 1,
        kv.skip(4),
        score.skip(4),
        columns,
        j,
        t,
    );
}

/// With another ratio a column pools entry `j` of every row of its group, in the
/// order of the tokens, and nothing of the groups before.
pub proof fn a_group_pools_its_own_rows(
    l: LaneView,
    ratio: u32,
    dim: int,
    g: nat,
    kv: Seq<Seq<Bits32>>,
    score: Seq<Seq<Bits32>>,
    columns: Seq<Option<PoolColumn>>,
    j: int,
    t: int,
)
    requires
        ratio > 0,
        ratio != 4,
        0 <= j < dim,
        0 <= t < ratio,
        kv.len() == ratio,
        score.len() == ratio,
        g * ratio + ratio - 1 <= u32::MAX,
        l.kv.len() == ratio * dim,
        l.score.len() == ratio * dim,
        forall|i: int| 0 <= i < ratio ==> #[trigger] kv[i].len() == dim,
        forall|i: int| 0 <= i < ratio ==> #[trigger] score[i].len() == dim,
        ({
            let last = ratio - 1;
            let f = fed(l, ratio, dim, (g * ratio) as int, kv, score, last as nat);
            let off = state_row(ratio, (g * ratio + last) as u32) * dim;
            are_columns(
                columns,
                stored(f.kv, off, kv[last]),
                stored(f.score, off, score[last]),
                ratio,
                dim,
            )
        }),
    ensures
        columns.len() == dim,
        columns[j] matches Some(p) ==> {
            &&& p.values@.len() == ratio
            &&& p.scores@.len() == ratio
            &&& p.values@[t] == kv[t][j]
            &&& p.scores@[t] == score[t][j]
            &&& p.scores@.contains(p.max)
            &&& float::gt(p.max, EMPTY_BELOW)
            &&& !float::gt(score[t][j], p.max)
        },
        columns[j] is None ==> !float::gt(score[t][j], EMPTY_BELOW),
{
    let last = ratio - 1;
    let f = fed(l, ratio, dim, (g * ratio) as int, kv, score, last as nat);
    unfinished_group(l, ratio, dim, g, kv, score, last as nat, t, j);
    place_in_group(ratio, g, last);
    assert(t * dim + dim <= ratio * dim && last * dim + dim <= ratio * dim) by (nonlinear_arith)
        requires
            0 <= t < ratio,
            last + 1 == ratio,
            0 <= dim,
    ;
    a_write_changes_one_row(f.kv, dim, last, kv[last], t, j);
    a_write_changes_one_row(f.score, dim, last, score[last], t, j);
    let k = stored(f.kv, last * dim, kv[last]);
    let s = stored(f.score, last * dim, score[last]);
    let ps = pooled(s, ratio, dim, j);
    let pk = pooled(k, ratio, dim, j);
    assert(is_column(columns[j], ps, pk));
    assert(ps[t] == s[t * dim + j]);
    assert(pk[t] == k[t * dim + j]);
}

/// A token writes its rows into its place of the window: with ratio 4 into one of
/// the last four rows, and otherwise into the row of its place in the group.
pub proof fn a_token_writes_its_row(
    l: LaneView,
    ratio: u32,
    width: int,
    pos: u32,
    kv: Seq<Bits32>,
    score: Seq<Bits32>,
    r: int,
    c: int,
)
    requires
        ratio > 0,
        0 <= c < width,
        kv.len() == width,
        score.len() == width,
        ratio == 4 ==> l.kv.len() == 8 * width && l.score.len() == 8 * width && r == 4 + pos as int
            % 4,
        ratio != 4 ==> l.kv.len() == ratio * width && l.score.len() == ratio * width && r
            == pos as int % ratio as int,
    ensures
        ({
            let w = stepped(l, ratio, width, pos, kv, score);
            &&& w.kv.len() == l.kv.len()
            &&& w.score.len() == l.score.len()
            &&& w.kv[r * width + c] == kv[c]
            &&& w.score[r * width + c] == score[c]
            &&& w.rows == l.rows
            &&& w.cap == l.cap
        }),
{
    let rows = if ratio == 4 {
        8int
    } else {
        ratio as int
    };
    assert(0 <= r < rows);
    assert(r * width + width <= rows * width) by (nonlinear_arith)
        requires
            r + 1 <= rows,
            0 <= width,
    ;
    a_write_changes_one_row(l.kv, width, r, kv, r, c);
    a_write_changes_one_row(l.score, width, r, score, r, c);
    if ratio == 4 {
        assert(4 * width <= r * width) by (nonlinear_arith)
            requires
                4 <= r,
                0 <= width,
        ;
        let i = r * width + c - 4 * width;
        let k = stored(l.kv, r * width, kv);
        let s = stored(l.score, r * width, score);
        the_second_half_moves_to_the_front(k, 4 * width, i);
        the_second_half_moves_to_the_front(s, 4 * width, i);
        assert(4 * width + i == r * width + c);
    }
}

/// The limit below which a column counts as empty is half of the score that stands
/// for none: the same digits with an exponent that is lower by one.
pub proof fn the_empty_limit_is_half_of_none()
    ensures
        kv_cache::NEG_INF == EMPTY_BELOW + 0x80_0000,
        float::gt(EMPTY_BELOW, kv_cache::NEG_INF),
{
}

/// A window that no token has written pools to nothing.
pub proof fn an_empty_window_pools_to_nothing(
    columns: Seq<Option<PoolColumn>>,
    kv: Seq<Bits32>,
    ratio: u32,
    dim: int,
    j: int,
)
    requires
        ratio > 0,
        0 <= j < dim,
        are_columns(
            columns,
            kv,
            bits::splat(
                kv_cache::NEG_INF,
                if ratio == 4 {
                    (16 * dim) as nat
                } else {
                    (ratio * dim) as nat
                },
            ),
            ratio,
            dim,
        ),
    ensures
        columns.len() == dim,
        columns[j] is None,
{
    let len = if ratio == 4 {
        16 * dim
    } else {
        ratio * dim
    };
    assert(len >= 0) by (nonlinear_arith)
        requires
            len == 16 * dim || len == ratio * dim,
            dim >= 0,
    ;
    let score = bits::splat(kv_cache::NEG_INF, len as nat);
    let ps = pooled(score, ratio, dim, j);
    assert(is_column(columns[j], ps, pooled(kv, ratio, dim, j)));
    assert forall|t: int| 0 <= t < ps.len() implies #[trigger] ps[t] == kv_cache::NEG_INF by {
        slot_in_window(ratio, dim, j, t, len);
    }
    the_empty_limit_is_half_of_none();
}

} // verus!
