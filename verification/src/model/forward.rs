//! The decisions of a forward pass: which row of the embedding table is read,
//! which experts a token is sent to, which cached rows a head attends to, how
//! the output projection falls into groups, and what each token leaves in the
//! caches. The arithmetic on activations is left to the caller.

use vstd::arithmetic::power2::*;
use vstd::prelude::*;

use crate::bits;
use crate::bits::Bits32;
use crate::config::{ModelConfig, INDEXER_TOP_K};
use crate::float;
use crate::float::{f16_to_f32, topk_indices_desc};
use crate::gguf;
use crate::gguf::{GgmlType, TensorErrorKind};
use crate::le;
use crate::le::get_u16;
use crate::model::compressor;
use crate::model::compressor::{compressor_decode_one, Emission};
use crate::model::indexer::indexer_decode_one;
use crate::model::kv_cache;
use crate::model::kv_cache::{CacheError, KvCache, KvView, LaneView};
use crate::model::weights::I32Slice;
use crate::model::{WeightMap, WeightMapView};
use crate::ops::matmul::WeightView;
use crate::text;
use crate::text::{and, and_int, and_num, lit};

verus! {

/// What the weights of a token's experts sum to: the bit pattern of 1.5.
pub const EXPERT_WEIGHT_SCALE: Bits32 = 0x3FC0_0000;

/// The least sum that the experts' probabilities are divided by: the bit
/// pattern of 1 / 16384.
pub const EXPERT_WEIGHT_SUM_EPS: Bits32 = 0x3880_0000;

/// What the gates of an expert are clamped to: the bit pattern of 10.
pub const SWIGLU_CLAMP_EXP: Bits32 = 0x4120_0000;

/// The tolerance of the residual streams' normalisation: the bit pattern of
/// 1e-6.
pub const HC_EPS: Bits32 = 0x3586_37BD;

/// Why a forward pass cannot go on.
#[derive(Clone, Copy, Debug, PartialEq, Eq, Structural)]
pub enum ForwardError {
    /// There is no token at the position.
    NoToken { pos: u32, n: usize },
    /// The width of all residual streams cannot be counted.
    HcOverflow,
    /// There is no embedding table.
    EmbdMissing,
    /// The embedding table is stored otherwise.
    EmbdType(GgmlType),
    /// The embedding table has no row for the token.
    EmbdToken { token: u32, n_vocab: usize },
    /// The data of the embedding table cannot be had.
    EmbdData(TensorErrorKind),
    /// The bytes of a row cannot be counted.
    EmbdRowSize,
    /// The place of a row cannot be counted.
    EmbdRowOffset,
    /// The place behind a row cannot be counted.
    EmbdRowEnd,
    /// The table is too short.
    EmbdRowBounds,
    /// The place of a row of the routing table cannot be counted.
    RouteOffset,
    /// The place behind a row of the routing table cannot be counted.
    RouteEnd,
    /// The routing table has no row for the token.
    RouteRow { token: u32, need: usize, have: usize },
    /// The routing table names an expert that is none.
    RouteExpert { token: u32, slot: usize, eid: i32, n_expert: usize },
    /// The width of a group cannot be counted.
    GroupDim,
    /// The first output projection is stored otherwise.
    GroupType,
    /// The first output projection has rows of another length.
    GroupIn { got: usize, want: usize },
    /// The first output projection has another number of rows.
    GroupOut { got: usize, want: usize },
    /// The bytes of a row cannot be counted.
    GroupRow,
    /// The bytes of a group cannot be counted.
    GroupBytes,
}

impl ForwardError {
    /// The words of the message.
    pub open spec fn text(self) -> Seq<char> {
        match self {
            ForwardError::NoToken { pos, n } => "forward_decode: pos "@ + text::decimal(pos as nat)
                + " out of range \u{2014} session has "@ + text::decimal(n as nat) + " tokens"@,
            ForwardError::HcOverflow => "HC dimension overflow"@,
            ForwardError::EmbdMissing => "token_embd.weight not found"@,
            ForwardError::EmbdType(t) => "token_embd.weight: expected F16, got "@ + t.name_text(),
            ForwardError::EmbdToken { token, n_vocab } => "token id "@ + text::decimal(
                token as nat,
            ) + " >= vocab size "@ + text::decimal(n_vocab as nat),
            ForwardError::EmbdData(e) => "Tensor '"@ + "token_embd.weight"@ + e.text(),
            ForwardError::EmbdRowSize => "embed_token: row size overflow"@,
            ForwardError::EmbdRowOffset => "embed_token: row offset overflow"@,
            ForwardError::EmbdRowEnd => "embed_token: row end overflow"@,
            ForwardError::EmbdRowBounds => "embed_token: row out of bounds"@,
            ForwardError::RouteOffset => "routed_moe: hash router token offset overflow"@,
            ForwardError::RouteEnd => "routed_moe: hash router row end overflow"@,
            ForwardError::RouteRow { token, need, have } =>
                "routed_moe: hash table out of range for token "@ + text::decimal(token as nat)
                + " (need "@ + text::decimal(need as nat) + ", have "@ + text::decimal(have as nat)
                + ")"@,
            ForwardError::RouteExpert { token, slot, eid, n_expert } => "routed_moe: tid2eid["@
                + text::decimal(token as nat) + ","@ + text::decimal(slot as nat) + "] = "@
                + text::signed_decimal(eid as int) + " not in 0.."@ + text::decimal(
                n_expert as nat,
            ),
            ForwardError::GroupDim => "grouped_out_decode: group_dim overflow"@,
            ForwardError::GroupType => "grouped_out_decode: attn_output_a must be Q8_0"@,
            ForwardError::GroupIn { got, want } => "grouped_out_decode: attn_output_a in_features "@
                + text::decimal(got as nat) + " != group_dim "@ + text::decimal(want as nat),
            ForwardError::GroupOut { got, want } =>
                "grouped_out_decode: attn_output_a out_features "@ + text::decimal(got as nat)
                + " != n_groups*rank "@ + text::decimal(want as nat),
            ForwardError::GroupRow => "grouped_out_decode: bytes_per_row overflow"@,
            ForwardError::GroupBytes => "grouped_out_decode: bytes_per_group overflow"@,
        }
    }

    /// A message for people.
    pub fn message(&self) -> (s: String)
        ensures
            s@ == self.text(),
    {
        match *self {
            ForwardError::NoToken { pos, n } => and(
                and_num(
                    and(
                        and_num(lit("forward_decode: pos "), pos as u64),
                        " out of range \u{2014} session has ",
                    ),
                    n as u64,
                ),
                " tokens",
            ),
            ForwardError::HcOverflow => lit("HC dimension overflow"),
            ForwardError::EmbdMissing => lit("token_embd.weight not found"),
            ForwardError::EmbdType(t) => and(
                lit("token_embd.weight: expected F16, got "),
                t.name(),
            ),
            ForwardError::EmbdToken { token, n_vocab } => and_num(
                and(and_num(lit("token id "), token as u64), " >= vocab size "),
                n_vocab as u64,
            ),
            ForwardError::EmbdData(e) => e.message_for("token_embd.weight"),
            ForwardError::EmbdRowSize => lit("embed_token: row size overflow"),
            ForwardError::EmbdRowOffset => lit("embed_token: row offset overflow"),
            ForwardError::EmbdRowEnd => lit("embed_token: row end overflow"),
            ForwardError::EmbdRowBounds => lit("embed_token: row out of bounds"),
            ForwardError::RouteOffset => lit("routed_moe: hash router token offset overflow"),
            ForwardError::RouteEnd => lit("routed_moe: hash router row end overflow"),
            ForwardError::RouteRow { token, need, have } => and(
                and_num(
                    and(
                        and_num(
                            and(
                                and_num(
                                    lit("routed_moe: hash table out of range for token "),
                                    token as u64,
                                ),
                                " (need ",
                            ),
                            need as u64,
                        ),
                        ", have ",
                    ),
                    have as u64,
                ),
                ")",
            ),
            ForwardError::RouteExpert { token, slot, eid, n_expert } => and_num(
                and(
                    and_int(
                        and(
                            and_num(
                                and(and_num(lit("routed_moe: tid2eid["), token as u64), ","),
                                slot as u64,
                            ),
                            "] = ",
                        ),
                        eid,
                    ),
                    " not in 0..",
                ),
                n_expert as u64,
            ),
            ForwardError::GroupDim => lit("grouped_out_decode: group_dim overflow"),
            ForwardError::GroupType => lit("grouped_out_decode: attn_output_a must be Q8_0"),
            ForwardError::GroupIn { got, want } => and_num(
                and(
                    and_num(lit("grouped_out_decode: attn_output_a in_features "), got as u64),
                    " != group_dim ",
                ),
                want as u64,
            ),
            ForwardError::GroupOut { got, want } => and_num(
                and(
                    and_num(lit("grouped_out_decode: attn_output_a out_features "), got as u64),
                    " != n_groups*rank ",
                ),
                want as u64,
            ),
            ForwardError::GroupRow => lit("grouped_out_decode: bytes_per_row overflow"),
            ForwardError::GroupBytes => lit("grouped_out_decode: bytes_per_group overflow"),
        }
    }
}

// ---------------------------------------------------------------------------
// The token
// ---------------------------------------------------------------------------

/// The token that is evaluated, and the width of all residual streams.
pub fn forward_start(tokens: &[u32], pos: u32, config: &ModelConfig) -> (r: Result<
    (u32, usize),
    ForwardError,
>)
    ensures
        match r {
            Ok((token, dim)) => pos < tokens@.len() && token == tokens@[pos as int] && dim
                == config.n_hc * config.n_embd,
            Err(e) => if pos >= tokens@.len() {
                e == (ForwardError::NoToken { pos, n: tokens@.len() as usize })
            } else {
                config.n_hc * config.n_embd > usize::MAX && e == ForwardError::HcOverflow
            },
        },
{
    if pos as usize >= tokens.len() {
        return Err(ForwardError::NoToken { pos, n: tokens.len() });
    }
    let n_hc: usize = config.n_hc as usize;
    match n_hc.checked_mul(config.n_embd as usize) {
        Some(dim) => Ok((tokens[pos as usize], dim)),
        None => Err(ForwardError::HcOverflow),
    }
}

/// The half-precision numbers in `bytes`, widened.
pub open spec fn widened_row(bytes: Seq<u8>) -> Seq<Bits32> {
    Seq::new(bytes.len() / 2, |i: int| float::widened(le::le16(bytes, 2 * i) as u16) as u32)
}

/// What is wrong with reading the row of `token` in the embedding table.
pub open spec fn embed_error(m: WeightMapView, token: u32) -> Option<ForwardError> {
    let name = "token_embd.weight"@;
    let info = m.content.tensors[name];
    let cols = info.dims[0] as usize;
    let rows = info.dims[1] as usize;
    if !m.content.tensors.contains_key(name) {
        Some(ForwardError::EmbdMissing)
    } else if info.dtype != GgmlType::F16 {
        Some(ForwardError::EmbdType(info.dtype))
    } else if token >= rows {
        Some(ForwardError::EmbdToken { token, n_vocab: rows })
    } else {
        match gguf::bytes_of(m.content, m.file, name) {
            Err(e) => Some(ForwardError::EmbdData(e)),
            Ok(bytes) => if 2 * cols > usize::MAX {
                Some(ForwardError::EmbdRowSize)
            } else if token * (2 * cols) > usize::MAX {
                Some(ForwardError::EmbdRowOffset)
            } else if token * (2 * cols) + 2 * cols > usize::MAX {
                Some(ForwardError::EmbdRowEnd)
            } else if token * (2 * cols) + 2 * cols > bytes.len() {
                Some(ForwardError::EmbdRowBounds)
            } else {
                None
            },
        }
    }
}

/// The row of `token` in the embedding table.
pub open spec fn embedding(m: WeightMapView, token: u32) -> Seq<Bits32> {
    let name = "token_embd.weight"@;
    let cols = m.content.tensors[name].dims[0] as usize;
    let bytes = gguf::bytes_of(m.content, m.file, name)->Ok_0;
    widened_row(bits::part(bytes, token as int, 2 * cols))
}

/// The embedding table, if there is one in half precision, has two dimensions
/// that can be counted.
pub open spec fn embedding_has_shape(m: WeightMapView) -> bool {
    let name = "token_embd.weight"@;
    let info = m.content.tensors[name];
    m.content.tensors.contains_key(name) && info.dtype == GgmlType::F16 ==> {
        &&& info.dims.len() >= 2
        &&& info.dims[0] <= usize::MAX
        &&& info.dims[1] <= usize::MAX
    }
}

/// The row of `token` in the embedding table.
pub fn embed_token(model: &WeightMap, token: u32) -> (r: Result<Vec<Bits32>, ForwardError>)
    requires
        embedding_has_shape(model@),
    ensures
        match r {
            Ok(row) => embed_error(model@, token) is None && row@ == embedding(model@, token)
                && row@.len() == model@.content.tensors["token_embd.weight"@].dims[0],
            Err(e) => embed_error(model@, token) == Some(e),
        },
{
    let info = match model.tensor_info("token_embd.weight") {
        Some(i) => i,
        None => return Err(ForwardError::EmbdMissing),
    };
    if info.dtype != GgmlType::F16 {
        return Err(ForwardError::EmbdType(info.dtype));
    }
    let cols: usize = info.dims[0] as usize;
    let rows: usize = info.dims[1] as usize;
    if token as usize >= rows {
        return Err(ForwardError::EmbdToken { token, n_vocab: rows });
    }
    let bytes = match model.tensor_bytes("token_embd.weight") {
        Ok(b) => b,
        Err(e) => return Err(ForwardError::EmbdData(e.kind)),
    };
    let size: usize = match cols.checked_mul(2) {
        Some(n) => n,
        None => return Err(ForwardError::EmbdRowSize),
    };
    let start: usize = match (token as usize).checked_mul(size) {
        Some(n) => n,
        None => return Err(ForwardError::EmbdRowOffset),
    };
    let end: usize = match start.checked_add(size) {
        Some(n) => n,
        None => return Err(ForwardError::EmbdRowEnd),
    };
    if end > bytes.len() {
        return Err(ForwardError::EmbdRowBounds);
    }
    let part = vstd::slice::slice_subrange(bytes, start, end);
    let mut row: Vec<Bits32> = Vec::new();
    let mut i: usize = 0;
    while i < cols
        invariant
            i <= cols,
            part@.len() == 2 * cols,
            row@ == widened_row(part@).take(i as int),
        decreases cols - i,
    {
        assert(part.len() == part@.len());
        row.push(f16_to_f32(get_u16(part, 2 * i)));
        i += 1;
        assert(row@ =~= widened_row(part@).take(i as int));
    }
    assert(row@ =~= widened_row(part@));
    assert(part@ == bits::part(bytes@, token as int, 2 * cols));
    Ok(row)
}

// ---------------------------------------------------------------------------
// Experts
// ---------------------------------------------------------------------------

/// What is wrong with the first wrong one of the first `n` experts in a row of
/// the routing table.
pub open spec fn experts_error(row: Seq<i32>, n: nat, token: u32, n_expert: usize) -> Option<
    ForwardError,
>
    decreases n,
{
    if n == 0 {
        None
    } else if experts_error(row, (n - 1) as nat, token, n_expert) is Some {
        experts_error(row, (n - 1) as nat, token, n_expert)
    } else if row[n - 1] < 0 || row[n - 1] >= n_expert {
        Some(
            ForwardError::RouteExpert {
                token,
                slot: (n - 1) as usize,
                eid: row[n - 1],
                n_expert,
            },
        )
    } else {
        None
    }
}

/// What is wrong with the row of `token` in a routing table with `used` experts
/// for each token.
pub open spec fn route_error(table: Seq<i32>, token: u32, used: usize, n_expert: usize) -> Option<
    ForwardError,
> {
    let start = token * used;
    if start > usize::MAX {
        Some(ForwardError::RouteOffset)
    } else if start + used > usize::MAX {
        Some(ForwardError::RouteEnd)
    } else if start + used > table.len() {
        Some(
            ForwardError::RouteRow {
                token,
                need: (start + used) as usize,
                have: table.len() as usize,
            },
        )
    } else {
        experts_error(bits::part(table, token as int, used as int), used as nat, token, n_expert)
    }
}

proof fn experts_error_stays(row: Seq<i32>, k: nat, n: nat, token: u32, n_expert: usize)
    requires
        k <= n,
        experts_error(row, k, token, n_expert) is Some,
    ensures
        experts_error(row, n, token, n_expert) == experts_error(row, k, token, n_expert),
    decreases n,
{
    if k < n {
        experts_error_stays(row, k, (n - 1) as nat, token, n_expert);
    }
}

/// The experts that the routing table names for `token`.
pub fn hash_experts(table: &I32Slice, token: u32, used: usize, n_expert: usize) -> (r: Result<
    Vec<usize>,
    ForwardError,
>)
    ensures
        match r {
            Ok(sel) => {
                &&& route_error(table@, token, used, n_expert) is None
                &&& sel@.len() == used
                &&& forall|i: int|
                    0 <= i < used ==> #[trigger] sel@[i] == table@[token * used + i] && sel@[i]
                        < n_expert
            },
            Err(e) => route_error(table@, token, used, n_expert) == Some(e),
        },
{
    let start: usize = match (token as usize).checked_mul(used) {
        Some(n) => n,
        None => return Err(ForwardError::RouteOffset),
    };
    let end: usize = match start.checked_add(used) {
        Some(n) => n,
        None => return Err(ForwardError::RouteEnd),
    };
    let have: usize = table.len();
    if end > have {
        return Err(ForwardError::RouteRow { token, need: end, have });
    }
    let ghost row = bits::part(table@, token as int, used as int);
    let mut sel: Vec<usize> = Vec::new();
    let mut slot: usize = 0;
    while slot < used
        invariant
            slot <= used,
            start == token * used,
            start + used <= table@.len(),
            start + used <= usize::MAX,
            row == bits::part(table@, token as int, used as int),
            experts_error(row, slot as nat, token, n_expert) is None,
            sel@.len() == slot,
            forall|i: int|
                0 <= i < slot ==> #[trigger] sel@[i] == table@[start + i] && sel@[i] < n_expert,
        decreases used - slot,
    {
        proof {
            if experts_error(row, (slot + 1) as nat, token, n_expert) is Some {
                experts_error_stays(row, (slot + 1) as nat, used as nat, token, n_expert);
            }
        }
        let eid: i32 = table.get(start + slot);
        assert(eid == row[slot as int]);
        if eid < 0 || eid as usize >= n_expert {
            return Err(ForwardError::RouteExpert { token, slot, eid, n_expert });
        }
        sel.push(eid as usize);
        slot += 1;
    }
    Ok(sel)
}

/// The `used` experts that `token` is sent to: those that the routing table
/// names, or without one those with the greatest scores, in descending order.
pub fn select_experts(
    table: Option<I32Slice>,
    token: u32,
    scores: &[Bits32],
    used: usize,
) -> (r: Result<Vec<usize>, ForwardError>)
    requires
        table is None ==> used <= scores@.len(),
    ensures
        match r {
            Ok(sel) => {
                &&& sel@.len() == used
                &&& forall|i: int| 0 <= i < used ==> #[trigger] sel@[i] < scores@.len()
                &&& match table {
                    Some(t) => route_error(t@, token, used, scores@.len() as usize) is None
                        && forall|i: int|
                        0 <= i < used ==> #[trigger] sel@[i] == t@[token * used + i],
                    None => float::is_topk(scores@, sel@),
                }
            },
            Err(e) => table is Some && route_error(
                table->Some_0@,
                token,
                used,
                scores@.len() as usize,
            ) == Some(e),
        },
{
    match table {
        Some(t) => hash_experts(&t, token, used, scores.len()),
        None => {
            let mut sel: Vec<usize> = vec![0; used];
            topk_indices_desc(scores, used, sel.as_mut_slice());
            proof {
                assert(scores.len() == scores@.len());
                float::topk_stays_in_range(scores@, sel@);
            }
            Ok(sel)
        },
    }
}

// ---------------------------------------------------------------------------
// Compressed rows
// ---------------------------------------------------------------------------

/// How many rows each indexer head has selected.
pub open spec fn rows_per_head(allowed: Seq<usize>, n_idx_head: usize) -> int {
    if n_idx_head > 0 {
        allowed.len() as int / n_idx_head as int
    } else {
        0
    }
}

/// The indexer head that decides for query head `h`.
pub open spec fn indexer_head(h: usize, n_idx_head: usize) -> int {
    if n_idx_head == 0 {
        0
    } else if h < n_idx_head {
        h as int
    } else {
        n_idx_head - 1
    }
}

/// Query head `h` sees compressed row `i`: all rows without an indexer, and
/// otherwise those that its indexer head has selected.
pub open spec fn sees_row(
    has_indexer: bool,
    allowed: Seq<usize>,
    n_idx_head: usize,
    h: usize,
    i: usize,
) -> bool {
    !has_indexer || bits::part(
        allowed,
        indexer_head(h, n_idx_head),
        rows_per_head(allowed, n_idx_head),
    ).contains(i)
}

/// Which of `n_comp` compressed rows query head `h` sees.
pub fn visible_rows(
    has_indexer: bool,
    allowed: &[usize],
    n_idx_head: usize,
    h: usize,
    n_comp: usize,
) -> (seen: Vec<bool>)
    ensures
        seen@.len() == n_comp,
        forall|i: int|
            0 <= i < n_comp ==> #[trigger] seen@[i] == sees_row(
                has_indexer,
                allowed@,
                n_idx_head,
                h,
                i as usize,
            ),
{
    let g: usize = if n_idx_head == 0 {
        0
    } else if h < n_idx_head {
        h
    } else {
        n_idx_head - 1
    };
    let k: usize = if n_idx_head > 0 {
        allowed.len() / n_idx_head
    } else {
        0
    };
    proof {
        assert(allowed.len() == allowed@.len());
        if n_idx_head > 0 {
            assert(n_idx_head * k <= allowed@.len()) by (nonlinear_arith)
                requires
                    k == allowed@.len() as int / n_idx_head as int,
                    n_idx_head > 0,
            ;
            bits::part_in_range(g as int, n_idx_head as int, k as int);
        }
    }
    let start: usize = g * k;
    let part = vstd::slice::slice_subrange(allowed, start, start + k);
    assert(part@ == bits::part(allowed@, g as int, k as int));
    let mut seen: Vec<bool> = vec![!has_indexer; n_comp];
    let mut j: usize = 0;
    while j < k
        invariant
            j <= k,
            part@.len() == k,
            seen@.len() == n_comp,
            forall|i: int|
                0 <= i < n_comp ==> #[trigger] seen@[i] == (!has_indexer || part@.take(
                    j as int,
                ).contains(i as usize)),
        decreases k - j,
    {
        let ghost before = seen@;
        let i: usize = part[j];
        if i < n_comp {
            seen[i] = true;
        }
        proof {
            let head = part@.take(j as int);
            let next = part@.take(j + 1);
            assert(next =~= head.push(i));
            assert forall|x: int| 0 <= x < n_comp implies #[trigger] seen@[x] == (!has_indexer
                || next.contains(x as usize)) by {
                assert(before[x] == (!has_indexer || head.contains(x as usize)));
                if head.contains(x as usize) {
                    let y = choose|y: int| 0 <= y < head.len() && head[y] == x as usize;
                    assert(next[y] == x as usize);
                }
                if next.contains(x as usize) {
                    let y = choose|y: int| 0 <= y < next.len() && next[y] == x as usize;
                    if y < j {
                        assert(head[y] == x as usize);
                    }
                }
                assert(next[j as int] == i);
            }
        }
        j += 1;
    }
    assert(part@.take(j as int) =~= part@);
    seen
}

/// While there are no more compressed rows than an indexer head may select,
/// every head sees them all.
pub proof fn few_rows_are_all_seen(
    scores: Seq<Bits32>,
    allowed: Seq<usize>,
    n_idx_head: usize,
    n_comp: usize,
    h: usize,
    i: usize,
)
    requires
        n_comp <= INDEXER_TOP_K,
        n_idx_head > 0,
        allowed.len() == n_idx_head * n_comp,
        scores.len() == n_idx_head * n_comp,
        forall|g: int|
            0 <= g < n_idx_head ==> float::is_topk(
                #[trigger] bits::part(scores, g, n_comp as int),
                bits::part(allowed, g, n_comp as int),
            ),
        i < n_comp,
    ensures
        sees_row(true, allowed, n_idx_head, h, i),
{
    let g = indexer_head(h, n_idx_head);
    assert(rows_per_head(allowed, n_idx_head) == n_comp) by (nonlinear_arith)
        requires
            rows_per_head(allowed, n_idx_head) == (n_idx_head * n_comp) / n_idx_head as int,
            n_idx_head > 0,
    ;
    bits::part_in_range(g, n_idx_head as int, n_comp as int);
    float::topk_of_all_is_all(
        bits::part(scores, g, n_comp as int),
        bits::part(allowed, g, n_comp as int),
        i as int,
    );
}

// ---------------------------------------------------------------------------
// Grouped output projection
// ---------------------------------------------------------------------------

/// Groups of the first output projection.
pub const N_GROUPS: usize = 8;

/// Rows of one group.
pub const GROUP_RANK: usize = 1024;

/// The width of one group.
pub open spec fn group_dim(n_head: usize, head_dim: usize) -> int {
    head_dim * (n_head / 8)
}

/// The bytes of one group.
pub open spec fn group_bytes(dim: int) -> int {
    1024 * (dim / 32 * 34)
}

/// What is wrong with the first output projection.
pub open spec fn group_error(w: WeightView, n_head: usize, head_dim: usize) -> Option<
    ForwardError,
> {
    let dim = group_dim(n_head, head_dim);
    if dim > usize::MAX {
        Some(ForwardError::GroupDim)
    } else if !(w is Q8_0) {
        Some(ForwardError::GroupType)
    } else if w.cols() != dim {
        Some(ForwardError::GroupIn { got: w.cols(), want: dim as usize })
    } else if w.rows() != 8192 {
        Some(ForwardError::GroupOut { got: w.rows(), want: 8192 })
    } else if dim / 32 * 34 > usize::MAX {
        Some(ForwardError::GroupRow)
    } else if group_bytes(dim) > usize::MAX {
        Some(ForwardError::GroupBytes)
    } else {
        None
    }
}

/// The groups of the first output projection: matrices of `GROUP_RANK` rows each,
/// one behind the other.
pub fn output_groups<'a>(w: WeightView<'a>, n_head: usize, head_dim: usize) -> (r: Result<
    Vec<WeightView<'a>>,
    ForwardError,
>)
    requires
        group_error(w, n_head, head_dim) is None ==> 8 * group_bytes(group_dim(n_head, head_dim))
            <= w.data().len(),
    ensures
        match r {
            Ok(v) => {
                &&& group_error(w, n_head, head_dim) is None
                &&& v@.len() == 8
                &&& forall|g: int|
                    0 <= g < 8 ==> {
                        &&& (#[trigger] v@[g]) is Q8_0
                        &&& v@[g].data() == bits::part(
                            w.data(),
                            g,
                            group_bytes(group_dim(n_head, head_dim)),
                        )
                        &&& v@[g].rows() == 1024
                        &&& v@[g].cols() == group_dim(n_head, head_dim)
                    }
            },
            Err(e) => group_error(w, n_head, head_dim) == Some(e),
        },
{
    let dim: usize = match head_dim.checked_mul(n_head / N_GROUPS) {
        Some(n) => n,
        None => return Err(ForwardError::GroupDim),
    };
    let (bytes, got_in, got_out) = match w {
        WeightView::Q8_0 { bytes, out_features, in_features } => (bytes, in_features, out_features),
        _ => return Err(ForwardError::GroupType),
    };
    if got_in != dim {
        return Err(ForwardError::GroupIn { got: got_in, want: dim });
    }
    if got_out != 8192 {
        return Err(ForwardError::GroupOut { got: got_out, want: 8192 });
    }
    let row: usize = match (dim / 32).checked_mul(34) {
        Some(n) => n,
        None => return Err(ForwardError::GroupRow),
    };
    let size: usize = match GROUP_RANK.checked_mul(row) {
        Some(n) => n,
        None => return Err(ForwardError::GroupBytes),
    };
    let mut v: Vec<WeightView<'a>> = Vec::new();
    let mut g: usize = 0;
    while g < N_GROUPS
        invariant
            g <= 8,
            8 * size <= bytes@.len(),
            w.data() == bytes@,
            v@.len() == g,
            forall|i: int|
                0 <= i < g ==> {
                    &&& (#[trigger] v@[i]) is Q8_0
                    &&& v@[i].data() == bits::part(bytes@, i, size as int)
                    &&& v@[i].rows() == 1024
                    &&& v@[i].cols() == dim
                },
        decreases 8 - g,
    {
        proof {
            bits::part_in_range(g as int, 8, size as int);
            assert(bytes.len() == bytes@.len());
        }
        let start: usize = g * size;
        v.push(
            WeightView::Q8_0 {
                bytes: vstd::slice::slice_subrange(bytes, start, start + size),
                out_features: GROUP_RANK,
                in_features: dim,
            },
        );
        g += 1;
    }
    Ok(v)
}

/// Row `r` of group `g` is row `1024 * g + r` of the whole projection.
pub proof fn group_rows_are_rows(data: Seq<u8>, g: int, r: int, row: int)
    requires
        0 <= g,
        0 <= r < 1024,
        row >= 0,
        (g + 1) * (1024 * row) <= data.len(),
    ensures
        bits::part(bits::part(data, g, 1024 * row), r, row) == bits::part(
            data,
            1024 * g + r,
            row,
        ),
{
    assert((1024 * g + r) * row == g * (1024 * row) + r * row) by (nonlinear_arith);
    assert((g + 1) * (1024 * row) == g * (1024 * row) + 1024 * row) by (nonlinear_arith);
    assert(0 <= r * row && r * row + row <= 1024 * row) by (nonlinear_arith)
        requires
            0 <= r < 1024,
            row >= 0,
    ;
    assert(0 <= g * (1024 * row)) by (nonlinear_arith)
        requires
            0 <= g,
            row >= 0,
    ;
    assert(bits::part(bits::part(data, g, 1024 * row), r, row) =~= bits::part(
        data,
        1024 * g + r,
        row,
    ));
}

// ---------------------------------------------------------------------------
// What a token leaves in the caches
// ---------------------------------------------------------------------------

/// A cache after `row` was pushed into the ring of layer `il`.
pub open spec fn with_row(v: KvView, il: int, row: Seq<Bits32>) -> KvView {
    KvView { raw: v.raw.update(il, kv_cache::pushed(v.raw[il], v.cap_raw, row)), ..v }
}

/// A cache after the compressor of layer `il`, if it has one, has taken the rows
/// of the token at `pos`.
pub open spec fn with_compressor_step(
    v: KvView,
    il: int,
    pos: u32,
    kv: Seq<Bits32>,
    score: Seq<Bits32>,
) -> KvView {
    let ratio = kv_cache::ratio_at(il);
    let width = kv_cache::coff_of(ratio) as int * 512;
    match v.comp[il] {
        None => v,
        Some(l) => KvView {
            comp: v.comp.update(
                il,
                Some(compressor::stepped(l, ratio, width, pos, kv, score)),
            ),
            ..v
        },
    }
}

/// A cache after the compressor of layer `il`, if it has one, was given a
/// compressed row.
pub open spec fn with_compressed(v: KvView, il: int, row: Seq<Bits32>) -> KvView {
    match v.comp[il] {
        None => v,
        Some(l) => KvView {
            comp: v.comp.update(il, Some(LaneView { rows: l.rows + row, ..l })),
            ..v
        },
    }
}

/// A cache after the indexer of layer `il`, if it has one, has taken the rows of
/// the token at `pos`.
pub open spec fn with_indexer_step(
    v: KvView,
    il: int,
    pos: u32,
    kv: Seq<Bits32>,
    score: Seq<Bits32>,
) -> KvView {
    match v.idx[il] {
        None => v,
        Some(l) => KvView {
            idx: v.idx.update(il, Some(compressor::stepped(l, 4, 256, pos, kv, score))),
            ..v
        },
    }
}

/// A cache after the indexer of layer `il`, if it has one, was given a compressed
/// row.
pub open spec fn with_indexed(v: KvView, il: int, row: Seq<Bits32>) -> KvView {
    match v.idx[il] {
        None => v,
        Some(l) => KvView {
            idx: v.idx.update(il, Some(LaneView { rows: l.rows + row, ..l })),
            ..v
        },
    }
}

/// What one token brings to a layer: the row for its ring, what it projects into
/// the compressor and the indexer, and the compressed rows that are due where it
/// is the last of a group.
pub struct TokenRows {
    pub row: Seq<Bits32>,
    pub comp_kv: Seq<Bits32>,
    pub comp_score: Seq<Bits32>,
    pub comp_row: Seq<Bits32>,
    pub idx_kv: Seq<Bits32>,
    pub idx_score: Seq<Bits32>,
    pub idx_row: Seq<Bits32>,
}

/// A cache after layer `il` has decoded the token at `pos`: the ring takes its
/// row, the compressor takes its rows and, where one is due, a compressed row,
/// and the indexer likewise.
pub open spec fn after_token(v: KvView, il: int, pos: u32, t: TokenRows) -> KvView {
    let ringed = with_row(v, il, t.row);
    let stepped = with_compressor_step(ringed, il, pos, t.comp_kv, t.comp_score);
    let compressed = if compressor::is_boundary(kv_cache::ratio_at(il), pos) {
        with_compressed(stepped, il, t.comp_row)
    } else {
        stepped
    };
    let indexed = with_indexer_step(compressed, il, pos, t.idx_kv, t.idx_score);
    if compressor::is_boundary(4, pos) {
        with_indexed(indexed, il, t.idx_row)
    } else {
        indexed
    }
}

/// The rows of lane `after` are those of lane `before`, and `row` behind them
/// where one is due.
pub open spec fn gains_row(
    before: Option<LaneView>,
    after: Option<LaneView>,
    due: bool,
    row: Seq<Bits32>,
) -> bool {
    match (before, after) {
        (None, None) => true,
        (Some(b), Some(a)) => a.cap == b.cap && a.rows == if due {
            b.rows + row
        } else {
            b.rows
        },
        _ => false,
    }
}

/// Decoding one token leaves one row in the ring of its layer, as the newest
/// one, at the cost of the oldest where the ring was full. It leaves one row in
/// the compressor exactly where the token is the last of `ratio`, and one in the
/// indexer exactly where it is the last of four. All other layers stay as they
/// were.
pub proof fn one_token_fills_one_layer(v: KvView, il: int, pos: u32, t: TokenRows)
    requires
        kv_cache::valid(v),
        0 <= il < v.raw.len(),
        t.row.len() == 512,
    ensures
        ({
            let w = after_token(v, il, pos, t);
            let ratio = kv_cache::ratio_at(il);
            let n = v.raw[il].len() as int;
            &&& w.cap_raw == v.cap_raw
            &&& w.raw.len() == v.raw.len()
            &&& w.comp.len() == v.comp.len()
            &&& w.idx.len() == v.idx.len()
            &&& w.raw[il] == kv_cache::pushed(v.raw[il], v.cap_raw, t.row)
            &&& w.raw[il].skip(w.raw[il].len() - 512) == t.row
            &&& w.raw[il].len() == if n < v.cap_raw * 512 {
                n + 512
            } else {
                n
            }
            &&& gains_row(v.comp[il], w.comp[il], (pos + 1) % ratio as int == 0, t.comp_row)
            &&& gains_row(v.idx[il], w.idx[il], (pos + 1) % 4 == 0, t.idx_row)
            &&& forall|j: int|
                0 <= j < v.raw.len() && j != il ==> {
                    &&& #[trigger] w.raw[j] == v.raw[j]
                    &&& w.comp[j] == v.comp[j]
                    &&& w.idx[j] == v.idx[j]
                }
        }),
{
    let w = after_token(v, il, pos, t);
    assert(v.raw[il].len() % 512 == 0 && v.raw[il].len() <= v.cap_raw * 512);
    assert(w.raw[il].skip(w.raw[il].len() - 512) =~= t.row);
}

/// Appends the row of a token to the ring of layer `il`.
pub fn store_row(kv: &mut KvCache, il: usize, row: &[Bits32])
    requires
        old(kv).wf(),
        il < old(kv)@.raw.len(),
        row@.len() == 512,
    ensures
        final(kv).wf(),
        final(kv)@ == with_row(old(kv)@, il as int, row@),
{
    proof {
        kv.wf_valid();
    }
    kv.layer_mut(il).push(row);
}

/// Takes the rows that the token at `pos` projects into the compressor of layer
/// `il`, if it has one; on the last token of a group the result says what the
/// compressed row pools.
pub fn step_compressor(
    kv: &mut KvCache,
    il: usize,
    kv_row: &[Bits32],
    score_row: &[Bits32],
    pos: u32,
) -> (r: Option<Emission>)
    requires
        old(kv).wf(),
        il < old(kv)@.raw.len(),
        kv_row@.len() == kv_cache::coff_of(kv_cache::ratio_at(il as int)) * 512,
        score_row@.len() == kv_cache::coff_of(kv_cache::ratio_at(il as int)) * 512,
    ensures
        final(kv).wf(),
        final(kv)@ == with_compressor_step(old(kv)@, il as int, pos, kv_row@, score_row@),
        match old(kv)@.comp[il as int] {
            None => r is None,
            Some(l) => {
                let ratio = kv_cache::ratio_at(il as int);
                let width = kv_cache::coff_of(ratio) as int * 512;
                let off = compressor::state_row(ratio, pos) * width;
                &&& r is Some <==> compressor::is_boundary(ratio, pos)
                &&& r matches Some(e) ==> e.comp_pos == pos + 1 - ratio && compressor::are_columns(
                    e.columns@,
                    compressor::stored(l.kv, off, kv_row@),
                    compressor::stored(l.score, off, score_row@),
                    ratio,
                    512,
                )
            },
        },
{
    match kv.compressor_mut(il) {
        None => None,
        Some(c) => compressor_decode_one(c, kv_row, score_row, pos),
    }
}

/// Appends a compressed row to the compressor of layer `il`, if it has one.
pub fn store_compressed(kv: &mut KvCache, il: usize, row: &[Bits32]) -> (r: Result<(), CacheError>)
    requires
        old(kv).wf(),
        il < old(kv)@.raw.len(),
    ensures
        final(kv).wf(),
        match old(kv)@.comp[il as int] {
            None => r is Ok && final(kv)@ == old(kv)@,
            Some(l) => match r {
                Ok(_) => row@.len() == 512 && l.rows.len() < l.cap * 512 && final(kv)@
                    == with_compressed(old(kv)@, il as int, row@),
                Err(e) => final(kv)@ == old(kv)@ && if row@.len() != 512 {
                    e == (CacheError::RowWidth { got: row@.len() as usize })
                } else {
                    l.rows.len() >= l.cap * 512 && e == (CacheError::Full { cap: l.cap as usize })
                },
            },
        },
{
    let ghost v = kv@;
    proof {
        kv.wf_valid();
    }
    let r = match kv.compressor_mut(il) {
        None => Ok(()),
        Some(c) => {
            assert(c@.rows.len() == c.n_comp * 512);
            c.push_comp(row)
        },
    };
    assert(v.comp.update(il as int, v.comp[il as int]) =~= v.comp);
    r
}

/// Takes the rows that the token at `pos` projects into the indexer of layer
/// `il`, if it has one; on the last token of a group the result says what the
/// compressed row pools.
pub fn step_indexer(
    kv: &mut KvCache,
    il: usize,
    kv_row: &[Bits32],
    score_row: &[Bits32],
    pos: u32,
) -> (r: Option<Emission>)
    requires
        old(kv).wf(),
        il < old(kv)@.raw.len(),
        kv_row@.len() == 256,
        score_row@.len() == 256,
    ensures
        final(kv).wf(),
        final(kv)@ == with_indexer_step(old(kv)@, il as int, pos, kv_row@, score_row@),
        match old(kv)@.idx[il as int] {
            None => r is None,
            Some(l) => {
                let off = compressor::state_row(4, pos) * 256;
                &&& r is Some <==> compressor::is_boundary(4, pos)
                &&& r matches Some(e) ==> e.comp_pos == pos - 3 && compressor::are_columns(
                    e.columns@,
                    compressor::stored(l.kv, off, kv_row@),
                    compressor::stored(l.score, off, score_row@),
                    4,
                    128,
                )
            },
        },
{
    match kv.indexer_mut(il) {
        None => None,
        Some(c) => indexer_decode_one(c, kv_row, score_row, pos),
    }
}

/// Appends a compressed row to the indexer of layer `il`, if it has one.
pub fn store_indexed(kv: &mut KvCache, il: usize, row: &[Bits32]) -> (r: Result<(), CacheError>)
    requires
        old(kv).wf(),
        il < old(kv)@.raw.len(),
    ensures
        final(kv).wf(),
        match old(kv)@.idx[il as int] {
            None => r is Ok && final(kv)@ == old(kv)@,
            Some(l) => match r {
                Ok(_) => row@.len() == 128 && l.rows.len() < l.cap * 128 && final(kv)@
                    == with_indexed(old(kv)@, il as int, row@),
                Err(e) => final(kv)@ == old(kv)@ && if row@.len() != 128 {
                    e == (CacheError::IdxRowWidth { got: row@.len() as usize })
                } else {
                    l.rows.len() >= l.cap * 128 && e == (CacheError::IdxFull { cap: l.cap as usize })
                },
            },
        },
{
    let ghost v = kv@;
    proof {
        kv.wf_valid();
    }
    let r = match kv.indexer_mut(il) {
        None => Ok(()),
        Some(c) => {
            assert(c@.rows.len() == c.n_comp * 128);
            c.push_comp(row)
        },
    };
    assert(v.idx.update(il as int, v.idx[il as int]) =~= v.idx);
    r
}

// ---------------------------------------------------------------------------
// How the parts relate
// ---------------------------------------------------------------------------

/// Where every indexer head has selected `k` rows, query head `h` sees exactly the
/// rows among selections `h * k` to `h * k + k - 1`. Query heads beyond the last
/// indexer head see what that one has selected. Without an indexer every row is
/// seen, and without indexer heads none.
pub proof fn a_head_sees_its_own_selection(
    allowed: Seq<usize>,
    n_idx_head: usize,
    k: int,
    h: usize,
    i: usize,
)
    requires
        k >= 0,
        allowed.len() == n_idx_head * k,
    ensures
        h < n_idx_head ==> (sees_row(true, allowed, n_idx_head, h, i) <==> exists|j: int|
            h * k <= j < h * k + k && #[trigger] allowed[j] == i),
        n_idx_head > 0 && h >= n_idx_head ==> (sees_row(true, allowed, n_idx_head, h, i)
            <==> exists|j: int|
            n_idx_head * k - k <= j < n_idx_head * k && #[trigger] allowed[j] == i),
        n_idx_head == 0 ==> !sees_row(true, allowed, n_idx_head, h, i),
        sees_row(false, allowed, n_idx_head, h, i),
{
    if n_idx_head > 0 {
        let g = if h < n_idx_head {
            h as int
        } else {
            n_idx_head - 1
        };
        assert((n_idx_head * k) / n_idx_head as int == k) by (nonlinear_arith)
            requires
                n_idx_head > 0,
        ;
        bits::part_in_range(g, n_idx_head as int, k);
        assert((n_idx_head - 1) * k == n_idx_head * k - k) by (nonlinear_arith);
        let p = bits::part(allowed, g, k);
        if p.contains(i) {
            let x = choose|x: int| 0 <= x < p.len() && p[x] == i;
            assert(allowed[g * k + x] == i);
        }
        if exists|j: int| g * k <= j < g * k + k && #[trigger] allowed[j] == i {
            let j = choose|j: int| g * k <= j < g * k + k && #[trigger] allowed[j] == i;
            assert(p[j - g * k] == i);
        }
    }
}

/// The eight groups together are as wide as all heads.
pub proof fn eight_groups_are_all_heads(n_head: usize, head_dim: usize)
    requires
        n_head % 8 == 0,
    ensures
        8 * group_dim(n_head, head_dim) == n_head * head_dim,
{
    let q = n_head as int / 8;
    assert(8 * (head_dim * q) == n_head * head_dim) by (nonlinear_arith)
        requires
            n_head == 8 * q,
    ;
}

/// A matrix of 8192 rows in blocks of 32 elements is accepted as the first output
/// projection exactly if a row holds an eighth of all heads. One with another row
/// length, another number of rows or another format is refused.
pub proof fn a_group_is_an_eighth_of_the_heads(w: WeightView, n_head: usize, head_dim: usize)
    requires
        n_head % 8 == 0,
        n_head * head_dim <= 0x10_0000,
    ensures
        group_error(w, n_head, head_dim) is None <==> w is Q8_0 && w.rows() == 8192 && 8 * w.cols()
            == n_head * head_dim,
        !(w is Q8_0) ==> group_error(w, n_head, head_dim) == Some(ForwardError::GroupType),
        w is Q8_0 && 8 * w.cols() != n_head * head_dim ==> (group_error(w, n_head, head_dim)
            matches Some(ForwardError::GroupIn { got, want }) && got == w.cols() && 8 * want
            == n_head * head_dim),
        w is Q8_0 && 8 * w.cols() == n_head * head_dim && w.rows() != 8192 ==> group_error(
            w,
            n_head,
            head_dim,
        ) == Some(ForwardError::GroupOut { got: w.rows(), want: 8192 }),
{
    eight_groups_are_all_heads(n_head, head_dim);
}

/// The groups of a well-sized projection are well sized, and together they are the
/// projection.
pub proof fn groups_are_eighths_of_the_projection(
    w: WeightView,
    v: WeightView,
    n_head: usize,
    head_dim: usize,
    g: int,
)
    requires
        group_error(w, n_head, head_dim) is None,
        w.well_sized(),
        0 <= g < 8,
        v is Q8_0,
        v.data() == bits::part(w.data(), g, group_bytes(group_dim(n_head, head_dim))),
        v.rows() == 1024,
        v.cols() == group_dim(n_head, head_dim),
    ensures
        v.well_sized(),
        v.row_bytes() == w.row_bytes(),
        8 * v.data().len() == w.data().len(),
        8 * v.rows() == w.rows(),
        v.cols() == w.cols(),
{
    let size = group_bytes(group_dim(n_head, head_dim));
    let row = w.row_bytes();
    assert(size == 1024 * row);
    assert(row >= 0);
    bits::part_in_range(g, 8, size);
}

/// The row of `token` in the embedding table: its entry `i` is the half-precision
/// number in the two bytes of the file that follow `token` full rows and `i`
/// entries.
pub proof fn an_embedding_is_its_row_of_the_table(m: WeightMapView, token: u32, i: int)
    requires
        embed_error(m, token) is None,
        embedding_has_shape(m),
        m.content.data_offset >= 0,
        0 <= i < m.content.tensors["token_embd.weight"@].dims[0],
    ensures
        ({
            let info = m.content.tensors["token_embd.weight"@];
            let at = m.content.data_offset + info.offset + 2 * (token * info.dims[0] + i);
            &&& embedding(m, token).len() == info.dims[0]
            &&& at + 2 <= m.file.len()
            &&& embedding(m, token)[i] == float::widened(
                (m.file[at] + 256 * m.file[at + 1]) as u16,
            )
        }),
{
    let info = m.content.tensors["token_embd.weight"@];
    let cols = info.dims[0] as int;
    let bytes = gguf::bytes_of(m.content, m.file, "token_embd.weight"@)->Ok_0;
    let row = bits::part(bytes, token as int, 2 * cols);
    assert(0 <= token * (2 * cols)) by (nonlinear_arith)
        requires
            cols >= 0,
    ;
    assert(token * (2 * cols) == 2 * (token * cols)) by (nonlinear_arith);
    assert(row.len() == 2 * cols);
    let start = m.content.data_offset + info.offset;
    assert(bytes[token * (2 * cols) + 2 * i] == m.file[start + token * (2 * cols) + 2 * i]);
    assert(bytes[token * (2 * cols) + 2 * i + 1] == m.file[start + token * (2 * cols) + 2 * i + 1]);
    assert(row[2 * i] == bytes[token * (2 * cols) + 2 * i]);
    assert(row[2 * i + 1] == bytes[token * (2 * cols) + 2 * i + 1]);
    float::widening_keeps_what_is_not_finite(le::le16(row, 2 * i) as u16);
}

/// A table with two dimensions in half precision, whose data lie in the file, has
/// a row for every token below its second dimension and for no other.
pub proof fn every_token_of_the_vocabulary_has_a_row(m: WeightMapView, token: u32)
    requires
        m.content.tensors.contains_key("token_embd.weight"@),
        m.content.tensors["token_embd.weight"@].dtype == GgmlType::F16,
        m.content.tensors["token_embd.weight"@].dims.len() == 2,
        m.content.data_offset >= 0,
        gguf::bytes_of(m.content, m.file, "token_embd.weight"@) is Ok,
        m.file.len() <= usize::MAX,
    ensures
        embed_error(m, token) is None <==> token < m.content.tensors["token_embd.weight"@].dims[1],
{
    let info = m.content.tensors["token_embd.weight"@];
    let cols = info.dims[0] as int;
    let rows = info.dims[1] as int;
    gguf::dims_fit(info.dims, 0);
    gguf::dims_fit(info.dims, 1);
    gguf::few_dimensions_multiply(info.dims);
    gguf::elements_take_whole_blocks((cols * rows) as nat, GgmlType::F16, (cols * rows) as nat);
    let bytes = gguf::bytes_of(m.content, m.file, "token_embd.weight"@)->Ok_0;
    assert(bytes.len() == 2 * (cols * rows));
    if token < rows {
        assert(token * (2 * cols) + 2 * cols <= 2 * (cols * rows)) by (nonlinear_arith)
            requires
                token + 1 <= rows,
                cols >= 0,
        ;
        assert(token * (2 * cols) >= 0) by (nonlinear_arith)
            requires
                cols >= 0,
        ;
    }
}

/// A row of the routing table is refused exactly where it names an expert that is
/// none, and then because of the first such one.
pub proof fn the_first_wrong_expert_is_reported(
    table: Seq<i32>,
    token: u32,
    used: usize,
    n_expert: usize,
    i: int,
)
    requires
        token * used + used <= table.len(),
        table.len() <= usize::MAX,
        0 <= i < used,
    ensures
        route_error(table, token, used, n_expert) is None ==> 0 <= table[token * used + i]
            < n_expert,
        route_error(table, token, used, n_expert) matches Some(e) ==> (e
            matches ForwardError::RouteExpert { token: t, slot, eid, n_expert: n } && {
            &&& t == token
            &&& n == n_expert
            &&& slot < used
            &&& eid == table[token * used + slot]
            &&& !(0 <= eid < n_expert)
            &&& i < slot ==> 0 <= table[token * used + i] < n_expert
        }),
{
    assert(token * used >= 0) by (nonlinear_arith);
    let row = bits::part(table, token as int, used as int);
    first_wrong_expert(row, used as nat, token, n_expert, i);
    assert(row[i] == table[token * used + i]);
}

proof fn first_wrong_expert(row: Seq<i32>, n: nat, token: u32, n_expert: usize, i: int)
    requires
        n <= row.len(),
        n <= usize::MAX,
    ensures
        experts_error(row, n, token, n_expert) is None && 0 <= i < n ==> 0 <= row[i] < n_expert,
        experts_error(row, n, token, n_expert) matches Some(e) ==> (e
            matches ForwardError::RouteExpert { token: t, slot, eid, n_expert: m } && {
            &&& t == token
            &&& m == n_expert
            &&& slot < n
            &&& eid == row[slot as int]
            &&& !(0 <= eid < n_expert)
            &&& 0 <= i < slot ==> 0 <= row[i] < n_expert
        }),
    decreases n,
{
    if n > 0 {
        first_wrong_expert(row, (n - 1) as nat, token, n_expert, i);
    }
}

/// A token writes its row of the compressor's window, 1024 numbers into one of the
/// last four rows of an even layer's window and 512 into one of the 128 rows of an
/// odd layer's, and 256 numbers into one of the last four rows of the indexer's.
pub proof fn a_token_writes_both_windows(
    v: KvView,
    il: int,
    pos: u32,
    kv: Seq<Bits32>,
    score: Seq<Bits32>,
    r: int,
    c: int,
)
    requires
        kv_cache::valid(v),
        2 <= il < v.raw.len(),
        il <= u32::MAX,
        kv.len() == score.len(),
        0 <= c < kv.len(),
    ensures
        v.comp[il] is Some && il % 2 == 0 && kv.len() == 1024 && r == 4 + pos as int % 4 ==> ({
            let l = with_compressor_step(v, il, pos, kv, score).comp[il]->Some_0;
            l.kv[r * 1024 + c] == kv[c] && l.score[r * 1024 + c] == score[c]
        }),
        v.comp[il] is Some && il % 2 == 1 && kv.len() == 512 && r == pos as int % 128 ==> ({
            let l = with_compressor_step(v, il, pos, kv, score).comp[il]->Some_0;
            l.kv[r * 512 + c] == kv[c] && l.score[r * 512 + c] == score[c]
        }),
        v.idx[il] is Some && kv.len() == 256 && r == 4 + pos as int % 4 ==> ({
            let l = with_indexer_step(v, il, pos, kv, score).idx[il]->Some_0;
            l.kv[r * 256 + c] == kv[c] && l.score[r * 256 + c] == score[c]
        }),
{
    if v.comp[il] is Some && il % 2 == 0 && kv.len() == 1024 && r == 4 + pos as int % 4 {
        compressor::a_token_writes_its_row(v.comp[il]->Some_0, 4, 1024, pos, kv, score, r, c);
    }
    if v.comp[il] is Some && il % 2 == 1 && kv.len() == 512 && r == pos as int % 128 {
        compressor::a_token_writes_its_row(v.comp[il]->Some_0, 128, 512, pos, kv, score, r, c);
    }
    if v.idx[il] is Some && kv.len() == 256 && r == 4 + pos as int % 4 {
        compressor::a_token_writes_its_row(v.idx[il]->Some_0, 4, 256, pos, kv, score, r, c);
    }
}

/// The constants of the experts and of the residual streams: three halves, one part
/// in 16384, ten, and the pattern nearest to one part in a million.
pub proof fn constants_are_these_numbers()
    ensures
        2 * float::magnitude32(EXPERT_WEIGHT_SCALE) == 3 * pow2(149),
        16384 * float::magnitude32(EXPERT_WEIGHT_SUM_EPS) == pow2(149),
        float::magnitude32(SWIGLU_CLAMP_EXP) == 10 * pow2(149),
        ({
            let m = 1000000 * float::magnitude32(HC_EPS);
            &&& 2 * (m - pow2(149)) <= 1000000 * pow2(106)
            &&& 2 * (pow2(149) - m) <= 1000000 * pow2(106)
        }),
{
    lemma2_to64();
    lemma2_to64_rest();
    lemma_pow2_adds(126, 23);
    lemma_pow2_adds(112, 37);
    lemma_pow2_adds(129, 20);
    lemma_pow2_adds(106, 43);
    assert(2 * (0xC0_0000 * pow2(126)) == 3 * pow2(149)) by (nonlinear_arith)
        requires
            pow2(149) == pow2(126) * 0x80_0000,
    ;
    assert(16384 * (0x80_0000 * pow2(112)) == pow2(149)) by (nonlinear_arith)
        requires
            pow2(149) == pow2(112) * 0x20_0000_0000,
    ;
    assert(0xA0_0000 * pow2(129) == 10 * pow2(149)) by (nonlinear_arith)
        requires
            pow2(149) == pow2(129) * 0x10_0000,
    ;
    let p = pow2(106) as int;
    assert(2 * (1000000 * (0x86_37BD * p) - p * 0x800_0000_0000) <= 1000000 * p && 2 * (p
        * 0x800_0000_0000 - 1000000 * (0x86_37BD * p)) <= 1000000 * p) by (nonlinear_arith)
        requires
            p >= 0,
    ;
}

/// What is wrong with an embedding table or a token is reported with what was found.
pub proof fn a_wrong_token_or_table_is_reported(m: WeightMapView, token: u32)
    ensures
        ({
            let info = m.content.tensors["token_embd.weight"@];
            &&& !m.content.tensors.contains_key("token_embd.weight"@) ==> embed_error(m, token)
                == Some(ForwardError::EmbdMissing)
            &&& m.content.tensors.contains_key("token_embd.weight"@) && info.dtype != GgmlType::F16
                ==> embed_error(m, token) == Some(ForwardError::EmbdType(info.dtype))
            &&& m.content.tensors.contains_key("token_embd.weight"@) && info.dtype == GgmlType::F16
                && info.dims.len() >= 2 && info.dims[1] <= token ==> embed_error(m, token) == Some(
                ForwardError::EmbdToken { token, n_vocab: info.dims[1] as usize },
            )
        }),
{
}

/// A routing table that is too short is reported with what it would need and what it
/// has.
pub proof fn a_short_table_is_reported(table: Seq<i32>, token: u32, used: usize, n_expert: usize)
    requires
        table.len() < token * used + used <= usize::MAX,
    ensures
        route_error(table, token, used, n_expert) == Some(
            ForwardError::RouteRow {
                token,
                need: (token * used + used) as usize,
                have: table.len() as usize,
            },
        ),
{
}

/// The numbers of a message stand in this order.
pub proof fn messages_name_what_was_found(a: u32, n: usize, m: usize, eid: i32)
    ensures
        (ForwardError::NoToken { pos: a, n }).text() == "forward_decode: pos "@ + text::decimal(
            a as nat,
        ) + " out of range \u{2014} session has "@ + text::decimal(n as nat) + " tokens"@,
        (ForwardError::EmbdToken { token: a, n_vocab: n }).text() == "token id "@ + text::decimal(
            a as nat,
        ) + " >= vocab size "@ + text::decimal(n as nat),
        (ForwardError::RouteRow { token: a, need: n, have: m }).text()
            == "routed_moe: hash table out of range for token "@ + text::decimal(a as nat)
            + " (need "@ + text::decimal(n as nat) + ", have "@ + text::decimal(m as nat) + ")"@,
        (ForwardError::RouteExpert { token: a, slot: n, eid, n_expert: m }).text()
            == "routed_moe: tid2eid["@ + text::decimal(a as nat) + ","@ + text::decimal(n as nat)
            + "] = "@ + text::signed_decimal(eid as int) + " not in 0.."@ + text::decimal(m as nat),
        (ForwardError::GroupIn { got: n, want: m }).text()
            == "grouped_out_decode: attn_output_a in_features "@ + text::decimal(n as nat)
            + " != group_dim "@ + text::decimal(m as nat),
        (ForwardError::GroupOut { got: n, want: m }).text()
            == "grouped_out_decode: attn_output_a out_features "@ + text::decimal(n as nat)
            + " != n_groups*rank "@ + text::decimal(m as nat),
{
}

} // verus!
