//! The weights of one layer, shown in place.

use vstd::prelude::*;

use crate::bits::Bits32;
use crate::cli;
use crate::config;
use crate::config::{layer_compress_ratio, ModelConfig};
use crate::gguf;
use crate::gguf::{GgmlType, TensorErrorKind};
use crate::le;
use crate::model::weights;
use crate::model::weights::{F32Slice, I32Slice, WeightError, WeightErrorKind};
use crate::model::{WeightMap, WeightMapView};
use crate::ops::matmul::{Matrix, WeightView};
use crate::text;
use crate::text::{and, and_num, lit};

verus! {

/// Weights of the streaming compressor, for layers with a compression ratio.
#[derive(Clone, Copy, Debug)]
pub struct CompressorLayerWeights<'a> {
    /// Key and value projection into the compressor's state.
    pub kv: WeightView<'a>,
    /// Score projection, of the same shape.
    pub gate: WeightView<'a>,
    /// Positional bias of the scores, one row for each place in a group.
    pub ape: WeightView<'a>,
    /// Norm weights of a pooled row.
    pub norm: F32Slice<'a>,
}

/// Weights of the indexer, for layers with compression ratio 4.
#[derive(Clone, Copy, Debug)]
pub struct IndexerLayerWeights<'a> {
    /// Query projection, all heads.
    pub attn_q_b: WeightView<'a>,
    /// Weight of each head in a score.
    pub proj: WeightView<'a>,
    /// Key and value projection of the indexer's compressor.
    pub compressor_kv: WeightView<'a>,
    /// Score projection of the indexer's compressor.
    pub compressor_gate: WeightView<'a>,
    /// Positional bias of the indexer's compressor.
    pub compressor_ape: WeightView<'a>,
    /// Norm weights of a pooled row.
    pub compressor_norm: F32Slice<'a>,
}

/// The weights of one transformer layer.
#[derive(Clone, Copy, Debug)]
pub struct LayerWeights<'a> {
    /// Norm weights before attention.
    pub attn_norm: F32Slice<'a>,
    /// First query projection.
    pub attn_q_a: WeightView<'a>,
    /// Norm weights between the two query projections.
    pub attn_q_a_norm: F32Slice<'a>,
    /// Second query projection.
    pub attn_q_b: WeightView<'a>,
    /// Key and value projection.
    pub attn_kv: WeightView<'a>,
    /// Norm weights of the key and value row.
    pub attn_kv_a_norm: F32Slice<'a>,
    /// Sink score of each head.
    pub attn_sinks: F32Slice<'a>,
    /// First output projection, in groups.
    pub attn_output_a: WeightView<'a>,
    /// Second output projection.
    pub attn_output_b: WeightView<'a>,
    /// Hyper-connection control around attention.
    pub hc_attn_fn: WeightView<'a>,
    pub hc_attn_scale: F32Slice<'a>,
    pub hc_attn_base: F32Slice<'a>,
    /// Hyper-connection control around the experts.
    pub hc_ffn_fn: WeightView<'a>,
    pub hc_ffn_scale: F32Slice<'a>,
    pub hc_ffn_base: F32Slice<'a>,
    /// Norm weights before the experts.
    pub ffn_norm: F32Slice<'a>,
    /// Router.
    pub ffn_gate_inp: WeightView<'a>,
    /// Gate of the shared expert.
    pub ffn_gate_shexp: WeightView<'a>,
    /// Up projection of the shared expert.
    pub ffn_up_shexp: WeightView<'a>,
    /// Down projection of the shared expert.
    pub ffn_down_shexp: WeightView<'a>,
    /// Gates of the routed experts.
    pub ffn_gate_exps: WeightView<'a>,
    /// Up projections of the routed experts.
    pub ffn_up_exps: WeightView<'a>,
    /// Down projections of the routed experts.
    pub ffn_down_exps: WeightView<'a>,
    /// The experts of each token, on layers that route by a table.
    pub ffn_gate_tid2eid: Option<I32Slice<'a>>,
    /// Bias of each expert in the selection, on layers that route by score.
    pub ffn_exp_probs_b: Option<F32Slice<'a>>,
    /// On layers with a compression ratio.
    pub compressor: Option<CompressorLayerWeights<'a>>,
    /// On layers with compression ratio 4.
    pub indexer: Option<IndexerLayerWeights<'a>>,
}

// ---------------------------------------------------------------------------
// What can go wrong
// ---------------------------------------------------------------------------

/// The tensor that a layer cannot be loaded for, and what is wrong with it.
pub type Fault = Option<(Seq<char>, WeightErrorKind)>;

/// The first fault of two.
pub open spec fn either(a: Fault, b: Fault) -> Fault {
    if a is Some {
        a
    } else {
        b
    }
}

/// What is wrong with the matrix `name`, stored as `want`.
pub open spec fn matrix_fault(m: WeightMapView, name: Seq<char>, want: GgmlType) -> Fault {
    match weights::matrix(m, name, want) {
        Ok(_) => None,
        Err(e) => Some((name, e)),
    }
}

/// What is wrong with the matrix `name`, however it is stored.
pub open spec fn any_fault(m: WeightMapView, name: Seq<char>) -> Fault {
    match weights::any_matrix(m, name) {
        Ok(_) => None,
        Err(e) => Some((name, e)),
    }
}

/// What is wrong with the half-precision matrix `name` of `rows` rows of
/// `cols` elements.
pub open spec fn shape_fault(m: WeightMapView, name: Seq<char>, cols: int, rows: int) -> Fault {
    match weights::matrix(m, name, GgmlType::F16) {
        Err(e) => Some((name, e)),
        Ok(x) => if x.cols == cols && x.rows == rows {
            None
        } else {
            Some(
                (
                    name,
                    WeightErrorKind::Shape {
                        cols: cols as usize,
                        rows: rows as usize,
                        got_cols: x.cols,
                        got_rows: x.rows,
                    },
                ),
            )
        },
    }
}

/// What is wrong with the `n` single-precision numbers `name`.
pub open spec fn floats_fault(m: WeightMapView, name: Seq<char>, n: usize) -> Fault {
    match weights::floats(m, name, n) {
        Ok(_) => None,
        Err(e) => Some((name, e)),
    }
}

/// What is wrong with the width of the hyper-connection control: `n_hc` before,
/// `n_hc` after, and `n_hc` by `n_hc` in between.
pub open spec fn hc_base_fault(n_hc: int) -> Fault {
    if n_hc + 2 > usize::MAX {
        Some((""@, WeightErrorKind::HcSumOverflow))
    } else if n_hc * (n_hc + 2) > usize::MAX {
        Some((""@, WeightErrorKind::HcOverflow))
    } else {
        None
    }
}

/// The name of the routing table.
pub open spec fn table_name(prefix: Seq<char>) -> Seq<char> {
    prefix + "ffn_gate_tid2eid.weight"@
}

/// The entries of the routing table: for each token, as many experts as are
/// used at a time.
pub open spec fn table_len(c: ModelConfig) -> int {
    c.n_expert_used * c.n_vocab
}

/// What is wrong with the routing table, if there is one.
pub open spec fn table_fault(m: WeightMapView, prefix: Seq<char>) -> Fault {
    let name = table_name(prefix);
    if !m.content.tensors.contains_key(name) {
        None
    } else if table_len(m.config) > usize::MAX {
        Some((name, WeightErrorKind::TableOverflow))
    } else {
        match weights::integers(m, name, table_len(m.config) as usize) {
            Ok(_) => None,
            Err(e) => Some((name, e)),
        }
    }
}

/// The name of the selection bias.
pub open spec fn bias_name(prefix: Seq<char>) -> Seq<char> {
    prefix + "exp_probs_b.bias"@
}

/// What is wrong with the selection bias, if there is one.
pub open spec fn bias_fault(m: WeightMapView, prefix: Seq<char>) -> Fault {
    if !m.content.tensors.contains_key(bias_name(prefix)) {
        None
    } else {
        floats_fault(m, bias_name(prefix), m.config.n_expert as usize)
    }
}

/// The width of the compressor's state: two lanes where the ratio is 4.
pub open spec fn lane_width(ratio: u32) -> usize {
    if ratio == 4 {
        1024
    } else {
        512
    }
}

/// What is wrong with the compressor.
pub open spec fn compressor_fault(m: WeightMapView, prefix: Seq<char>, ratio: u32) -> Fault {
    let n_embd = m.config.n_embd as int;
    let width = lane_width(ratio) as int;
    if ratio == 0 {
        None
    } else {
        either(
            shape_fault(m, prefix + "attn_compressor_kv.weight"@, n_embd, width),
            either(
                shape_fault(m, prefix + "attn_compressor_gate.weight"@, n_embd, width),
                either(
                    shape_fault(m, prefix + "attn_compressor_ape.weight"@, width, ratio as int),
                    floats_fault(m, prefix + "attn_compressor_norm.weight"@, 512),
                ),
            ),
        )
    }
}

/// What is wrong with the indexer.
pub open spec fn indexer_fault(m: WeightMapView, prefix: Seq<char>, ratio: u32) -> Fault {
    let n_embd = m.config.n_embd as int;
    let q_lora_rank = m.config.q_lora_rank as int;
    if ratio != 4 {
        None
    } else {
        either(
            shape_fault(m, prefix + "indexer.attn_q_b.weight"@, q_lora_rank, 8192),
            either(
                shape_fault(m, prefix + "indexer.proj.weight"@, n_embd, 64),
                either(
                    shape_fault(m, prefix + "indexer_compressor_kv.weight"@, n_embd, 256),
                    either(
                        shape_fault(m, prefix + "indexer_compressor_gate.weight"@, n_embd, 256),
                        either(
                            shape_fault(m, prefix + "indexer_compressor_ape.weight"@, 256, 4),
                            floats_fault(m, prefix + "indexer_compressor_norm.weight"@, 128),
                        ),
                    ),
                ),
            ),
        )
    }
}

/// What is wrong with the attention weights.
pub open spec fn attention_fault(m: WeightMapView, prefix: Seq<char>) -> Fault {
    let n_embd = m.config.n_embd as usize;
    let n_head = m.config.n_head as usize;
    let q_lora_rank = m.config.q_lora_rank as usize;
    either(
        floats_fault(m, prefix + "attn_norm.weight"@, n_embd),
        either(
            floats_fault(m, prefix + "attn_q_a_norm.weight"@, q_lora_rank),
            either(
                matrix_fault(m, prefix + "attn_q_b.weight"@, GgmlType::Q8_0),
                either(
                    matrix_fault(m, prefix + "attn_kv.weight"@, GgmlType::Q8_0),
                    either(
                        floats_fault(m, prefix + "attn_kv_a_norm.weight"@, 512),
                        either(
                            floats_fault(m, prefix + "attn_sinks.weight"@, n_head),
                            either(
                                matrix_fault(m, prefix + "attn_output_a.weight"@, GgmlType::Q8_0),
                                matrix_fault(m, prefix + "attn_output_b.weight"@, GgmlType::Q8_0),
                            ),
                        ),
                    ),
                ),
            ),
        ),
    )
}

/// What is wrong with the hyper-connection control.
pub open spec fn hc_fault(m: WeightMapView, prefix: Seq<char>) -> Fault {
    let n_hc = m.config.n_hc as int;
    let hc_base = (n_hc * (n_hc + 2)) as usize;
    either(
        matrix_fault(m, prefix + "hc_attn_fn.weight"@, GgmlType::F16),
        either(
            floats_fault(m, prefix + "hc_attn_scale.weight"@, 3),
            either(
                floats_fault(m, prefix + "hc_attn_base.weight"@, hc_base),
                either(
                    matrix_fault(m, prefix + "hc_ffn_fn.weight"@, GgmlType::F16),
                    either(
                        floats_fault(m, prefix + "hc_ffn_scale.weight"@, 3),
                        floats_fault(m, prefix + "hc_ffn_base.weight"@, hc_base),
                    ),
                ),
            ),
        ),
    )
}

/// What is wrong with the weights of the experts.
pub open spec fn ffn_fault(m: WeightMapView, prefix: Seq<char>) -> Fault {
    let n_embd = m.config.n_embd as usize;
    either(
        floats_fault(m, prefix + "ffn_norm.weight"@, n_embd),
        either(
            matrix_fault(m, prefix + "ffn_gate_inp.weight"@, GgmlType::F16),
            either(
                matrix_fault(m, prefix + "ffn_gate_shexp.weight"@, GgmlType::Q8_0),
                either(
                    matrix_fault(m, prefix + "ffn_up_shexp.weight"@, GgmlType::Q8_0),
                    either(
                        matrix_fault(m, prefix + "ffn_down_shexp.weight"@, GgmlType::Q8_0),
                        either(
                            any_fault(m, prefix + "ffn_gate_exps.weight"@),
                            either(
                                any_fault(m, prefix + "ffn_up_exps.weight"@),
                                any_fault(m, prefix + "ffn_down_exps.weight"@),
                            ),
                        ),
                    ),
                ),
            ),
        ),
    )
}

/// What is wrong first with the tensors whose names start with `prefix`, as the
/// weights of layer `il`.
pub open spec fn layer_fault(m: WeightMapView, prefix: Seq<char>, il: u32) -> Fault {
    let ratio = config::compress_ratio(il);
    either(
        hc_base_fault(m.config.n_hc as int),
        either(
            table_fault(m, prefix),
            either(
                bias_fault(m, prefix),
                either(
                    matrix_fault(m, prefix + "attn_q_a.weight"@, GgmlType::Q8_0),
                    either(
                        compressor_fault(m, prefix, ratio),
                        either(
                            indexer_fault(m, prefix, ratio),
                            either(
                                attention_fault(m, prefix),
                                either(hc_fault(m, prefix), ffn_fault(m, prefix)),
                            ),
                        ),
                    ),
                ),
            ),
        ),
    )
}

// ---------------------------------------------------------------------------
// What is loaded
// ---------------------------------------------------------------------------

impl<'a> CompressorLayerWeights<'a> {
    /// These are the tensors of the compressor.
    pub open spec fn is_loaded(&self, m: WeightMapView, prefix: Seq<char>, ratio: u32) -> bool {
        &&& weights::matrix(m, prefix + "attn_compressor_kv.weight"@, GgmlType::F16) == Ok::<Matrix, WeightErrorKind>(self.kv@)
        &&& weights::matrix(m, prefix + "attn_compressor_gate.weight"@, GgmlType::F16) == Ok::<Matrix, WeightErrorKind>(self.gate@)
        &&& weights::matrix(m, prefix + "attn_compressor_ape.weight"@, GgmlType::F16) == Ok::<Matrix, WeightErrorKind>(self.ape@)
        &&& weights::floats(m, prefix + "attn_compressor_norm.weight"@, 512) == Ok::<Seq<Bits32>, WeightErrorKind>(self.norm@)
        &&& self.kv@.cols == m.config.n_embd && self.kv@.rows == lane_width(ratio)
        &&& self.gate@.cols == m.config.n_embd && self.gate@.rows == lane_width(ratio)
        &&& self.ape@.cols == lane_width(ratio) && self.ape@.rows == ratio
    }
}

impl<'a> IndexerLayerWeights<'a> {
    /// These are the tensors of the indexer.
    pub open spec fn is_loaded(&self, m: WeightMapView, prefix: Seq<char>) -> bool {
        &&& weights::matrix(m, prefix + "indexer.attn_q_b.weight"@, GgmlType::F16) == Ok::<Matrix, WeightErrorKind>(self.attn_q_b@)
        &&& weights::matrix(m, prefix + "indexer.proj.weight"@, GgmlType::F16) == Ok::<Matrix, WeightErrorKind>(self.proj@)
        &&& weights::matrix(m, prefix + "indexer_compressor_kv.weight"@, GgmlType::F16) == Ok::<Matrix, WeightErrorKind>(self.compressor_kv@)
        &&& weights::matrix(m, prefix + "indexer_compressor_gate.weight"@, GgmlType::F16) == Ok::<Matrix, WeightErrorKind>(self.compressor_gate@)
        &&& weights::matrix(m, prefix + "indexer_compressor_ape.weight"@, GgmlType::F16) == Ok::<Matrix, WeightErrorKind>(self.compressor_ape@)
        &&& weights::floats(m, prefix + "indexer_compressor_norm.weight"@, 128) == Ok::<Seq<Bits32>, WeightErrorKind>(self.compressor_norm@)
        &&& self.attn_q_b@.cols == m.config.q_lora_rank && self.attn_q_b@.rows == 8192
        &&& self.proj@.cols == m.config.n_embd && self.proj@.rows == 64
        &&& self.compressor_kv@.cols == m.config.n_embd && self.compressor_kv@.rows == 256
        &&& self.compressor_gate@.cols == m.config.n_embd && self.compressor_gate@.rows == 256
        &&& self.compressor_ape@.cols == 256 && self.compressor_ape@.rows == 4
    }
}

/// Attention weights.
#[derive(Clone, Copy)]
pub struct Attention<'a> {
    pub attn_norm: F32Slice<'a>,
    pub attn_q_a_norm: F32Slice<'a>,
    pub attn_q_b: WeightView<'a>,
    pub attn_kv: WeightView<'a>,
    pub attn_kv_a_norm: F32Slice<'a>,
    pub attn_sinks: F32Slice<'a>,
    pub attn_output_a: WeightView<'a>,
    pub attn_output_b: WeightView<'a>,
}

impl<'a> Attention<'a> {
    /// These are the tensors under `prefix`.
    pub open spec fn is_loaded(&self, m: WeightMapView, prefix: Seq<char>) -> bool {
        let n_embd = m.config.n_embd as usize;
        let n_head = m.config.n_head as usize;
        let q_lora_rank = m.config.q_lora_rank as usize;
        &&& weights::floats(m, prefix + "attn_norm.weight"@, n_embd) == Ok::<Seq<Bits32>, WeightErrorKind>(self.attn_norm@)
        &&& weights::floats(m, prefix + "attn_q_a_norm.weight"@, q_lora_rank) == Ok::<Seq<Bits32>, WeightErrorKind>(self.attn_q_a_norm@)
        &&& weights::matrix(m, prefix + "attn_q_b.weight"@, GgmlType::Q8_0) == Ok::<Matrix, WeightErrorKind>(self.attn_q_b@)
        &&& weights::matrix(m, prefix + "attn_kv.weight"@, GgmlType::Q8_0) == Ok::<Matrix, WeightErrorKind>(self.attn_kv@)
        &&& weights::floats(m, prefix + "attn_kv_a_norm.weight"@, 512) == Ok::<Seq<Bits32>, WeightErrorKind>(self.attn_kv_a_norm@)
        &&& weights::floats(m, prefix + "attn_sinks.weight"@, n_head) == Ok::<Seq<Bits32>, WeightErrorKind>(self.attn_sinks@)
        &&& weights::matrix(m, prefix + "attn_output_a.weight"@, GgmlType::Q8_0) == Ok::<Matrix, WeightErrorKind>(self.attn_output_a@)
        &&& weights::matrix(m, prefix + "attn_output_b.weight"@, GgmlType::Q8_0) == Ok::<Matrix, WeightErrorKind>(self.attn_output_b@)
    }
}

/// Hyper-connection control.
#[derive(Clone, Copy)]
pub struct Control<'a> {
    pub hc_attn_fn: WeightView<'a>,
    pub hc_attn_scale: F32Slice<'a>,
    pub hc_attn_base: F32Slice<'a>,
    pub hc_ffn_fn: WeightView<'a>,
    pub hc_ffn_scale: F32Slice<'a>,
    pub hc_ffn_base: F32Slice<'a>,
}

impl<'a> Control<'a> {
    /// These are the tensors under `prefix`.
    pub open spec fn is_loaded(&self, m: WeightMapView, prefix: Seq<char>) -> bool {
        let hc_base = (m.config.n_hc * (m.config.n_hc + 2)) as usize;
        &&& weights::matrix(m, prefix + "hc_attn_fn.weight"@, GgmlType::F16) == Ok::<Matrix, WeightErrorKind>(self.hc_attn_fn@)
        &&& weights::floats(m, prefix + "hc_attn_scale.weight"@, 3) == Ok::<Seq<Bits32>, WeightErrorKind>(self.hc_attn_scale@)
        &&& weights::floats(m, prefix + "hc_attn_base.weight"@, hc_base) == Ok::<Seq<Bits32>, WeightErrorKind>(self.hc_attn_base@)
        &&& weights::matrix(m, prefix + "hc_ffn_fn.weight"@, GgmlType::F16) == Ok::<Matrix, WeightErrorKind>(self.hc_ffn_fn@)
        &&& weights::floats(m, prefix + "hc_ffn_scale.weight"@, 3) == Ok::<Seq<Bits32>, WeightErrorKind>(self.hc_ffn_scale@)
        &&& weights::floats(m, prefix + "hc_ffn_base.weight"@, hc_base) == Ok::<Seq<Bits32>, WeightErrorKind>(self.hc_ffn_base@)
    }
}

/// Weights of the experts.
#[derive(Clone, Copy)]
pub struct Experts<'a> {
    pub ffn_norm: F32Slice<'a>,
    pub ffn_gate_inp: WeightView<'a>,
    pub ffn_gate_shexp: WeightView<'a>,
    pub ffn_up_shexp: WeightView<'a>,
    pub ffn_down_shexp: WeightView<'a>,
    pub ffn_gate_exps: WeightView<'a>,
    pub ffn_up_exps: WeightView<'a>,
    pub ffn_down_exps: WeightView<'a>,
}

impl<'a> Experts<'a> {
    /// These are the tensors under `prefix`.
    pub open spec fn is_loaded(&self, m: WeightMapView, prefix: Seq<char>) -> bool {
        let n_embd = m.config.n_embd as usize;
        &&& weights::floats(m, prefix + "ffn_norm.weight"@, n_embd) == Ok::<Seq<Bits32>, WeightErrorKind>(self.ffn_norm@)
        &&& weights::matrix(m, prefix + "ffn_gate_inp.weight"@, GgmlType::F16) == Ok::<Matrix, WeightErrorKind>(self.ffn_gate_inp@)
        &&& weights::matrix(m, prefix + "ffn_gate_shexp.weight"@, GgmlType::Q8_0) == Ok::<Matrix, WeightErrorKind>(self.ffn_gate_shexp@)
        &&& weights::matrix(m, prefix + "ffn_up_shexp.weight"@, GgmlType::Q8_0) == Ok::<Matrix, WeightErrorKind>(self.ffn_up_shexp@)
        &&& weights::matrix(m, prefix + "ffn_down_shexp.weight"@, GgmlType::Q8_0) == Ok::<Matrix, WeightErrorKind>(self.ffn_down_shexp@)
        &&& weights::any_matrix(m, prefix + "ffn_gate_exps.weight"@) == Ok::<Matrix, WeightErrorKind>(self.ffn_gate_exps@)
        &&& weights::any_matrix(m, prefix + "ffn_up_exps.weight"@) == Ok::<Matrix, WeightErrorKind>(self.ffn_up_exps@)
        &&& weights::any_matrix(m, prefix + "ffn_down_exps.weight"@) == Ok::<Matrix, WeightErrorKind>(self.ffn_down_exps@)
    }
}

impl<'a> LayerWeights<'a> {
    /// The attention weights.
    pub open spec fn attention(&self) -> Attention<'a> {
        Attention {
            attn_norm: self.attn_norm,
            attn_q_a_norm: self.attn_q_a_norm,
            attn_q_b: self.attn_q_b,
            attn_kv: self.attn_kv,
            attn_kv_a_norm: self.attn_kv_a_norm,
            attn_sinks: self.attn_sinks,
            attn_output_a: self.attn_output_a,
            attn_output_b: self.attn_output_b,
        }
    }

    /// The hyper-connection control.
    pub open spec fn control(&self) -> Control<'a> {
        Control {
            hc_attn_fn: self.hc_attn_fn,
            hc_attn_scale: self.hc_attn_scale,
            hc_attn_base: self.hc_attn_base,
            hc_ffn_fn: self.hc_ffn_fn,
            hc_ffn_scale: self.hc_ffn_scale,
            hc_ffn_base: self.hc_ffn_base,
        }
    }

    /// The weights of the experts.
    pub open spec fn experts(&self) -> Experts<'a> {
        Experts {
            ffn_norm: self.ffn_norm,
            ffn_gate_inp: self.ffn_gate_inp,
            ffn_gate_shexp: self.ffn_gate_shexp,
            ffn_up_shexp: self.ffn_up_shexp,
            ffn_down_shexp: self.ffn_down_shexp,
            ffn_gate_exps: self.ffn_gate_exps,
            ffn_up_exps: self.ffn_up_exps,
            ffn_down_exps: self.ffn_down_exps,
        }
    }

    /// All weights are the tensors whose names start with `prefix`; tables,
    /// compressor and indexer are there where they should be.
    pub open spec fn is_loaded(&self, m: WeightMapView, prefix: Seq<char>, il: u32) -> bool {
        let ratio = config::compress_ratio(il);
        &&& self.attention().is_loaded(m, prefix)
        &&& self.control().is_loaded(m, prefix)
        &&& self.experts().is_loaded(m, prefix)
        &&& weights::matrix(m, prefix + "attn_q_a.weight"@, GgmlType::Q8_0) == Ok::<
            Matrix,
            WeightErrorKind,
        >(self.attn_q_a@)
        &&& match self.ffn_gate_tid2eid {
            Some(t) => m.content.tensors.contains_key(table_name(prefix)) && weights::integers(
                m,
                table_name(prefix),
                table_len(m.config) as usize,
            ) == Ok::<Seq<i32>, WeightErrorKind>(t@),
            None => !m.content.tensors.contains_key(table_name(prefix)),
        }
        &&& match self.ffn_exp_probs_b {
            Some(b) => m.content.tensors.contains_key(bias_name(prefix)) && weights::floats(
                m,
                bias_name(prefix),
                m.config.n_expert as usize,
            ) == Ok::<Seq<Bits32>, WeightErrorKind>(b@),
            None => !m.content.tensors.contains_key(bias_name(prefix)),
        }
        &&& match self.compressor {
            Some(c) => ratio != 0 && c.is_loaded(m, prefix, ratio),
            None => ratio == 0,
        }
        &&& match self.indexer {
            Some(x) => ratio == 4 && x.is_loaded(m, prefix),
            None => ratio != 4,
        }
    }
}

// ---------------------------------------------------------------------------
// Shapes
// ---------------------------------------------------------------------------

/// The matrices of a compressor have dimensions.
pub open spec fn compressor_has_shapes(m: WeightMapView, prefix: Seq<char>) -> bool {
    &&& weights::has_shape(m, prefix + "attn_compressor_kv.weight"@, GgmlType::F16)
    &&& weights::has_shape(m, prefix + "attn_compressor_gate.weight"@, GgmlType::F16)
    &&& weights::has_shape(m, prefix + "attn_compressor_ape.weight"@, GgmlType::F16)
}

/// The matrices of an indexer have dimensions.
pub open spec fn indexer_has_shapes(m: WeightMapView, prefix: Seq<char>) -> bool {
    &&& weights::has_shape(m, prefix + "indexer.attn_q_b.weight"@, GgmlType::F16)
    &&& weights::has_shape(m, prefix + "indexer.proj.weight"@, GgmlType::F16)
    &&& weights::has_shape(m, prefix + "indexer_compressor_kv.weight"@, GgmlType::F16)
    &&& weights::has_shape(m, prefix + "indexer_compressor_gate.weight"@, GgmlType::F16)
    &&& weights::has_shape(m, prefix + "indexer_compressor_ape.weight"@, GgmlType::F16)
}

/// The attention matrices have dimensions.
pub open spec fn attention_has_shapes(m: WeightMapView, prefix: Seq<char>) -> bool {
    &&& weights::has_shape(m, prefix + "attn_q_b.weight"@, GgmlType::Q8_0)
    &&& weights::has_shape(m, prefix + "attn_kv.weight"@, GgmlType::Q8_0)
    &&& weights::has_shape(m, prefix + "attn_output_a.weight"@, GgmlType::Q8_0)
    &&& weights::has_shape(m, prefix + "attn_output_b.weight"@, GgmlType::Q8_0)
}

/// The matrices of the hyper-connection control have dimensions.
pub open spec fn hc_has_shapes(m: WeightMapView, prefix: Seq<char>) -> bool {
    &&& weights::has_shape(m, prefix + "hc_attn_fn.weight"@, GgmlType::F16)
    &&& weights::has_shape(m, prefix + "hc_ffn_fn.weight"@, GgmlType::F16)
}

/// The matrices of the experts have dimensions.
pub open spec fn ffn_has_shapes(m: WeightMapView, prefix: Seq<char>) -> bool {
    &&& weights::has_shape(m, prefix + "ffn_gate_inp.weight"@, GgmlType::F16)
    &&& weights::has_shape(m, prefix + "ffn_gate_shexp.weight"@, GgmlType::Q8_0)
    &&& weights::has_shape(m, prefix + "ffn_up_shexp.weight"@, GgmlType::Q8_0)
    &&& weights::has_shape(m, prefix + "ffn_down_shexp.weight"@, GgmlType::Q8_0)
    &&& weights::has_any_shape(m, prefix + "ffn_gate_exps.weight"@)
    &&& weights::has_any_shape(m, prefix + "ffn_up_exps.weight"@)
    &&& weights::has_any_shape(m, prefix + "ffn_down_exps.weight"@)
}

/// Every matrix that layer `il` takes from the tensors under `prefix` has a
/// dimension.
pub open spec fn layer_has_shapes(m: WeightMapView, prefix: Seq<char>, il: u32) -> bool {
    let ratio = config::compress_ratio(il);
    &&& weights::has_shape(m, prefix + "attn_q_a.weight"@, GgmlType::Q8_0)
    &&& ratio != 0 ==> compressor_has_shapes(m, prefix)
    &&& ratio == 4 ==> indexer_has_shapes(m, prefix)
    &&& attention_has_shapes(m, prefix)
    &&& hc_has_shapes(m, prefix)
    &&& ffn_has_shapes(m, prefix)
}

/// Where every matrix of a file has a dimension, so have those of each layer.
pub proof fn shapes_reach_every_layer(m: WeightMapView, prefix: Seq<char>, il: u32)
    requires
        weights::has_shapes(m),
    ensures
        layer_has_shapes(m, prefix, il),
{
    weights::shape_of_any(m, prefix + "ffn_gate_exps.weight"@);
    weights::shape_of_any(m, prefix + "ffn_up_exps.weight"@);
    weights::shape_of_any(m, prefix + "ffn_down_exps.weight"@);
}

// ---------------------------------------------------------------------------
// Loading
// ---------------------------------------------------------------------------

fn named(prefix: &str, name: &str) -> (s: String)
    ensures
        s@ == prefix@ + name@,
{
    and(lit(prefix), name)
}

fn shaped<'a>(map: &WeightMap<'a>, name: &str, cols: usize, rows: usize) -> (r: Result<
    WeightView<'a>,
    WeightError,
>)
    requires
        weights::has_shape(map@, name@, GgmlType::F16),
    ensures
        match r {
            Ok(w) => shape_fault(map@, name@, cols as int, rows as int) is None
                && weights::matrix(map@, name@, GgmlType::F16) == Ok::<Matrix, WeightErrorKind>(w@)
                && w@.cols == cols && w@.rows == rows,
            Err(e) => shape_fault(map@, name@, cols as int, rows as int) == Some((e.name@, e.kind)),
        },
{
    let w = match map.f16_weight(name) {
        Ok(w) => w,
        Err(e) => return Err(e),
    };
    let got_cols: usize = w.in_features();
    let got_rows: usize = w.out_features();
    if got_cols != cols || got_rows != rows {
        return Err(
            WeightError {
                name: lit(name),
                kind: WeightErrorKind::Shape { cols, rows, got_cols, got_rows },
            },
        );
    }
    Ok(w)
}

/// Loads the compressor of a layer.
fn load_compressor<'a>(map: &WeightMap<'a>, prefix: &str, ratio: u32) -> (r: Result<CompressorLayerWeights<'a>, WeightError>)
    requires
        compressor_has_shapes(map@, prefix@),
        ratio != 0,
    ensures
        match r {
            Ok(x) => compressor_fault(map@, prefix@, ratio) is None && x.is_loaded(map@, prefix@, ratio),
            Err(e) => compressor_fault(map@, prefix@, ratio) == Some((e.name@, e.kind)),
        },
{
    let n_embd: usize = map.config.n_embd as usize;
    let width: usize = if ratio == 4 { 1024 } else { 512 };
    let kv = match shaped(map, named(prefix, "attn_compressor_kv.weight").as_str(), n_embd, width) {
        Ok(x) => x,
        Err(e) => return Err(e),
    };
    let gate = match shaped(map, named(prefix, "attn_compressor_gate.weight").as_str(), n_embd, width) {
        Ok(x) => x,
        Err(e) => return Err(e),
    };
    let ape = match shaped(map, named(prefix, "attn_compressor_ape.weight").as_str(), width, ratio as usize) {
        Ok(x) => x,
        Err(e) => return Err(e),
    };
    let norm = match map.f32_1d(named(prefix, "attn_compressor_norm.weight").as_str(), 512) {
        Ok(x) => x,
        Err(e) => return Err(e),
    };
    Ok(CompressorLayerWeights { kv, gate, ape, norm })
}

/// Loads the indexer of a layer.
fn load_indexer<'a>(map: &WeightMap<'a>, prefix: &str) -> (r: Result<IndexerLayerWeights<'a>, WeightError>)
    requires
        indexer_has_shapes(map@, prefix@),
    ensures
        match r {
            Ok(x) => indexer_fault(map@, prefix@, 4) is None && x.is_loaded(map@, prefix@),
            Err(e) => indexer_fault(map@, prefix@, 4) == Some((e.name@, e.kind)),
        },
{
    let n_embd: usize = map.config.n_embd as usize;
    let q_lora_rank: usize = map.config.q_lora_rank as usize;
    let attn_q_b = match shaped(map, named(prefix, "indexer.attn_q_b.weight").as_str(), q_lora_rank, 8192) {
        Ok(x) => x,
        Err(e) => return Err(e),
    };
    let proj = match shaped(map, named(prefix, "indexer.proj.weight").as_str(), n_embd, 64) {
        Ok(x) => x,
        Err(e) => return Err(e),
    };
    let compressor_kv = match shaped(map, named(prefix, "indexer_compressor_kv.weight").as_str(), n_embd, 256) {
        Ok(x) => x,
        Err(e) => return Err(e),
    };
    let compressor_gate = match shaped(map, named(prefix, "indexer_compressor_gate.weight").as_str(), n_embd, 256) {
        Ok(x) => x,
        Err(e) => return Err(e),
    };
    let compressor_ape = match shaped(map, named(prefix, "indexer_compressor_ape.weight").as_str(), 256, 4) {
        Ok(x) => x,
        Err(e) => return Err(e),
    };
    let compressor_norm = match map.f32_1d(named(prefix, "indexer_compressor_norm.weight").as_str(), 128) {
        Ok(x) => x,
        Err(e) => return Err(e),
    };
    Ok(IndexerLayerWeights { attn_q_b, proj, compressor_kv, compressor_gate, compressor_ape, compressor_norm })
}

/// Loads the attention weights of a layer.
fn load_attention<'a>(map: &WeightMap<'a>, prefix: &str) -> (r: Result<Attention<'a>, WeightError>)
    requires
        attention_has_shapes(map@, prefix@),
    ensures
        match r {
            Ok(x) => attention_fault(map@, prefix@) is None && x.is_loaded(map@, prefix@),
            Err(e) => attention_fault(map@, prefix@) == Some((e.name@, e.kind)),
        },
{
    let n_embd: usize = map.config.n_embd as usize;
    let n_head: usize = map.config.n_head as usize;
    let q_lora_rank: usize = map.config.q_lora_rank as usize;
    let attn_norm = match map.f32_1d(named(prefix, "attn_norm.weight").as_str(), n_embd) {
        Ok(x) => x,
        Err(e) => return Err(e),
    };
    let attn_q_a_norm = match map.f32_1d(named(prefix, "attn_q_a_norm.weight").as_str(), q_lora_rank) {
        Ok(x) => x,
        Err(e) => return Err(e),
    };
    let attn_q_b = match map.q8_0(named(prefix, "attn_q_b.weight").as_str()) {
        Ok(x) => x,
        Err(e) => return Err(e),
    };
    let attn_kv = match map.q8_0(named(prefix, "attn_kv.weight").as_str()) {
        Ok(x) => x,
        Err(e) => return Err(e),
    };
    let attn_kv_a_norm = match map.f32_1d(named(prefix, "attn_kv_a_norm.weight").as_str(), 512) {
        Ok(x) => x,
        Err(e) => return Err(e),
    };
    let attn_sinks = match map.f32_1d(named(prefix, "attn_sinks.weight").as_str(), n_head) {
        Ok(x) => x,
        Err(e) => return Err(e),
    };
    let attn_output_a = match map.q8_0(named(prefix, "attn_output_a.weight").as_str()) {
        Ok(x) => x,
        Err(e) => return Err(e),
    };
    let attn_output_b = match map.q8_0(named(prefix, "attn_output_b.weight").as_str()) {
        Ok(x) => x,
        Err(e) => return Err(e),
    };
    Ok(Attention { attn_norm, attn_q_a_norm, attn_q_b, attn_kv, attn_kv_a_norm, attn_sinks, attn_output_a, attn_output_b })
}

/// Loads the hyper-connection control of a layer.
fn load_control<'a>(map: &WeightMap<'a>, prefix: &str, hc_base: usize) -> (r: Result<Control<'a>, WeightError>)
    requires
        hc_has_shapes(map@, prefix@),
        hc_base == map@.config.n_hc * (map@.config.n_hc + 2),
    ensures
        match r {
            Ok(x) => hc_fault(map@, prefix@) is None && x.is_loaded(map@, prefix@),
            Err(e) => hc_fault(map@, prefix@) == Some((e.name@, e.kind)),
        },
{
    let hc_attn_fn = match map.f16_weight(named(prefix, "hc_attn_fn.weight").as_str()) {
        Ok(x) => x,
        Err(e) => return Err(e),
    };
    let hc_attn_scale = match map.f32_1d(named(prefix, "hc_attn_scale.weight").as_str(), 3) {
        Ok(x) => x,
        Err(e) => return Err(e),
    };
    let hc_attn_base = match map.f32_1d(named(prefix, "hc_attn_base.weight").as_str(), hc_base) {
        Ok(x) => x,
        Err(e) => return Err(e),
    };
    let hc_ffn_fn = match map.f16_weight(named(prefix, "hc_ffn_fn.weight").as_str()) {
        Ok(x) => x,
        Err(e) => return Err(e),
    };
    let hc_ffn_scale = match map.f32_1d(named(prefix, "hc_ffn_scale.weight").as_str(), 3) {
        Ok(x) => x,
        Err(e) => return Err(e),
    };
    let hc_ffn_base = match map.f32_1d(named(prefix, "hc_ffn_base.weight").as_str(), hc_base) {
        Ok(x) => x,
        Err(e) => return Err(e),
    };
    Ok(Control { hc_attn_fn, hc_attn_scale, hc_attn_base, hc_ffn_fn, hc_ffn_scale, hc_ffn_base })
}

/// Loads the experts of a layer.
fn load_experts<'a>(map: &WeightMap<'a>, prefix: &str) -> (r: Result<Experts<'a>, WeightError>)
    requires
        ffn_has_shapes(map@, prefix@),
    ensures
        match r {
            Ok(x) => ffn_fault(map@, prefix@) is None && x.is_loaded(map@, prefix@),
            Err(e) => ffn_fault(map@, prefix@) == Some((e.name@, e.kind)),
        },
{
    let n_embd: usize = map.config.n_embd as usize;
    let ffn_norm = match map.f32_1d(named(prefix, "ffn_norm.weight").as_str(), n_embd) {
        Ok(x) => x,
        Err(e) => return Err(e),
    };
    let ffn_gate_inp = match map.f16_weight(named(prefix, "ffn_gate_inp.weight").as_str()) {
        Ok(x) => x,
        Err(e) => return Err(e),
    };
    let ffn_gate_shexp = match map.q8_0(named(prefix, "ffn_gate_shexp.weight").as_str()) {
        Ok(x) => x,
        Err(e) => return Err(e),
    };
    let ffn_up_shexp = match map.q8_0(named(prefix, "ffn_up_shexp.weight").as_str()) {
        Ok(x) => x,
        Err(e) => return Err(e),
    };
    let ffn_down_shexp = match map.q8_0(named(prefix, "ffn_down_shexp.weight").as_str()) {
        Ok(x) => x,
        Err(e) => return Err(e),
    };
    let ffn_gate_exps = match map.quant_weight(named(prefix, "ffn_gate_exps.weight").as_str()) {
        Ok(x) => x,
        Err(e) => return Err(e),
    };
    let ffn_up_exps = match map.quant_weight(named(prefix, "ffn_up_exps.weight").as_str()) {
        Ok(x) => x,
        Err(e) => return Err(e),
    };
    let ffn_down_exps = match map.quant_weight(named(prefix, "ffn_down_exps.weight").as_str()) {
        Ok(x) => x,
        Err(e) => return Err(e),
    };
    Ok(Experts { ffn_norm, ffn_gate_inp, ffn_gate_shexp, ffn_up_shexp, ffn_down_shexp, ffn_gate_exps, ffn_up_exps, ffn_down_exps })
}

fn load_table<'a>(map: &WeightMap<'a>, prefix: &str) -> (r: Result<
    Option<I32Slice<'a>>,
    WeightError,
>)
    ensures
        match r {
            Ok(t) => table_fault(map@, prefix@) is None && match t {
                Some(t) => map@.content.tensors.contains_key(table_name(prefix@))
                    && weights::integers(
                    map@,
                    table_name(prefix@),
                    table_len(map@.config) as usize,
                ) == Ok::<Seq<i32>, WeightErrorKind>(t@),
                None => !map@.content.tensors.contains_key(table_name(prefix@)),
            },
            Err(e) => table_fault(map@, prefix@) == Some((e.name@, e.kind)),
        },
{
    let name = named(prefix, "ffn_gate_tid2eid.weight");
    match map.tensor_info(name.as_str()) {
        None => Ok(None),
        Some(_) => {
            let used: usize = map.config.n_expert_used as usize;
            match used.checked_mul(map.config.n_vocab as usize) {
                None => Err(WeightError { name, kind: WeightErrorKind::TableOverflow }),
                Some(n) => match map.i32_1d(name.as_str(), n) {
                    Ok(t) => Ok(Some(t)),
                    Err(e) => Err(e),
                },
            }
        },
    }
}

fn load_bias<'a>(map: &WeightMap<'a>, prefix: &str) -> (r: Result<
    Option<F32Slice<'a>>,
    WeightError,
>)
    ensures
        match r {
            Ok(b) => bias_fault(map@, prefix@) is None && match b {
                Some(b) => map@.content.tensors.contains_key(bias_name(prefix@))
                    && weights::floats(
                    map@,
                    bias_name(prefix@),
                    map@.config.n_expert as usize,
                ) == Ok::<Seq<Bits32>, WeightErrorKind>(b@),
                None => !map@.content.tensors.contains_key(bias_name(prefix@)),
            },
            Err(e) => bias_fault(map@, prefix@) == Some((e.name@, e.kind)),
        },
{
    let name = named(prefix, "exp_probs_b.bias");
    match map.tensor_info(name.as_str()) {
        None => Ok(None),
        Some(_) => match map.f32_1d(name.as_str(), map.config.n_expert as usize) {
            Ok(b) => Ok(Some(b)),
            Err(e) => Err(e),
        },
    }
}

fn hc_base_dim(n_hc: u32) -> (r: Result<usize, WeightError>)
    ensures
        match r {
            Ok(n) => hc_base_fault(n_hc as int) is None && n == n_hc * (n_hc + 2),
            Err(e) => hc_base_fault(n_hc as int) == Some((e.name@, e.kind)),
        },
{
    let n: usize = n_hc as usize;
    let sum: usize = match n.checked_add(2) {
        Some(s) => s,
        None => return Err(WeightError { name: lit(""), kind: WeightErrorKind::HcSumOverflow }),
    };
    match n.checked_mul(sum) {
        Some(p) => Ok(p),
        None => Err(WeightError { name: lit(""), kind: WeightErrorKind::HcOverflow }),
    }
}

/// The prefix of the tensor names of layer `il`.
pub open spec fn layer_prefix(il: u32) -> Seq<char> {
    "blk."@ + text::decimal(il as nat) + "."@
}

impl<'a> LayerWeights<'a> {
    /// Loads the weights of layer `il`.
    pub fn from_map(map: &WeightMap<'a>, il: u32) -> (r: Result<Self, WeightError>)
        requires
            layer_has_shapes(map@, layer_prefix(il), il),
        ensures
            match r {
                Ok(l) => layer_fault(map@, layer_prefix(il), il) is None && l.is_loaded(
                    map@,
                    layer_prefix(il),
                    il,
                ),
                Err(e) => layer_fault(map@, layer_prefix(il), il) == Some((e.name@, e.kind)),
            },
    {
        let prefix = and(and_num(lit("blk."), il as u64), ".");
        Self::from_prefix(map, prefix.as_str(), il)
    }

    /// Loads the tensors whose names start with `prefix` as the weights of layer
    /// `il`.
    pub fn from_prefix(map: &WeightMap<'a>, prefix: &str, il: u32) -> (r: Result<Self, WeightError>)
        requires
            layer_has_shapes(map@, prefix@, il),
        ensures
            match r {
                Ok(l) => layer_fault(map@, prefix@, il) is None && l.is_loaded(map@, prefix@, il),
                Err(e) => layer_fault(map@, prefix@, il) == Some((e.name@, e.kind)),
            },
    {
        let hc_base: usize = match hc_base_dim(map.config.n_hc) {
            Ok(n) => n,
            Err(e) => return Err(e),
        };
        let ffn_gate_tid2eid = match load_table(map, prefix) {
            Ok(t) => t,
            Err(e) => return Err(e),
        };
        let ffn_exp_probs_b = match load_bias(map, prefix) {
            Ok(b) => b,
            Err(e) => return Err(e),
        };
        let q_a = named(prefix, "attn_q_a.weight");
        let attn_q_a = match map.q8_0(q_a.as_str()) {
            Ok(w) => w,
            Err(e) => return Err(e),
        };
        let ratio: u32 = layer_compress_ratio(il);
        let compressor = if ratio == 0 {
            None
        } else {
            match load_compressor(map, prefix, ratio) {
                Ok(c) => Some(c),
                Err(e) => return Err(e),
            }
        };
        let indexer = if ratio == 4 {
            match load_indexer(map, prefix) {
                Ok(x) => Some(x),
                Err(e) => return Err(e),
            }
        } else {
            None
        };
        let a = match load_attention(map, prefix) {
            Ok(a) => a,
            Err(e) => return Err(e),
        };
        let h = match load_control(map, prefix, hc_base) {
            Ok(h) => h,
            Err(e) => return Err(e),
        };
        let f = match load_experts(map, prefix) {
            Ok(f) => f,
            Err(e) => return Err(e),
        };
        Ok(
            LayerWeights {
                attn_norm: a.attn_norm,
                attn_q_a,
                attn_q_a_norm: a.attn_q_a_norm,
                attn_q_b: a.attn_q_b,
                attn_kv: a.attn_kv,
                attn_kv_a_norm: a.attn_kv_a_norm,
                attn_sinks: a.attn_sinks,
                attn_output_a: a.attn_output_a,
                attn_output_b: a.attn_output_b,
                hc_attn_fn: h.hc_attn_fn,
                hc_attn_scale: h.hc_attn_scale,
                hc_attn_base: h.hc_attn_base,
                hc_ffn_fn: h.hc_ffn_fn,
                hc_ffn_scale: h.hc_ffn_scale,
                hc_ffn_base: h.hc_ffn_base,
                ffn_norm: f.ffn_norm,
                ffn_gate_inp: f.ffn_gate_inp,
                ffn_gate_shexp: f.ffn_gate_shexp,
                ffn_up_shexp: f.ffn_up_shexp,
                ffn_down_shexp: f.ffn_down_shexp,
                ffn_gate_exps: f.ffn_gate_exps,
                ffn_up_exps: f.ffn_up_exps,
                ffn_down_exps: f.ffn_down_exps,
                ffn_gate_tid2eid,
                ffn_exp_probs_b,
                compressor,
                indexer,
            },
        )
    }
}

/// `x` are the `n` numbers in the file under `name`: number `i` takes the bytes from
/// `4 * i` on.
pub open spec fn holds_numbers(m: WeightMapView, name: Seq<char>, x: Seq<Bits32>, n: int) -> bool {
    &&& m.content.tensors.contains_key(name)
    &&& m.content.tensors[name].dtype == GgmlType::F32
    &&& x.len() == n
    &&& gguf::bytes_of(m.content, m.file, name) matches Ok(b) && b.len() == 4 * n && forall|i: int|
        0 <= i < n ==> #[trigger] x[i] == le::le32(b, 4 * i)
}

pub(crate) proof fn numbers_of(m: WeightMapView, name: Seq<char>, n: usize, x: Seq<Bits32>)
    requires
        weights::floats(m, name, n) == Ok::<Seq<Bits32>, WeightErrorKind>(x),
    ensures
        holds_numbers(m, name, x, n as int),
{
    let b = gguf::bytes_of(m.content, m.file, name)->Ok_0;
    assert forall|i: int| 0 <= i < n implies #[trigger] x[i] == le::le32(b, 4 * i) by {
        le::bytes32_of_le32(b, 4 * i);
    }
}

/// The attention weights are the tensors of these names.
pub proof fn attention_weights_by_name(w: LayerWeights, m: WeightMapView, prefix: Seq<char>, il: u32)
    requires
        w.is_loaded(m, prefix, il),
    ensures
        gguf::bytes_of(m.content, m.file, prefix + "attn_q_a.weight"@) == Ok::<Seq<u8>, TensorErrorKind>(
            w.attn_q_a.data(),
        ),
        m.content.tensors[prefix + "attn_q_a.weight"@].dtype == GgmlType::Q8_0,
        gguf::bytes_of(m.content, m.file, prefix + "attn_q_b.weight"@) == Ok::<Seq<u8>, TensorErrorKind>(
            w.attn_q_b.data(),
        ),
        m.content.tensors[prefix + "attn_q_b.weight"@].dtype == GgmlType::Q8_0,
        gguf::bytes_of(m.content, m.file, prefix + "attn_kv.weight"@) == Ok::<Seq<u8>, TensorErrorKind>(
            w.attn_kv.data(),
        ),
        m.content.tensors[prefix + "attn_kv.weight"@].dtype == GgmlType::Q8_0,
        gguf::bytes_of(m.content, m.file, prefix + "attn_output_a.weight"@) == Ok::<Seq<u8>, TensorErrorKind>(
            w.attn_output_a.data(),
        ),
        m.content.tensors[prefix + "attn_output_a.weight"@].dtype == GgmlType::Q8_0,
        gguf::bytes_of(m.content, m.file, prefix + "attn_output_b.weight"@) == Ok::<Seq<u8>, TensorErrorKind>(
            w.attn_output_b.data(),
        ),
        m.content.tensors[prefix + "attn_output_b.weight"@].dtype == GgmlType::Q8_0,
        holds_numbers(m, prefix + "attn_norm.weight"@, w.attn_norm@, m.config.n_embd as int),
        holds_numbers(m, prefix + "attn_q_a_norm.weight"@, w.attn_q_a_norm@, m.config.q_lora_rank as int),
        holds_numbers(m, prefix + "attn_kv_a_norm.weight"@, w.attn_kv_a_norm@, 512),
        holds_numbers(m, prefix + "attn_sinks.weight"@, w.attn_sinks@, m.config.n_head as int),
{
    numbers_of(m, prefix + "attn_norm.weight"@, m.config.n_embd as usize, w.attn_norm@);
    numbers_of(m, prefix + "attn_q_a_norm.weight"@, m.config.q_lora_rank as usize, w.attn_q_a_norm@);
    numbers_of(m, prefix + "attn_kv_a_norm.weight"@, 512, w.attn_kv_a_norm@);
    numbers_of(m, prefix + "attn_sinks.weight"@, m.config.n_head as usize, w.attn_sinks@);
}

/// The hyper-connection control is the tensors of these names; its base has a number
/// for each stream before and after, and one for each pair of streams.
pub proof fn control_weights_by_name(w: LayerWeights, m: WeightMapView, prefix: Seq<char>, il: u32)
    requires
        w.is_loaded(m, prefix, il),
        m.config.n_hc <= 10000,
    ensures
        gguf::bytes_of(m.content, m.file, prefix + "hc_attn_fn.weight"@) == Ok::<Seq<u8>, TensorErrorKind>(
            w.hc_attn_fn.data(),
        ),
        m.content.tensors[prefix + "hc_attn_fn.weight"@].dtype == GgmlType::F16,
        gguf::bytes_of(m.content, m.file, prefix + "hc_ffn_fn.weight"@) == Ok::<Seq<u8>, TensorErrorKind>(
            w.hc_ffn_fn.data(),
        ),
        m.content.tensors[prefix + "hc_ffn_fn.weight"@].dtype == GgmlType::F16,
        holds_numbers(m, prefix + "hc_attn_scale.weight"@, w.hc_attn_scale@, 3),
        holds_numbers(m, prefix + "hc_ffn_scale.weight"@, w.hc_ffn_scale@, 3),
        holds_numbers(
            m,
            prefix + "hc_attn_base.weight"@,
            w.hc_attn_base@,
            2 * m.config.n_hc + m.config.n_hc * m.config.n_hc,
        ),
        holds_numbers(
            m,
            prefix + "hc_ffn_base.weight"@,
            w.hc_ffn_base@,
            2 * m.config.n_hc + m.config.n_hc * m.config.n_hc,
        ),
{
    let n = m.config.n_hc as int;
    assert(n * (n + 2) == 2 * n + n * n && n * n <= 100000000) by (nonlinear_arith)
        requires
            0 <= n <= 10000,
    ;
    numbers_of(m, prefix + "hc_attn_scale.weight"@, 3, w.hc_attn_scale@);
    numbers_of(m, prefix + "hc_ffn_scale.weight"@, 3, w.hc_ffn_scale@);
    numbers_of(m, prefix + "hc_attn_base.weight"@, (n * (n + 2)) as usize, w.hc_attn_base@);
    numbers_of(m, prefix + "hc_ffn_base.weight"@, (n * (n + 2)) as usize, w.hc_ffn_base@);
}

/// The weights of the experts are the tensors of these names.
pub proof fn expert_weights_by_name(w: LayerWeights, m: WeightMapView, prefix: Seq<char>, il: u32)
    requires
        w.is_loaded(m, prefix, il),
    ensures
        gguf::bytes_of(m.content, m.file, prefix + "ffn_gate_inp.weight"@) == Ok::<Seq<u8>, TensorErrorKind>(
            w.ffn_gate_inp.data(),
        ),
        m.content.tensors[prefix + "ffn_gate_inp.weight"@].dtype == GgmlType::F16,
        gguf::bytes_of(m.content, m.file, prefix + "ffn_gate_shexp.weight"@) == Ok::<Seq<u8>, TensorErrorKind>(
            w.ffn_gate_shexp.data(),
        ),
        m.content.tensors[prefix + "ffn_gate_shexp.weight"@].dtype == GgmlType::Q8_0,
        gguf::bytes_of(m.content, m.file, prefix + "ffn_up_shexp.weight"@) == Ok::<Seq<u8>, TensorErrorKind>(
            w.ffn_up_shexp.data(),
        ),
        m.content.tensors[prefix + "ffn_up_shexp.weight"@].dtype == GgmlType::Q8_0,
        gguf::bytes_of(m.content, m.file, prefix + "ffn_down_shexp.weight"@) == Ok::<Seq<u8>, TensorErrorKind>(
            w.ffn_down_shexp.data(),
        ),
        m.content.tensors[prefix + "ffn_down_shexp.weight"@].dtype == GgmlType::Q8_0,
        gguf::bytes_of(m.content, m.file, prefix + "ffn_gate_exps.weight"@) == Ok::<Seq<u8>, TensorErrorKind>(
            w.ffn_gate_exps.data(),
        ),
        gguf::bytes_of(m.content, m.file, prefix + "ffn_up_exps.weight"@) == Ok::<Seq<u8>, TensorErrorKind>(
            w.ffn_up_exps.data(),
        ),
        gguf::bytes_of(m.content, m.file, prefix + "ffn_down_exps.weight"@) == Ok::<Seq<u8>, TensorErrorKind>(
            w.ffn_down_exps.data(),
        ),
        holds_numbers(m, prefix + "ffn_norm.weight"@, w.ffn_norm@, m.config.n_embd as int),
{
    numbers_of(m, prefix + "ffn_norm.weight"@, m.config.n_embd as usize, w.ffn_norm@);
}

/// A layer has a compressor from the third on. It projects into two lanes of 512 on
/// even layers and into one on odd ones, and its bias has a row for each place in a
/// group of 4 or of 128.
pub proof fn compressor_weights_by_name(
    w: LayerWeights,
    c: CompressorLayerWeights,
    m: WeightMapView,
    prefix: Seq<char>,
    il: u32,
)
    requires
        w.is_loaded(m, prefix, il),
        w.compressor matches Some(x) ==> x == c,
        il >= 2,
    ensures
        w.compressor is Some,
        gguf::bytes_of(m.content, m.file, prefix + "attn_compressor_kv.weight"@) == Ok::<Seq<u8>, TensorErrorKind>(
            c.kv.data(),
        ),
        m.content.tensors[prefix + "attn_compressor_kv.weight"@].dtype == GgmlType::F16,
        gguf::bytes_of(m.content, m.file, prefix + "attn_compressor_gate.weight"@) == Ok::<Seq<u8>, TensorErrorKind>(
            c.gate.data(),
        ),
        m.content.tensors[prefix + "attn_compressor_gate.weight"@].dtype == GgmlType::F16,
        gguf::bytes_of(m.content, m.file, prefix + "attn_compressor_ape.weight"@) == Ok::<Seq<u8>, TensorErrorKind>(
            c.ape.data(),
        ),
        m.content.tensors[prefix + "attn_compressor_ape.weight"@].dtype == GgmlType::F16,
        holds_numbers(m, prefix + "attn_compressor_norm.weight"@, c.norm@, 512),
        c.kv.cols() == m.config.n_embd,
        c.gate.cols() == m.config.n_embd,
        il % 2 == 0 ==> c.kv.rows() == 1024 && c.gate.rows() == 1024 && c.ape.cols() == 1024
            && c.ape.rows() == 4,
        il % 2 == 1 ==> c.kv.rows() == 512 && c.gate.rows() == 512 && c.ape.cols() == 512
            && c.ape.rows() == 128,
{
    numbers_of(m, prefix + "attn_compressor_norm.weight"@, 512, c.norm@);
}

/// Even layers from the third on have an indexer: 64 query heads of 128, and a
/// compressor of two lanes of 128.
pub proof fn indexer_weights_by_name(
    w: LayerWeights,
    x: IndexerLayerWeights,
    m: WeightMapView,
    prefix: Seq<char>,
    il: u32,
)
    requires
        w.is_loaded(m, prefix, il),
        w.indexer matches Some(y) ==> y == x,
        il >= 2,
        il % 2 == 0,
    ensures
        w.indexer is Some,
        gguf::bytes_of(m.content, m.file, prefix + "indexer.attn_q_b.weight"@) == Ok::<Seq<u8>, TensorErrorKind>(
            x.attn_q_b.data(),
        ),
        m.content.tensors[prefix + "indexer.attn_q_b.weight"@].dtype == GgmlType::F16,
        gguf::bytes_of(m.content, m.file, prefix + "indexer.proj.weight"@) == Ok::<Seq<u8>, TensorErrorKind>(
            x.proj.data(),
        ),
        m.content.tensors[prefix + "indexer.proj.weight"@].dtype == GgmlType::F16,
        gguf::bytes_of(m.content, m.file, prefix + "indexer_compressor_kv.weight"@) == Ok::<Seq<u8>, TensorErrorKind>(
            x.compressor_kv.data(),
        ),
        m.content.tensors[prefix + "indexer_compressor_kv.weight"@].dtype == GgmlType::F16,
        gguf::bytes_of(m.content, m.file, prefix + "indexer_compressor_gate.weight"@) == Ok::<Seq<u8>, TensorErrorKind>(
            x.compressor_gate.data(),
        ),
        m.content.tensors[prefix + "indexer_compressor_gate.weight"@].dtype == GgmlType::F16,
        gguf::bytes_of(m.content, m.file, prefix + "indexer_compressor_ape.weight"@) == Ok::<Seq<u8>, TensorErrorKind>(
            x.compressor_ape.data(),
        ),
        m.content.tensors[prefix + "indexer_compressor_ape.weight"@].dtype == GgmlType::F16,
        holds_numbers(m, prefix + "indexer_compressor_norm.weight"@, x.compressor_norm@, 128),
        x.attn_q_b.cols() == m.config.q_lora_rank && x.attn_q_b.rows() == 64 * 128,
        x.proj.cols() == m.config.n_embd && x.proj.rows() == 64,
        x.compressor_kv.cols() == m.config.n_embd && x.compressor_kv.rows() == 2 * 128,
        x.compressor_gate.cols() == m.config.n_embd && x.compressor_gate.rows() == 2 * 128,
        x.compressor_ape.cols() == 2 * 128 && x.compressor_ape.rows() == 4,
{
    numbers_of(m, prefix + "indexer_compressor_norm.weight"@, 128, x.compressor_norm@);
}

/// The first two layers have neither, odd layers have no indexer, and the tables of
/// the router are there exactly where the file has them: one row of experts for each
/// token, and one bias for each expert.
pub proof fn tables_are_there_where_the_file_has_them(
    w: LayerWeights,
    m: WeightMapView,
    prefix: Seq<char>,
    il: u32,
    i: int,
)
    requires
        w.is_loaded(m, prefix, il),
        m.config.n_expert_used * m.config.n_vocab <= usize::MAX,
    ensures
        il < 2 ==> w.compressor is None && w.indexer is None,
        il % 2 == 1 ==> w.indexer is None,
        w.ffn_gate_tid2eid is Some <==> m.content.tensors.contains_key(
            prefix + "ffn_gate_tid2eid.weight"@,
        ),
        w.ffn_exp_probs_b is Some <==> m.content.tensors.contains_key(
            prefix + "exp_probs_b.bias"@,
        ),
        w.ffn_gate_tid2eid matches Some(t) ==> t@.len() == m.config.n_expert_used
            * m.config.n_vocab && m.content.tensors[prefix + "ffn_gate_tid2eid.weight"@].dtype
            == GgmlType::I32,
        w.ffn_exp_probs_b matches Some(b) ==> holds_numbers(
            m,
            prefix + "exp_probs_b.bias"@,
            b@,
            m.config.n_expert as int,
        ),
{
    match w.ffn_exp_probs_b {
        Some(b) => {
            numbers_of(m, prefix + "exp_probs_b.bias"@, m.config.n_expert as usize, b@);
        },
        None => {},
    }
}

/// The tensors of a layer are named after it, and no two layers share their names.
pub proof fn layers_have_their_own_names(a: u32, b: u32)
    ensures
        layer_prefix(a).len() >= 6,
        layer_prefix(a)[0] == 'b' && layer_prefix(a)[1] == 'l' && layer_prefix(a)[2] == 'k'
            && layer_prefix(a)[3] == '.',
        layer_prefix(a).last() == '.',
        layer_prefix(a).subrange(4, layer_prefix(a).len() - 1) == text::decimal(a as nat),
        layer_prefix(a) == layer_prefix(b) ==> a == b,
{
    reveal_strlit("blk.");
    reveal_strlit(".");
    let p = layer_prefix(a);
    let q = layer_prefix(b);
    assert("blk."@.len() == 4 && "."@.len() == 1);
    assert(p.subrange(4, p.len() - 1) =~= text::decimal(a as nat));
    assert(q.subrange(4, q.len() - 1) =~= text::decimal(b as nat));
    cli::a_written_number_is_read_back(a);
    cli::a_written_number_is_read_back(b);
    assert(text::decimal(a as nat).len() > 0) by {
        if text::decimal(a as nat).len() == 0 {
            assert(text::decimal(a as nat) =~= Seq::empty());
        }
    }
}

/// A fault names its tensor and what its lookup gave; of two faults the first is
/// reported.
pub proof fn a_fault_names_its_tensor(
    m: WeightMapView,
    name: Seq<char>,
    want: GgmlType,
    n: usize,
    a: Fault,
    b: Fault,
)
    ensures
        weights::matrix(m, name, want) is Ok <==> matrix_fault(m, name, want) is None,
        matrix_fault(m, name, want) matches Some((k, e)) ==> k == name && weights::matrix(
            m,
            name,
            want,
        ) == Err::<Matrix, WeightErrorKind>(e),
        weights::any_matrix(m, name) is Ok <==> any_fault(m, name) is None,
        any_fault(m, name) matches Some((k, e)) ==> k == name && weights::any_matrix(m, name)
            == Err::<Matrix, WeightErrorKind>(e),
        weights::floats(m, name, n) is Ok <==> floats_fault(m, name, n) is None,
        floats_fault(m, name, n) matches Some((k, e)) ==> k == name && weights::floats(m, name, n)
            == Err::<Seq<Bits32>, WeightErrorKind>(e),
        a is Some ==> either(a, b) == a,
        a is None ==> either(a, b) == b,
{
}

/// A half-precision matrix of another shape is refused with both shapes.
pub proof fn another_shape_is_refused(
    m: WeightMapView,
    name: Seq<char>,
    cols: usize,
    rows: usize,
)
    ensures
        shape_fault(m, name, cols as int, rows as int) is None <==> (weights::matrix(
            m,
            name,
            GgmlType::F16,
        ) matches Ok(x) && x.cols == cols && x.rows == rows),
        weights::matrix(m, name, GgmlType::F16) matches Ok(x) ==> x.cols != cols || x.rows != rows
            ==> shape_fault(m, name, cols as int, rows as int) == Some(
            (
                name,
                WeightErrorKind::Shape { cols, rows, got_cols: x.cols, got_rows: x.rows },
            ),
        ),
{
}

/// Where every tensor of a layer can be had as it should be, nothing is wrong with
/// the layer.
pub proof fn a_layer_that_is_complete_has_no_fault(
    w: LayerWeights,
    m: WeightMapView,
    prefix: Seq<char>,
    il: u32,
)
    requires
        w.is_loaded(m, prefix, il),
        m.config.n_hc <= 10000,
        m.config.n_expert_used * m.config.n_vocab <= usize::MAX,
    ensures
        layer_fault(m, prefix, il) is None,
{
    let n = m.config.n_hc as int;
    assert(n * (n + 2) <= 10000 * 10002) by (nonlinear_arith)
        requires
            0 <= n <= 10000,
    ;
}

/// The tensors of a layer are looked up in parts, and the first part with a fault
/// decides: the routing table, the selection bias, the first query projection, the
/// compressor, the indexer, attention, the hyper-connection control, the experts.
pub proof fn the_first_fault_of_a_layer_is_reported(m: WeightMapView, prefix: Seq<char>, il: u32)
    requires
        m.config.n_hc <= 10000,
    ensures
        ({
            let f = layer_fault(m, prefix, il);
            let ratio = config::compress_ratio(il);
            let table = table_fault(m, prefix);
            let bias = bias_fault(m, prefix);
            let q_a = matrix_fault(m, prefix + "attn_q_a.weight"@, GgmlType::Q8_0);
            let comp = compressor_fault(m, prefix, ratio);
            let idx = indexer_fault(m, prefix, ratio);
            let att = attention_fault(m, prefix);
            let hc = hc_fault(m, prefix);
            &&& table is Some ==> f == table
            &&& table is None && bias is Some ==> f == bias
            &&& table is None && bias is None && q_a is Some ==> f == q_a
            &&& table is None && bias is None && q_a is None && comp is Some ==> f == comp
            &&& table is None && bias is None && q_a is None && comp is None && idx is Some ==> f
                == idx
            &&& table is None && bias is None && q_a is None && comp is None && idx is None
                && att is Some ==> f == att
            &&& table is None && bias is None && q_a is None && comp is None && idx is None
                && att is None && hc is Some ==> f == hc
            &&& table is None && bias is None && q_a is None && comp is None && idx is None
                && att is None && hc is None ==> f == ffn_fault(m, prefix)
        }),
{
    let n = m.config.n_hc as int;
    assert(n * (n + 2) <= 10000 * 10002) by (nonlinear_arith)
        requires
            0 <= n <= 10000,
    ;
}

} // verus!
