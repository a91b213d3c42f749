//! The draft model for speculative decoding: one transformer block with its
//! own projections, norms and cache, next to the main model.

use vstd::prelude::*;

use crate::bits;
use crate::bits::{copy_all, copy_at, fill, Bits32, ZERO};
use crate::config::ModelConfig;
use crate::gguf;
use crate::gguf::{GgmlType, TensorErrorKind};
use crate::model::kv_cache;
use crate::model::kv_cache::{CacheError, KvCache, KvCacheSnapshot, KvView};
use crate::model::layer;
use crate::model::layer::{Fault, LayerWeights};
use crate::model::weights;
use crate::model::weights::{F32Slice, WeightError, WeightErrorKind};
use crate::model::{WeightMap, WeightMapView};
use crate::ops::matmul::{Matrix, WeightView};
use crate::text;
use crate::text::lit;

verus! {

// ---------------------------------------------------------------------------
// Weights
// ---------------------------------------------------------------------------

/// The weights of the draft model.
pub struct MtpWeights<'a> {
    /// Projection of the embedding.
    pub e_proj: WeightView<'a>,
    /// Projection of the hidden state.
    pub h_proj: WeightView<'a>,
    /// Norm weights of the embedding.
    pub enorm: F32Slice<'a>,
    /// Norm weights of the hidden state.
    pub hnorm: F32Slice<'a>,
    /// Norm weights of the output.
    pub norm: F32Slice<'a>,
    /// Control of the final reduction.
    pub hc_head_fn: WeightView<'a>,
    /// Scale of the final reduction, one number.
    pub hc_head_scale: F32Slice<'a>,
    /// Bias of the final reduction.
    pub hc_head_base: F32Slice<'a>,
    /// The transformer block.
    pub block: LayerWeights<'a>,
}

/// What is wrong first with the weights of a draft model.
pub open spec fn mtp_fault(m: WeightMapView) -> Fault {
    let n_embd = m.config.n_embd as usize;
    let n_hc = m.config.n_hc as usize;
    layer::either(
        layer::matrix_fault(m, "mtp.0.e_proj.weight"@, GgmlType::Q8_0),
        layer::either(
            layer::matrix_fault(m, "mtp.0.h_proj.weight"@, GgmlType::Q8_0),
            layer::either(
                layer::floats_fault(m, "mtp.0.enorm.weight"@, n_embd),
                layer::either(
                    layer::floats_fault(m, "mtp.0.hnorm.weight"@, n_embd),
                    layer::either(
                        layer::floats_fault(m, "mtp.0.norm.weight"@, n_embd),
                        layer::either(
                            layer::matrix_fault(m, "mtp.0.hc_head_fn.weight"@, GgmlType::F16),
                            layer::either(
                                layer::floats_fault(m, "mtp.0.hc_head_scale.weight"@, 1),
                                layer::either(
                                    layer::floats_fault(m, "mtp.0.hc_head_base.weight"@, n_hc),
                                    layer::layer_fault(m, "mtp.0."@, 0),
                                ),
                            ),
                        ),
                    ),
                ),
            ),
        ),
    )
}

/// Every matrix of the draft model has a dimension.
pub open spec fn mtp_has_shapes(m: WeightMapView) -> bool {
    &&& weights::has_shape(m, "mtp.0.e_proj.weight"@, GgmlType::Q8_0)
    &&& weights::has_shape(m, "mtp.0.h_proj.weight"@, GgmlType::Q8_0)
    &&& weights::has_shape(m, "mtp.0.hc_head_fn.weight"@, GgmlType::F16)
    &&& layer::layer_has_shapes(m, "mtp.0."@, 0)
}

/// Where every matrix of a file has a dimension, so have those of the draft
/// model.
pub proof fn shapes_reach_the_draft_model(m: WeightMapView)
    requires
        weights::has_shapes(m),
    ensures
        mtp_has_shapes(m),
{
    layer::shapes_reach_every_layer(m, "mtp.0."@, 0);
}

impl<'a> MtpWeights<'a> {
    /// These are the tensors of the draft model.
    pub open spec fn is_loaded(&self, m: WeightMapView) -> bool {
        let n_embd = m.config.n_embd as usize;
        let n_hc = m.config.n_hc as usize;
        &&& weights::matrix(m, "mtp.0.e_proj.weight"@, GgmlType::Q8_0) == Ok::<Matrix, WeightErrorKind>(self.e_proj@)
        &&& weights::matrix(m, "mtp.0.h_proj.weight"@, GgmlType::Q8_0) == Ok::<Matrix, WeightErrorKind>(self.h_proj@)
        &&& weights::floats(m, "mtp.0.enorm.weight"@, n_embd) == Ok::<Seq<Bits32>, WeightErrorKind>(self.enorm@)
        &&& weights::floats(m, "mtp.0.hnorm.weight"@, n_embd) == Ok::<Seq<Bits32>, WeightErrorKind>(self.hnorm@)
        &&& weights::floats(m, "mtp.0.norm.weight"@, n_embd) == Ok::<Seq<Bits32>, WeightErrorKind>(self.norm@)
        &&& weights::matrix(m, "mtp.0.hc_head_fn.weight"@, GgmlType::F16) == Ok::<Matrix, WeightErrorKind>(self.hc_head_fn@)
        &&& weights::floats(m, "mtp.0.hc_head_scale.weight"@, 1) == Ok::<Seq<Bits32>, WeightErrorKind>(self.hc_head_scale@)
        &&& weights::floats(m, "mtp.0.hc_head_base.weight"@, n_hc) == Ok::<Seq<Bits32>, WeightErrorKind>(self.hc_head_base@)
        &&& self.block.is_loaded(m, "mtp.0."@, 0)
    }

    /// Loads the weights of a draft model.
    pub fn from_map(map: &WeightMap<'a>) -> (r: Result<Self, WeightError>)
        requires
            mtp_has_shapes(map@),
        ensures
            match r {
                Ok(w) => mtp_fault(map@) is None && w.is_loaded(map@),
                Err(e) => mtp_fault(map@) == Some((e.name@, e.kind)),
            },
    {
        let config: ModelConfig = map.config();
        let n_embd: usize = config.n_embd as usize;
        let n_hc: usize = config.n_hc as usize;
        let e_proj = match map.q8_0("mtp.0.e_proj.weight") {
            Ok(x) => x,
            Err(e) => return Err(e),
        };
        let h_proj = match map.q8_0("mtp.0.h_proj.weight") {
            Ok(x) => x,
            Err(e) => return Err(e),
        };
        let enorm = match map.f32_1d("mtp.0.enorm.weight", n_embd) {
            Ok(x) => x,
            Err(e) => return Err(e),
        };
        let hnorm = match map.f32_1d("mtp.0.hnorm.weight", n_embd) {
            Ok(x) => x,
            Err(e) => return Err(e),
        };
        let norm = match map.f32_1d("mtp.0.norm.weight", n_embd) {
            Ok(x) => x,
            Err(e) => return Err(e),
        };
        let hc_head_fn = match map.f16_weight("mtp.0.hc_head_fn.weight") {
            Ok(x) => x,
            Err(e) => return Err(e),
        };
        let hc_head_scale = match map.f32_1d("mtp.0.hc_head_scale.weight", 1) {
            Ok(x) => x,
            Err(e) => return Err(e),
        };
        let hc_head_base = match map.f32_1d("mtp.0.hc_head_base.weight", n_hc) {
            Ok(x) => x,
            Err(e) => return Err(e),
        };
        let block = match LayerWeights::from_prefix(map, "mtp.0.", 0) {
            Ok(x) => x,
            Err(e) => return Err(e),
        };
        Ok(
            MtpWeights {
                e_proj,
                h_proj,
                enorm,
                hnorm,
                norm,
                hc_head_fn,
                hc_head_scale,
                hc_head_base,
                block,
            },
        )
    }
}

// ---------------------------------------------------------------------------
// State
// ---------------------------------------------------------------------------

/// Most drafts in one step.
pub const MAX_DRAFT_TOKENS: usize = 16;

/// Why no state can be built.
#[derive(Clone, Copy, Debug, PartialEq, Eq, Structural)]
pub enum MtpError {
    /// The width of all query heads cannot be counted.
    QOverflow,
    /// The width of all residual streams cannot be counted.
    HcOverflow,
    /// The cache cannot be built.
    Cache(CacheError),
}

impl MtpError {
    /// The words of the message.
    pub open spec fn text(self) -> Seq<char> {
        match self {
            MtpError::QOverflow => "MtpState: Q dimension overflow"@,
            MtpError::HcOverflow => "MtpState: HC dim overflow"@,
            MtpError::Cache(e) => e.text(),
        }
    }

    /// A message for people.
    pub fn message(&self) -> (s: String)
        ensures
            s@ == self.text(),
    {
        match self {
            MtpError::QOverflow => lit("MtpState: Q dimension overflow"),
            MtpError::HcOverflow => lit("MtpState: HC dim overflow"),
            MtpError::Cache(e) => e.message(),
        }
    }
}

/// The state of the draft model.
pub struct MtpState {
    /// The cache of its one block.
    pub kv_cache: KvCache,
    kv_snapshot: KvCacheSnapshot,
    /// The hidden state behind the latest draft.
    pub prev_hidden: Vec<Bits32>,
    /// The scores of the latest draft.
    pub logits: Vec<Bits32>,
    hidden_snapshots_flat: Vec<Bits32>,
    hidden_snapshots_count: usize,
}

/// What the state of a draft model holds.
#[verifier::ext_equal]
pub struct MtpView {
    pub kv: KvView,
    pub snapshot: KvView,
    pub prev_hidden: Seq<Bits32>,
    pub logits: Seq<Bits32>,
    /// The stored hidden states, oldest first.
    pub hiddens: Seq<Seq<Bits32>>,
}

/// The state of a new draft model.
pub open spec fn fresh_mtp(config: ModelConfig, ctx_size: u32) -> MtpView {
    MtpView {
        kv: kv_cache::fresh(1, ctx_size as nat),
        snapshot: kv_cache::fresh(1, ctx_size as nat),
        prev_hidden: bits::splat(ZERO, config.n_embd as nat),
        logits: bits::splat(ZERO, config.n_vocab as nat),
        hiddens: Seq::empty(),
    }
}

/// Why no state can be built, if none can.
pub open spec fn mtp_error(config: ModelConfig, ctx_size: u32) -> Option<MtpError> {
    if config.n_head * config.head_dim > usize::MAX {
        Some(MtpError::QOverflow)
    } else if config.n_hc * config.n_embd > usize::MAX {
        Some(MtpError::HcOverflow)
    } else {
        match KvCache::new_error(1, ctx_size as nat) {
            Some(e) => Some(MtpError::Cache(e)),
            None => None,
        }
    }
}

/// A cache without its newest row in each ring.
pub open spec fn without_last(kv: KvView) -> KvView {
    KvView { raw: Seq::new(kv.raw.len(), |il: int| kv_cache::popped(kv.raw[il])), ..kv }
}

/// A cache without its `n` newest rows in each ring.
pub open spec fn without_rows(kv: KvView, n: nat) -> KvView
    decreases n,
{
    if n == 0 {
        kv
    } else {
        without_last(without_rows(kv, (n - 1) as nat))
    }
}

impl MtpState {
    /// The snapshot has the shape of the cache, and there is room for as many
    /// hidden states as there may be drafts.
    pub closed spec fn wf(&self) -> bool {
        &&& self.kv_cache.wf()
        &&& self.kv_snapshot.fits(self.kv_cache@)
        &&& self.hidden_snapshots_flat.len() == 16 * self.prev_hidden.len()
        &&& self.hidden_snapshots_count <= 16
    }

    pub closed spec fn view(&self) -> MtpView {
        MtpView {
            kv: self.kv_cache@,
            snapshot: self.kv_snapshot@,
            prev_hidden: self.prev_hidden@,
            logits: self.logits@,
            hiddens: Seq::new(
                self.hidden_snapshots_count as nat,
                |i: int|
                    bits::part(
                        self.hidden_snapshots_flat@,
                        i,
                        self.prev_hidden@.len() as int,
                    ),
            ),
        }
    }

    /// A new state; `ctx_size` decides how many rows the cache holds.
    pub fn new(config: &ModelConfig, ctx_size: u32) -> (r: Result<Self, MtpError>)
        requires
            16 * config.n_embd <= usize::MAX,
        ensures
            match r {
                Ok(s) => mtp_error(*config, ctx_size) is None && s.wf() && s@ == fresh_mtp(
                    *config,
                    ctx_size,
                ),
                Err(e) => mtp_error(*config, ctx_size) == Some(e),
            },
    {
        let n_embd: usize = config.n_embd as usize;
        let n_head: usize = config.n_head as usize;
        let n_hc: usize = config.n_hc as usize;
        if n_head.checked_mul(config.head_dim as usize).is_none() {
            return Err(MtpError::QOverflow);
        }
        if n_hc.checked_mul(n_embd).is_none() {
            return Err(MtpError::HcOverflow);
        }
        let kv_cache = match KvCache::new(1, ctx_size as usize) {
            Ok(c) => c,
            Err(e) => return Err(MtpError::Cache(e)),
        };
        let kv_snapshot = KvCacheSnapshot::with_shape(&kv_cache);
        let s = MtpState {
            kv_cache,
            kv_snapshot,
            prev_hidden: vec![ZERO; n_embd],
            logits: vec![ZERO; config.n_vocab as usize],
            hidden_snapshots_flat: vec![ZERO; MAX_DRAFT_TOKENS * n_embd],
            hidden_snapshots_count: 0,
        };
        proof {
            kv_cache::clearing_makes_fresh(s.kv_cache@, 1, ctx_size as nat);
            assert(s@ =~= fresh_mtp(*config, ctx_size));
        }
        Ok(s)
    }

    /// Stores the hidden state behind the others.
    pub fn store_hidden_snapshot(&mut self, n_embd: usize)
        requires
            old(self).wf(),
            old(self)@.prev_hidden.len() == n_embd,
            old(self)@.hiddens.len() < 16,
        ensures
            final(self).wf(),
            final(self)@ == (MtpView {
                hiddens: old(self)@.hiddens.push(old(self)@.prev_hidden),
                ..old(self)@
            }),
    {
        let k: usize = self.hidden_snapshots_count;
        proof {
            bits::part_in_range(k as int, 16, n_embd as int);
        }
        assert(self.prev_hidden.len() == n_embd);
        let off: usize = k * n_embd;
        copy_at(&mut self.hidden_snapshots_flat, off, self.prev_hidden.as_slice());
        self.hidden_snapshots_count = k + 1;
        proof {
            let before = old(self)@.hiddens;
            let after = self@.hiddens;
            assert forall|i: int| 0 <= i < k implies after[i] == before[i] by {
                bits::part_in_range(i, k as int, n_embd as int);
                assert(after[i] =~= before[i]);
            }
            assert(after[k as int] =~= self.prev_hidden@);
            assert(after =~= before.push(self.prev_hidden@));
        }
    }

    /// The stored hidden state `index`.
    pub fn get_hidden_snapshot(&self, index: usize, n_embd: usize) -> (h: &[Bits32])
        requires
            self.wf(),
            self@.prev_hidden.len() == n_embd,
            index < self@.hiddens.len(),
        ensures
            h@ == self@.hiddens[index as int],
    {
        proof {
            bits::part_in_range(index as int, 16, n_embd as int);
        }
        assert(self.hidden_snapshots_flat.len() == 16 * n_embd);
        let off: usize = index * n_embd;
        vstd::slice::slice_subrange(self.hidden_snapshots_flat.as_slice(), off, off + n_embd)
    }

    /// Puts the stored hidden state `index` back.
    pub fn restore_hidden_snapshot(&mut self, index: usize, n_embd: usize)
        requires
            old(self).wf(),
            old(self)@.prev_hidden.len() == n_embd,
            index < old(self)@.hiddens.len(),
        ensures
            final(self).wf(),
            final(self)@ == (MtpView {
                prev_hidden: old(self)@.hiddens[index as int],
                ..old(self)@
            }),
    {
        proof {
            bits::part_in_range(index as int, 16, n_embd as int);
        }
        assert(self.hidden_snapshots_flat.len() == 16 * n_embd);
        let off: usize = index * n_embd;
        let h = vstd::slice::slice_subrange(
            self.hidden_snapshots_flat.as_slice(),
            off,
            off + n_embd,
        );
        copy_all(&mut self.prev_hidden, h);
        assert(self@ =~= (MtpView {
            prev_hidden: old(self)@.hiddens[index as int],
            ..old(self)@
        }));
    }

    /// Forgets the stored hidden states.
    pub fn reset_hidden_snapshots(&mut self)
        requires
            old(self).wf(),
        ensures
            final(self).wf(),
            final(self)@ == (MtpView { hiddens: Seq::empty(), ..old(self)@ }),
    {
        self.hidden_snapshots_count = 0;
        assert(self@ =~= (MtpView { hiddens: Seq::empty(), ..old(self)@ }));
    }

    /// How many hidden states are stored.
    pub fn hidden_snapshot_count(&self) -> (n: usize)
        requires
            self.wf(),
        ensures
            n == self@.hiddens.len(),
    {
        self.hidden_snapshots_count
    }

    /// Zeroes the hidden state and empties the cache.
    pub fn clear(&mut self)
        requires
            old(self).wf(),
        ensures
            final(self).wf(),
            final(self)@ == (MtpView {
                prev_hidden: bits::splat(ZERO, old(self)@.prev_hidden.len()),
                kv: kv_cache::cleared(old(self)@.kv),
                ..old(self)@
            }),
    {
        fill(&mut self.prev_hidden, ZERO);
        self.kv_cache.clear_all();
        proof {
            kv_cache::cleared_keeps_shape(old(self)@.kv);
            kv_cache::same_shape_is_symmetric(self.kv_cache@, old(self)@.kv);
            kv_cache::same_shape_is_transitive(self.kv_snapshot@, old(self)@.kv, self.kv_cache@);
            assert(self@ =~= (MtpView {
                prev_hidden: bits::splat(ZERO, old(self)@.prev_hidden.len()),
                kv: kv_cache::cleared(old(self)@.kv),
                ..old(self)@
            }));
        }
    }

    /// Copies what the cache holds into the snapshot.
    pub fn snapshot_kv(&mut self)
        requires
            old(self).wf(),
        ensures
            final(self).wf(),
            final(self)@ == (MtpView { snapshot: old(self)@.kv, ..old(self)@ }),
    {
        self.kv_cache.snapshot_into(&mut self.kv_snapshot);
        assert(self@ =~= (MtpView { snapshot: old(self)@.kv, ..old(self)@ }));
    }

    /// Puts back what the snapshot holds.
    pub fn restore_kv(&mut self)
        requires
            old(self).wf(),
        ensures
            final(self).wf(),
            final(self)@ == (MtpView { kv: old(self)@.snapshot, ..old(self)@ }),
    {
        self.kv_cache.restore(&self.kv_snapshot);
        assert(self@ =~= (MtpView { kv: old(self)@.snapshot, ..old(self)@ }));
    }

    /// A copy of the hidden state.
    pub fn hidden(&self) -> (h: Vec<Bits32>)
        ensures
            h@ == self@.prev_hidden,
    {
        let h: Vec<Bits32> = self.prev_hidden.clone();
        assert(h@ =~= self.prev_hidden@);
        h
    }

    /// Replaces the hidden state by one of the same width.
    pub fn set_hidden(&mut self, h: &Vec<Bits32>)
        requires
            old(self).wf(),
            h@.len() == old(self)@.prev_hidden.len(),
        ensures
            final(self).wf(),
            final(self)@ == (MtpView { prev_hidden: h@, ..old(self)@ }),
    {
        copy_all(&mut self.prev_hidden, h.as_slice());
        assert(self@ =~= (MtpView { prev_hidden: h@, ..old(self)@ }));
    }

    /// Drops the `n` newest rows of the cache.
    pub fn pop_rows(&mut self, n: usize)
        requires
            old(self).wf(),
        ensures
            final(self).wf(),
            final(self)@ == (MtpView {
                kv: without_rows(old(self)@.kv, n as nat),
                ..old(self)@
            }),
    {
        let ghost v = self@;
        let mut i: usize = 0;
        while i < n
            invariant
                i <= n,
                self.wf(),
                self@ == (MtpView { kv: without_rows(v.kv, i as nat), ..v }),
            decreases n - i,
        {
            let ghost kv = self.kv_cache@;
            self.kv_cache.pop_last_row();
            proof {
                assert forall|j: int| 0 <= j < kv.comp.len() implies kv_cache::same_lane_shape(
                    #[trigger] self.kv_snapshot@.comp[j],
                    self.kv_cache@.comp[j],
                ) by {}
                assert forall|j: int| 0 <= j < kv.idx.len() implies kv_cache::same_lane_shape(
                    #[trigger] self.kv_snapshot@.idx[j],
                    self.kv_cache@.idx[j],
                ) by {}
            }
            i += 1;
            assert(self@ =~= (MtpView { kv: without_rows(v.kv, i as nat), ..v }));
        }
    }
}

/// Dropping `n` rows drops the newest `n` of every ring, as far as it has them, and
/// nothing else.
pub proof fn the_newest_rows_are_dropped(kv: KvView, n: nat, il: int, i: int)
    requires
        0 <= il < kv.raw.len(),
        kv.raw[il].len() % 512 == 0,
    ensures
        ({
            let w = without_rows(kv, n);
            let len = kv.raw[il].len() as int;
            &&& w.raw.len() == kv.raw.len()
            &&& w.comp == kv.comp
            &&& w.idx == kv.idx
            &&& w.cap_raw == kv.cap_raw
            &&& w.raw[il].len() == if 512 * n <= len {
                len - 512 * n
            } else {
                0
            }
            &&& 0 <= i < w.raw[il].len() ==> w.raw[il][i] == kv.raw[il][i]
        }),
    decreases n,
{
    if n > 0 {
        the_newest_rows_are_dropped(kv, (n - 1) as nat, il, i);
        let before = without_rows(kv, (n - 1) as nat).raw[il];
        kv_cache::popping_drops_the_newest_row(before, i);
    }
}

/// A new draft model has a cache of one layer without a compressor, and no hidden
/// states; its numbers are zero.
pub proof fn a_new_draft_model_is_empty(config: ModelConfig, ctx_size: u32, i: int)
    ensures
        ({
            let m = fresh_mtp(config, ctx_size);
            &&& m.kv == m.snapshot
            &&& m.kv.raw.len() == 1
            &&& m.kv.raw[0].len() == 0
            &&& m.kv.comp[0] is None
            &&& m.kv.idx[0] is None
            &&& m.kv.cap_raw == kv_cache::ring_cap(ctx_size as nat)
            &&& m.prev_hidden.len() == config.n_embd
            &&& m.logits.len() == config.n_vocab
            &&& m.hiddens.len() == 0
            &&& 0 <= i < config.n_embd ==> m.prev_hidden[i] == 0
            &&& 0 <= i < config.n_vocab ==> m.logits[i] == 0
        }),
{
}

/// The state of a draft model can be built unless a width cannot be counted or the
/// cache cannot be sized.
pub proof fn ordinary_draft_models_can_be_built(config: ModelConfig, ctx_size: u32)
    requires
        config.n_head * config.head_dim <= 0xFFFF_FFFF,
        config.n_hc * config.n_embd <= 0xFFFF_FFFF,
        ctx_size <= 1000000,
    ensures
        mtp_error(config, ctx_size) is None,
{
    kv_cache::ordinary_caches_can_be_sized(1, ctx_size as nat);
}

/// The weights of a draft model are the tensors of these names.
pub proof fn draft_weights_by_name(w: MtpWeights, m: WeightMapView)
    requires
        w.is_loaded(m),
    ensures
        gguf::bytes_of(m.content, m.file, "mtp.0.e_proj.weight"@) == Ok::<
            Seq<u8>,
            TensorErrorKind,
        >(w.e_proj.data()),
        gguf::bytes_of(m.content, m.file, "mtp.0.h_proj.weight"@) == Ok::<
            Seq<u8>,
            TensorErrorKind,
        >(w.h_proj.data()),
        gguf::bytes_of(m.content, m.file, "mtp.0.hc_head_fn.weight"@) == Ok::<
            Seq<u8>,
            TensorErrorKind,
        >(w.hc_head_fn.data()),
        w.e_proj is Q8_0,
        w.h_proj is Q8_0,
        w.hc_head_fn is F16,
        layer::holds_numbers(m, "mtp.0.enorm.weight"@, w.enorm@, m.config.n_embd as int),
        layer::holds_numbers(m, "mtp.0.hnorm.weight"@, w.hnorm@, m.config.n_embd as int),
        layer::holds_numbers(m, "mtp.0.norm.weight"@, w.norm@, m.config.n_embd as int),
        layer::holds_numbers(m, "mtp.0.hc_head_scale.weight"@, w.hc_head_scale@, 1),
        layer::holds_numbers(m, "mtp.0.hc_head_base.weight"@, w.hc_head_base@, m.config.n_hc as int),
        w.block.is_loaded(m, "mtp.0."@, 0),
{
    let n_embd = m.config.n_embd as usize;
    layer::numbers_of(m, "mtp.0.enorm.weight"@, n_embd, w.enorm@);
    layer::numbers_of(m, "mtp.0.hnorm.weight"@, n_embd, w.hnorm@);
    layer::numbers_of(m, "mtp.0.norm.weight"@, n_embd, w.norm@);
    layer::numbers_of(m, "mtp.0.hc_head_scale.weight"@, 1, w.hc_head_scale@);
    layer::numbers_of(m, "mtp.0.hc_head_base.weight"@, m.config.n_hc as usize, w.hc_head_base@);
}

/// Where every tensor of a draft model can be had as it should be, nothing is wrong
/// with it.
pub proof fn a_draft_model_that_is_complete_has_no_fault(w: MtpWeights, m: WeightMapView)
    requires
        w.is_loaded(m),
        m.config.n_hc <= 10000,
        m.config.n_expert_used * m.config.n_vocab <= usize::MAX,
    ensures
        mtp_fault(m) is None,
{
    layer::a_layer_that_is_complete_has_no_fault(w.block, m, "mtp.0."@, 0);
}

} // verus!
