//! Per-layer key/value caches.
//!
//! Each layer keeps the most recent tokens' rows in a ring of fixed capacity:
//! a new row is appended, and once the ring is full the oldest row leaves.
//! Compressed layers also hold a streaming compressor, and the layers with
//! ratio 4 an indexer; each has a window of per-token state rows and the rows
//! that it has emitted so far.
//!
//! All entries are single-precision numbers, held by their bit patterns.

use vstd::arithmetic::power2::*;
use vstd::prelude::*;

use crate::bits;
use crate::bits::{copy_all, copy_at, fill, shift_down, Bits32, ZERO};
use crate::config;
use crate::config::{layer_compress_ratio, INDEXER_HEAD_DIM};
use crate::float;
use crate::text;
use crate::text::{lit, with_num};

verus! {

/// Width of one cached row.
pub const HEAD_DIM: usize = 512;

/// Most rows that a ring holds.
pub const SWA: usize = 128;

/// Width of the part of a row that positions leave alone.
pub const KV_LATENT_DIM: usize = 448;

/// Width of the rotated tail of a row.
pub const K_PE_DIM: usize = 64;

/// The score of a slot that has received none yet: the bit pattern of -1e30.
pub const NEG_INF: Bits32 = 0xF149_F2CA;

/// Width of one row that an indexer emits.
pub const IDX_DIM: usize = INDEXER_HEAD_DIM as usize;

/// Why a cache could not be built or extended.
#[derive(Clone, Copy, Debug, PartialEq, Eq, Structural)]
pub enum CacheError {
    /// The window of a compressor has more entries than an index can count.
    StateOverflow,
    /// The number of rows that a compressor may emit cannot be counted.
    CapacityOverflow,
    /// The rows that a compressor may emit have more entries than an index can
    /// count.
    RowsOverflow,
    /// The rings have more entries than an index can count.
    RingsOverflow,
    /// The rings do not fit into the address space.
    RingsTooLarge,
    /// A row for a compressor has the wrong width.
    RowWidth { got: usize },
    /// A compressor has already emitted as many rows as it may.
    Full { cap: usize },
    /// The rows that an indexer may emit have more entries than an index can
    /// count.
    IdxRowsOverflow,
    /// A row for an indexer has the wrong width.
    IdxRowWidth { got: usize },
    /// An indexer has already emitted as many rows as it may.
    IdxFull { cap: usize },
}

impl CacheError {
    /// The words of the message.
    pub open spec fn text(self) -> Seq<char> {
        match self {
            CacheError::StateOverflow => "CompressorState: state buffer length overflow"@,
            CacheError::CapacityOverflow => "CompressorState: comp_cap overflow"@,
            CacheError::RowsOverflow => "CompressorState: comp_kv length overflow"@,
            CacheError::RingsOverflow => "KvCache: buffer length overflow"@,
            CacheError::RingsTooLarge => "KvCache: buffer too large"@,
            CacheError::RowWidth { got } => "CompressorState::push_comp: row width "@
                + text::decimal(got as nat) + " != HEAD_DIM 512"@,
            CacheError::Full { cap } => "CompressorState::push_comp: capacity "@
                + text::decimal(cap as nat) + " exceeded"@,
            CacheError::IdxRowsOverflow => "IndexerState: comp_kv length overflow"@,
            CacheError::IdxRowWidth { got } => "IndexerState::push_comp: row width "@
                + text::decimal(got as nat) + " != IDX_DIM 128"@,
            CacheError::IdxFull { cap } => "IndexerState::push_comp: capacity "@
                + text::decimal(cap as nat) + " exceeded"@,
        }
    }

    /// A message for people.
    pub fn message(&self) -> (s: String)
        ensures
            s@ == self.text(),
    {
        match self {
            CacheError::StateOverflow => lit("CompressorState: state buffer length overflow"),
            CacheError::CapacityOverflow => lit("CompressorState: comp_cap overflow"),
            CacheError::RowsOverflow => lit("CompressorState: comp_kv length overflow"),
            CacheError::RingsOverflow => lit("KvCache: buffer length overflow"),
            CacheError::RingsTooLarge => lit("KvCache: buffer too large"),
            CacheError::RowWidth { got } => with_num(
                "CompressorState::push_comp: row width ",
                *got as u64,
                " != HEAD_DIM 512",
            ),
            CacheError::Full { cap } => with_num(
                "CompressorState::push_comp: capacity ",
                *cap as u64,
                " exceeded",
            ),
            CacheError::IdxRowsOverflow => lit("IndexerState: comp_kv length overflow"),
            CacheError::IdxRowWidth { got } => with_num(
                "IndexerState::push_comp: row width ",
                *got as u64,
                " != IDX_DIM 128",
            ),
            CacheError::IdxFull { cap } => with_num(
                "IndexerState::push_comp: capacity ",
                *cap as u64,
                " exceeded",
            ),
        }
    }
}

// ---------------------------------------------------------------------------
// Models
// ---------------------------------------------------------------------------

/// What one compressor or indexer holds: its window of state rows, and the
/// rows that it has emitted, one after the other.
#[verifier::ext_equal]
pub struct LaneView {
    /// Most rows that may be emitted.
    pub cap: nat,
    pub kv: Seq<Bits32>,
    pub score: Seq<Bits32>,
    pub rows: Seq<Bits32>,
}

/// What a cache holds, layer by layer.
#[verifier::ext_equal]
pub struct KvView {
    /// Most rows that a ring holds.
    pub cap_raw: nat,
    /// The rows of each ring, oldest first.
    pub raw: Seq<Seq<Bits32>>,
    pub comp: Seq<Option<LaneView>>,
    pub idx: Seq<Option<LaneView>>,
}

/// A lane with empty state and no emitted rows.
pub open spec fn fresh_lane(cap: nat, state_len: nat) -> LaneView {
    LaneView {
        cap,
        kv: bits::splat(ZERO, state_len),
        score: bits::splat(NEG_INF, state_len),
        rows: Seq::empty(),
    }
}

/// The number of lanes side by side in one state row.
pub open spec fn coff_of(ratio: u32) -> nat {
    if ratio == 4 {
        2
    } else {
        1
    }
}

/// The number of entries in a compressor's window: 8 rows of two lanes for
/// ratio 4, otherwise `ratio` rows of one lane.
pub open spec fn state_len(ratio: u32) -> nat {
    if ratio == 4 {
        8 * 1024
    } else {
        ratio as nat * 512
    }
}

/// How many rows a lane may emit in a context of `ctx` tokens.
pub open spec fn emit_cap(ratio: u32, ctx: nat) -> nat {
    (ctx as int / ratio as int + 2) as nat
}

/// The ratio of layer `il`.
pub open spec fn ratio_at(il: int) -> u32 {
    config::compress_ratio(il as u32)
}

/// How many rows a ring holds in a context of `ctx` tokens.
pub open spec fn ring_cap(ctx: nat) -> nat {
    if ctx == 0 {
        1
    } else if ctx < 128 {
        ctx
    } else {
        128
    }
}

/// An empty cache of `n_layer` layers for a context of `ctx` tokens.
pub open spec fn fresh(n_layer: nat, ctx: nat) -> KvView {
    KvView {
        cap_raw: if n_layer == 0 {
            0
        } else {
            ring_cap(ctx)
        },
        raw: Seq::new(n_layer, |il: int| Seq::empty()),
        comp: Seq::new(
            n_layer,
            |il: int|
                if ratio_at(il) == 0 {
                    None
                } else {
                    Some(fresh_lane(emit_cap(ratio_at(il), ctx), state_len(ratio_at(il))))
                },
        ),
        idx: Seq::new(
            n_layer,
            |il: int|
                if ratio_at(il) == 4 {
                    Some(fresh_lane(emit_cap(4, ctx), 2048))
                } else {
                    None
                },
        ),
    }
}

/// `a` and `b` are lanes of one shape.
pub open spec fn same_lane_shape(a: Option<LaneView>, b: Option<LaneView>) -> bool {
    match (a, b) {
        (Some(x), Some(y)) => x.cap == y.cap && x.kv.len() == y.kv.len() && x.score.len()
            == y.score.len(),
        (None, None) => true,
        _ => false,
    }
}

/// `a` and `b` have as many layers, of the same shapes.
pub open spec fn same_shape(a: KvView, b: KvView) -> bool {
    &&& a.cap_raw == b.cap_raw
    &&& a.raw.len() == b.raw.len()
    &&& a.comp.len() == b.comp.len()
    &&& a.idx.len() == b.idx.len()
    &&& forall|i: int|
        0 <= i < a.comp.len() ==> same_lane_shape(#[trigger] a.comp[i], b.comp[i])
    &&& forall|i: int| 0 <= i < a.idx.len() ==> same_lane_shape(#[trigger] a.idx[i], b.idx[i])
}

/// The lane with empty state and no emitted rows, of the same shape.
pub open spec fn cleared_lane(l: Option<LaneView>) -> Option<LaneView> {
    match l {
        Some(x) => Some(
            LaneView {
                cap: x.cap,
                kv: bits::splat(ZERO, x.kv.len()),
                score: bits::splat(NEG_INF, x.score.len()),
                rows: Seq::empty(),
            },
        ),
        None => None,
    }
}

/// The empty cache of the same shape.
pub open spec fn cleared(v: KvView) -> KvView {
    KvView {
        cap_raw: v.cap_raw,
        raw: Seq::new(v.raw.len(), |il: int| Seq::empty()),
        comp: Seq::new(v.comp.len(), |il: int| cleared_lane(v.comp[il])),
        idx: Seq::new(v.idx.len(), |il: int| cleared_lane(v.idx[il])),
    }
}

/// A ring of at most `cap` rows after `row` was pushed.
pub open spec fn pushed(rows: Seq<Bits32>, cap: nat, row: Seq<Bits32>) -> Seq<Bits32> {
    if rows.len() < cap * 512 {
        rows + row
    } else {
        rows.skip(512) + row
    }
}

/// A ring without its newest row.
pub open spec fn popped(rows: Seq<Bits32>) -> Seq<Bits32> {
    if rows.len() < 512 {
        Seq::empty()
    } else {
        rows.take(rows.len() - 512)
    }
}

// ---------------------------------------------------------------------------
// Streaming compressor
// ---------------------------------------------------------------------------

/// State of the streaming compressor of one layer.
///
/// The window has `coff * ratio` rows of `coff * HEAD_DIM` entries, where
/// `coff` is 2 for ratio 4 and 1 otherwise. Scores start at `NEG_INF`, so that
/// slots without a score do not count.
pub struct CompressorState {
    pub ratio: u32,
    pub comp_cap: usize,
    pub state_kv: Vec<Bits32>,
    pub state_score: Vec<Bits32>,
    pub comp_kv: Vec<Bits32>,
    pub n_comp: usize,
}

impl CompressorState {
    /// The buffers have the lengths that the ratio and the capacity ask for.
    pub open spec fn wf(&self) -> bool {
        &&& self.ratio != 0
        &&& self.state_kv.len() == state_len(self.ratio)
        &&& self.state_score.len() == state_len(self.ratio)
        &&& self.comp_kv.len() == self.comp_cap * 512
        &&& self.n_comp <= self.comp_cap
    }

    pub open spec fn view(&self) -> LaneView {
        LaneView {
            cap: self.comp_cap as nat,
            kv: self.state_kv@,
            score: self.state_score@,
            rows: self.comp_kv@.take(self.n_comp * 512),
        }
    }

    /// Why no state can be built for `ratio` and `ctx`, if none can.
    pub open spec fn new_error(ratio: u32, ctx: nat) -> Option<CacheError> {
        if state_len(ratio) > usize::MAX {
            Some(CacheError::StateOverflow)
        } else if emit_cap(ratio, ctx) > usize::MAX {
            Some(CacheError::CapacityOverflow)
        } else if emit_cap(ratio, ctx) * 512 > usize::MAX {
            Some(CacheError::RowsOverflow)
        } else {
            None
        }
    }

    /// An empty state for one layer with a ratio other than zero, or the
    /// reason why its buffers cannot be sized.
    pub fn new(ratio: u32, ctx_size: usize) -> (r: Result<Self, CacheError>)
        requires
            ratio != 0,
        ensures
            match r {
                Ok(c) => Self::new_error(ratio, ctx_size as nat) is None && c.wf() && c.ratio
                    == ratio && c@ == fresh_lane(
                    emit_cap(ratio, ctx_size as nat),
                    state_len(ratio),
                ),
                Err(e) => Self::new_error(ratio, ctx_size as nat) == Some(e),
            },
    {
        let coff: usize = if ratio == 4 {
            2
        } else {
            1
        };
        let width: usize = coff * HEAD_DIM;
        let rows: usize = coff * (ratio as usize);
        assert(rows * width == state_len(ratio));
        let len: usize = match rows.checked_mul(width) {
            Some(n) => n,
            None => return Err(CacheError::StateOverflow),
        };
        let comp_cap: usize = match (ctx_size / (ratio as usize)).checked_add(2) {
            Some(n) => n,
            None => return Err(CacheError::CapacityOverflow),
        };
        let comp_len: usize = match comp_cap.checked_mul(HEAD_DIM) {
            Some(n) => n,
            None => return Err(CacheError::RowsOverflow),
        };
        let c = CompressorState {
            ratio,
            comp_cap,
            state_kv: vec![ZERO; len],
            state_score: vec![NEG_INF; len],
            comp_kv: vec![ZERO; comp_len],
            n_comp: 0,
        };
        assert(c@ =~= fresh_lane(emit_cap(ratio, ctx_size as nat), state_len(ratio)));
        Ok(c)
    }

    /// The number of lanes side by side in one state row.
    pub fn coff(&self) -> (n: usize)
        ensures
            n == coff_of(self.ratio),
    {
        if self.ratio == 4 {
            2
        } else {
            1
        }
    }

    /// The width of one state row.
    pub fn width(&self) -> (n: usize)
        ensures
            n == coff_of(self.ratio) * 512,
    {
        self.coff() * HEAD_DIM
    }

    /// Back to the empty state; the buffers stay allocated.
    pub fn clear(&mut self)
        requires
            old(self).wf(),
        ensures
            final(self).wf(),
            final(self).ratio == old(self).ratio,
            Some(final(self)@) == cleared_lane(Some(old(self)@)),
    {
        fill(&mut self.state_kv, ZERO);
        fill(&mut self.state_score, NEG_INF);
        self.n_comp = 0;
        assert(self@.rows =~= Seq::empty());
    }

    /// Appends one emitted row, unless its width is wrong or as many rows as
    /// possible have been emitted.
    pub fn push_comp(&mut self, row: &[Bits32]) -> (r: Result<(), CacheError>)
        requires
            old(self).wf(),
        ensures
            final(self).wf(),
            final(self).ratio == old(self).ratio,
            match r {
                Ok(_) => row@.len() == 512 && old(self).n_comp < old(self).comp_cap && final(self).n_comp == old(self).n_comp + 1 && final(self)@ == (LaneView {
                    rows: old(self)@.rows + row@,
                    ..old(self)@
                }),
                Err(e) => *final(self) == *old(self) && if row@.len() != 512 {
                    e == (CacheError::RowWidth { got: row@.len() as usize })
                } else {
                    old(self).n_comp >= old(self).comp_cap && e == (CacheError::Full {
                        cap: old(self).comp_cap,
                    })
                },
            },
    {
        if row.len() != HEAD_DIM {
            return Err(CacheError::RowWidth { got: row.len() });
        }
        if self.n_comp >= self.comp_cap {
            return Err(CacheError::Full { cap: self.comp_cap });
        }
        let off: usize = self.n_comp * HEAD_DIM;
        copy_at(&mut self.comp_kv, off, row);
        self.n_comp += 1;
        assert(self@.rows =~= old(self)@.rows + row@);
        Ok(())
    }

    /// Replaces the window and the emitted rows.
    pub fn load(&mut self, rows: &[Bits32], kv: Vec<Bits32>, score: Vec<Bits32>)
        requires
            old(self).wf(),
            rows@.len() % 512 == 0,
            rows@.len() <= old(self)@.cap * 512,
            kv@.len() == state_len(old(self).ratio),
            score@.len() == state_len(old(self).ratio),
        ensures
            final(self).wf(),
            final(self).ratio == old(self).ratio,
            final(self)@ == (LaneView {
                cap: old(self)@.cap,
                kv: kv@,
                score: score@,
                rows: rows@,
            }),
    {
        copy_at(&mut self.comp_kv, 0, rows);
        self.n_comp = rows.len() / HEAD_DIM;
        self.state_kv = kv;
        self.state_score = score;
        assert(self@.rows =~= rows@);
    }

    /// The emitted rows, one after the other.
    pub fn comp_rows(&self) -> (rows: &[Bits32])
        requires
            self.wf(),
        ensures
            rows@ == self@.rows,
            rows@.len() == self.n_comp * 512,
    {
        vstd::slice::slice_subrange(self.comp_kv.as_slice(), 0, self.n_comp * HEAD_DIM)
    }
}

// ---------------------------------------------------------------------------
// Streaming indexer
// ---------------------------------------------------------------------------

/// State of the indexer of one layer with ratio 4.
///
/// The window has 8 rows of `2 * IDX_DIM` entries; the emitted rows are
/// `IDX_DIM` wide.
pub struct IndexerState {
    pub comp_cap: usize,
    pub state_kv: Vec<Bits32>,
    pub state_score: Vec<Bits32>,
    pub comp_kv: Vec<Bits32>,
    pub n_comp: usize,
}

impl IndexerState {
    /// The buffers have the lengths that the capacity asks for.
    pub open spec fn wf(&self) -> bool {
        &&& self.state_kv.len() == 2048
        &&& self.state_score.len() == 2048
        &&& self.comp_kv.len() == self.comp_cap * 128
        &&& self.n_comp <= self.comp_cap
    }

    pub open spec fn view(&self) -> LaneView {
        LaneView {
            cap: self.comp_cap as nat,
            kv: self.state_kv@,
            score: self.state_score@,
            rows: self.comp_kv@.take(self.n_comp * 128),
        }
    }

    /// An empty indexer, unless the rows that it may emit cannot be counted.
    pub fn new(ctx_size: usize) -> (r: Result<Self, CacheError>)
        ensures
            match r {
                Ok(c) => emit_cap(4, ctx_size as nat) * 128 <= usize::MAX && c.wf() && c@
                    == fresh_lane(emit_cap(4, ctx_size as nat), 2048),
                Err(e) => emit_cap(4, ctx_size as nat) * 128 > usize::MAX && e
                    == CacheError::IdxRowsOverflow,
            },
    {
        let comp_cap: usize = ctx_size / 4 + 2;
        let comp_len: usize = match comp_cap.checked_mul(IDX_DIM) {
            Some(n) => n,
            None => return Err(CacheError::IdxRowsOverflow),
        };
        let c = IndexerState {
            comp_cap,
            state_kv: vec![ZERO; 2048],
            state_score: vec![NEG_INF; 2048],
            comp_kv: vec![ZERO; comp_len],
            n_comp: 0,
        };
        assert(c@ =~= fresh_lane(emit_cap(4, ctx_size as nat), 2048));
        Ok(c)
    }

    /// The width of one state row.
    pub fn width(&self) -> (n: usize)
        ensures
            n == 256,
    {
        2 * IDX_DIM
    }

    /// Back to the empty state; the buffers stay allocated.
    pub fn clear(&mut self)
        requires
            old(self).wf(),
        ensures
            final(self).wf(),
            Some(final(self)@) == cleared_lane(Some(old(self)@)),
    {
        fill(&mut self.state_kv, ZERO);
        fill(&mut self.state_score, NEG_INF);
        self.n_comp = 0;
        assert(self@.rows =~= Seq::empty());
    }

    /// Appends one emitted row, unless its width is wrong or as many rows as
    /// possible have been emitted.
    pub fn push_comp(&mut self, row: &[Bits32]) -> (r: Result<(), CacheError>)
        requires
            old(self).wf(),
        ensures
            final(self).wf(),
            match r {
                Ok(_) => row@.len() == 128 && old(self).n_comp < old(self).comp_cap && final(self).n_comp == old(self).n_comp + 1 && final(self)@ == (LaneView {
                    rows: old(self)@.rows + row@,
                    ..old(self)@
                }),
                Err(e) => *final(self) == *old(self) && if row@.len() != 128 {
                    e == (CacheError::IdxRowWidth { got: row@.len() as usize })
                } else {
                    old(self).n_comp >= old(self).comp_cap && e == (CacheError::IdxFull {
                        cap: old(self).comp_cap,
                    })
                },
            },
    {
        if row.len() != IDX_DIM {
            return Err(CacheError::IdxRowWidth { got: row.len() });
        }
        if self.n_comp >= self.comp_cap {
            return Err(CacheError::IdxFull { cap: self.comp_cap });
        }
        let off: usize = self.n_comp * IDX_DIM;
        copy_at(&mut self.comp_kv, off, row);
        self.n_comp += 1;
        assert(self@.rows =~= old(self)@.rows + row@);
        Ok(())
    }

    /// Replaces the window and the emitted rows.
    pub fn load(&mut self, rows: &[Bits32], kv: Vec<Bits32>, score: Vec<Bits32>)
        requires
            old(self).wf(),
            rows@.len() % 128 == 0,
            rows@.len() <= old(self)@.cap * 128,
            kv@.len() == 2048,
            score@.len() == 2048,
        ensures
            final(self).wf(),
            final(self)@ == (LaneView {
                cap: old(self)@.cap,
                kv: kv@,
                score: score@,
                rows: rows@,
            }),
    {
        copy_at(&mut self.comp_kv, 0, rows);
        self.n_comp = rows.len() / IDX_DIM;
        self.state_kv = kv;
        self.state_score = score;
        assert(self@.rows =~= rows@);
    }

    /// The emitted rows, one after the other.
    pub fn comp_rows(&self) -> (rows: &[Bits32])
        requires
            self.wf(),
        ensures
            rows@ == self@.rows,
            rows@.len() == self.n_comp * 128,
    {
        vstd::slice::slice_subrange(self.comp_kv.as_slice(), 0, self.n_comp * IDX_DIM)
    }
}

// ---------------------------------------------------------------------------
// Raw ring
// ---------------------------------------------------------------------------

/// One layer's ring of the most recent rows.
pub struct RawLayerCache {
    raw_kv: Vec<Bits32>,
    n_raw: usize,
    cap_raw: usize,
}

impl RawLayerCache {
    /// The buffer holds `cap_raw` rows, of which `n_raw` are live.
    pub closed spec fn wf(&self) -> bool {
        &&& self.raw_kv.len() == self.cap_raw * 512
        &&& self.n_raw <= self.cap_raw
    }

    /// The live rows, oldest first.
    pub closed spec fn view(&self) -> Seq<Bits32> {
        self.raw_kv@.take(self.n_raw * 512)
    }

    /// Most rows that the ring holds.
    pub closed spec fn cap(&self) -> nat {
        self.cap_raw as nat
    }

    /// The live rows are whole rows, no more than the capacity.
    pub proof fn rows_fit(&self)
        requires
            self.wf(),
        ensures
            self@.len() % 512 == 0,
            self@.len() <= self.cap() * 512,
            self.cap() * 512 <= usize::MAX,
    {
    }

    /// An empty ring of `cap_raw` rows.
    pub fn new(cap_raw: usize) -> (r: Self)
        requires
            cap_raw * 512 <= usize::MAX,
        ensures
            r.wf(),
            r@ == Seq::<Bits32>::empty(),
            r.cap() == cap_raw,
    {
        let r = RawLayerCache { raw_kv: vec![ZERO; cap_raw * HEAD_DIM], n_raw: 0, cap_raw };
        assert(r@ =~= Seq::<Bits32>::empty());
        r
    }

    /// Appends a row of width `HEAD_DIM`; when the ring is full, the oldest
    /// row leaves.
    pub fn push(&mut self, kv: &[Bits32])
        requires
            old(self).wf(),
            kv@.len() == 512,
            old(self).cap() >= 1,
        ensures
            final(self).wf(),
            final(self).cap() == old(self).cap(),
            final(self)@ == pushed(old(self)@, old(self).cap(), kv@),
    {
        let slot: usize = if self.n_raw < self.cap_raw {
            let s: usize = self.n_raw;
            self.n_raw += 1;
            s
        } else {
            shift_down(&mut self.raw_kv, HEAD_DIM);
            self.cap_raw - 1
        };
        let ghost moved = self.raw_kv@;
        let off: usize = slot * HEAD_DIM;
        copy_at(&mut self.raw_kv, off, kv);
        proof {
            if old(self).n_raw < old(self).cap_raw {
                assert(self@ =~= old(self)@ + kv@);
            } else {
                assert(old(self)@ =~= old(self).raw_kv@);
                assert(moved.take(off as int) =~= old(self).raw_kv@.skip(512));
                assert(self@ =~= old(self)@.skip(512) + kv@);
            }
        }
    }

    /// Drops all rows; the buffer stays allocated.
    pub fn clear(&mut self)
        requires
            old(self).wf(),
        ensures
            final(self).wf(),
            final(self).cap() == old(self).cap(),
            final(self)@ == Seq::<Bits32>::empty(),
    {
        self.n_raw = 0;
        assert(self@ =~= Seq::<Bits32>::empty());
    }

    /// Drops the newest row, if there is one.
    pub fn pop(&mut self)
        requires
            old(self).wf(),
        ensures
            final(self).wf(),
            final(self).cap() == old(self).cap(),
            final(self)@ == popped(old(self)@),
    {
        if self.n_raw > 0 {
            self.n_raw -= 1;
        }
        assert(self@ =~= popped(old(self)@));
    }

    /// The number of live rows.
    pub fn n_raw(&self) -> (n: usize)
        requires
            self.wf(),
        ensures
            n * 512 == self@.len(),
            n <= self.cap(),
    {
        self.n_raw
    }

    /// Most rows that the ring holds.
    pub fn cap_raw(&self) -> (n: usize)
        ensures
            n == self.cap(),
    {
        self.cap_raw
    }

    /// The live rows, oldest first.
    pub fn rows(&self) -> (rows: &[Bits32])
        requires
            self.wf(),
        ensures
            rows@ == self@,
    {
        vstd::slice::slice_subrange(self.raw_kv.as_slice(), 0, self.n_raw * HEAD_DIM)
    }
}

// ---------------------------------------------------------------------------
// All layers
// ---------------------------------------------------------------------------

/// What an optional compressor holds.
pub open spec fn comp_lane(c: Option<CompressorState>) -> Option<LaneView> {
    match c {
        Some(x) => Some(x@),
        None => None,
    }
}

/// What an optional indexer holds.
pub open spec fn idx_lane(c: Option<IndexerState>) -> Option<LaneView> {
    match c {
        Some(x) => Some(x@),
        None => None,
    }
}

/// Whole emitted rows of `dim` entries, no more than the capacity, beside a
/// window of `state` entries.
pub open spec fn valid_lane(l: LaneView, dim: nat, state: nat) -> bool {
    &&& l.kv.len() == state
    &&& l.score.len() == state
    &&& l.rows.len() % dim == 0
    &&& l.rows.len() <= l.cap * dim
    &&& l.cap * dim <= usize::MAX
}

/// Every layer has the ring, the compressor and the indexer that it should.
pub open spec fn valid(v: KvView) -> bool {
    &&& v.comp.len() == v.raw.len()
    &&& v.idx.len() == v.raw.len()
    &&& v.raw.len() > 0 ==> v.cap_raw >= 1
    &&& v.cap_raw * 512 <= usize::MAX
    &&& forall|il: int|
        0 <= il < v.raw.len() ==> (#[trigger] v.raw[il]).len() % 512 == 0 && v.raw[il].len()
            <= v.cap_raw * 512
    &&& forall|il: int|
        0 <= il < v.comp.len() ==> match #[trigger] v.comp[il] {
            Some(l) => ratio_at(il) != 0 && valid_lane(l, 512, state_len(ratio_at(il))),
            None => ratio_at(il) == 0,
        }
    &&& forall|il: int|
        0 <= il < v.idx.len() ==> match #[trigger] v.idx[il] {
            Some(l) => ratio_at(il) == 4 && valid_lane(l, 128, 2048),
            None => ratio_at(il) != 4,
        }
}

/// The caches of all layers: a ring for each, a compressor for those with a
/// ratio other than zero, an indexer for those with ratio 4.
pub struct KvCache {
    layers: Vec<RawLayerCache>,
    compressors: Vec<Option<CompressorState>>,
    indexers: Vec<Option<IndexerState>>,
}

impl KvCache {
    /// Every part is well-formed and belongs to its layer.
    pub closed spec fn wf(&self) -> bool {
        &&& self.compressors.len() == self.layers.len()
        &&& self.indexers.len() == self.layers.len()
        &&& forall|il: int|
            0 <= il < self.layers.len() ==> (#[trigger] self.layers[il]).wf()
                && self.layers[il].cap() == self.layers[0].cap() && self.layers[il].cap() >= 1
        &&& forall|il: int|
            0 <= il < self.compressors.len() ==> match #[trigger] self.compressors[il] {
                Some(c) => c.wf() && c.ratio == ratio_at(il),
                None => ratio_at(il) == 0,
            }
        &&& forall|il: int|
            0 <= il < self.indexers.len() ==> match #[trigger] self.indexers[il] {
                Some(c) => c.wf() && ratio_at(il) == 4,
                None => ratio_at(il) != 4,
            }
    }

    /// What the cache holds.
    pub closed spec fn view(&self) -> KvView {
        KvView {
            cap_raw: if self.layers.len() == 0 {
                0
            } else {
                self.layers[0].cap()
            },
            raw: Seq::new(self.layers.len() as nat, |il: int| self.layers[il]@),
            comp: Seq::new(self.compressors.len() as nat, |il: int| comp_lane(self.compressors[il])),
            idx: Seq::new(self.indexers.len() as nat, |il: int| idx_lane(self.indexers[il])),
        }
    }

    /// A well-formed cache holds what its layers should.
    pub proof fn wf_valid(&self)
        requires
            self.wf(),
        ensures
            valid(self@),
            self@.raw.len() <= usize::MAX,
    {
        if self.layers.len() > 0 {
            assert(self.layers[0].wf());
            self.layers[0].rows_fit();
        }
        assert forall|il: int| 0 <= il < self@.raw.len() implies (#[trigger] self@.raw[il]).len()
            % 512 == 0 && self@.raw[il].len() <= self@.cap_raw * 512 by {
            self.layers[il].rows_fit();
        }
        assert forall|il: int| 0 <= il < self@.comp.len() implies match #[trigger] self@.comp[il] {
            Some(l) => ratio_at(il) != 0 && valid_lane(l, 512, state_len(ratio_at(il))),
            None => ratio_at(il) == 0,
        } by {
            match self.compressors[il] {
                Some(c) => {
                    assert(c.comp_kv.len() == c.comp_kv@.len());
                },
                None => {},
            }
        }
        assert forall|il: int| 0 <= il < self@.idx.len() implies match #[trigger] self@.idx[il] {
            Some(l) => ratio_at(il) == 4 && valid_lane(l, 128, 2048),
            None => ratio_at(il) != 4,
        } by {
            match self.indexers[il] {
                Some(c) => {
                    assert(c.comp_kv.len() == c.comp_kv@.len());
                },
                None => {},
            }
        }
    }

    /// Why no cache of `n_layer` layers can be built for `ctx`, if none can.
    pub open spec fn new_error(n_layer: nat, ctx: nat) -> Option<CacheError> {
        if n_layer * ring_cap(ctx) * 512 > usize::MAX {
            Some(CacheError::RingsOverflow)
        } else if n_layer * ring_cap(ctx) * 512 > isize::MAX {
            Some(CacheError::RingsTooLarge)
        } else if n_layer > 2 && emit_cap(4, ctx) * 512 > usize::MAX {
            Some(CacheError::RowsOverflow)
        } else {
            None
        }
    }

    /// Empty caches for `n_layer` layers in a context of `ctx_size` tokens, or
    /// the reason why they cannot be sized.
    ///
    /// A ring holds `ctx_size` rows, but no more than `SWA` and no fewer than
    /// one; what a compressor may emit grows with the whole context.
    pub fn new(n_layer: usize, ctx_size: usize) -> (r: Result<Self, CacheError>)
        ensures
            match r {
                Ok(c) => Self::new_error(n_layer as nat, ctx_size as nat) is None && c.wf() && c@
                    == fresh(n_layer as nat, ctx_size as nat),
                Err(e) => Self::new_error(n_layer as nat, ctx_size as nat) == Some(e),
            },
    {
        let cap_raw: usize = if ctx_size == 0 {
            1
        } else if ctx_size < SWA {
            ctx_size
        } else {
            SWA
        };
        assert(cap_raw == ring_cap(ctx_size as nat));
        let rows: usize = match n_layer.checked_mul(cap_raw) {
            Some(n) => n,
            None => {
                assert(n_layer * ring_cap(ctx_size as nat) * 512 > usize::MAX);
                return Err(CacheError::RingsOverflow);
            },
        };
        let total: usize = match rows.checked_mul(HEAD_DIM) {
            Some(n) => n,
            None => return Err(CacheError::RingsOverflow),
        };
        if total > isize::MAX as usize {
            return Err(CacheError::RingsTooLarge);
        }
        let mut layers: Vec<RawLayerCache> = Vec::new();
        let mut compressors: Vec<Option<CompressorState>> = Vec::new();
        let mut indexers: Vec<Option<IndexerState>> = Vec::new();
        let ghost want = fresh(n_layer as nat, ctx_size as nat);
        let ghost fits = emit_cap(4, ctx_size as nat) * 512 <= usize::MAX;
        let mut il: usize = 0;
        while il < n_layer
            invariant
                il <= n_layer,
                compressors.len() == il,
                want == fresh(n_layer as nat, ctx_size as nat),
                fits == (emit_cap(4, ctx_size as nat) * 512 <= usize::MAX),
                n_layer * ring_cap(ctx_size as nat) * 512 <= isize::MAX,
                il > 2 ==> fits,
                forall|j: int|
                    0 <= j < il ==> (match #[trigger] compressors[j] {
                        Some(c) => c.wf() && c.ratio == ratio_at(j),
                        None => ratio_at(j) == 0,
                    }) && comp_lane(compressors[j]) == want.comp[j],
            decreases n_layer - il,
        {
            let ratio: u32 = layer_compress_ratio(il as u32);
            assert(ratio == ratio_at(il as int));
            assert(il <= u32::MAX ==> (il as u32) == il);
            proof {
                assert(emit_cap(128, ctx_size as nat) <= emit_cap(4, ctx_size as nat));
                assert(state_len(4) == 8192);
                assert(state_len(128) == 65536);
            }
            if ratio == 0 {
                compressors.push(None);
            } else {
                match CompressorState::new(ratio, ctx_size) {
                    Ok(c) => compressors.push(Some(c)),
                    Err(e) => {
                        return Err(e);
                    },
                }
            }
            il += 1;
        }
        let mut il: usize = 0;
        while il < n_layer
            invariant
                il <= n_layer,
                indexers.len() == il,
                want == fresh(n_layer as nat, ctx_size as nat),
                n_layer > 2 ==> emit_cap(4, ctx_size as nat) * 512 <= usize::MAX,
                forall|j: int|
                    0 <= j < il ==> (match #[trigger] indexers[j] {
                        Some(c) => c.wf() && ratio_at(j) == 4,
                        None => ratio_at(j) != 4,
                    }) && idx_lane(indexers[j]) == want.idx[j],
            decreases n_layer - il,
        {
            assert(il <= u32::MAX ==> (il as u32) == il);
            if layer_compress_ratio(il as u32) == 4 {
                match IndexerState::new(ctx_size) {
                    Ok(c) => indexers.push(Some(c)),
                    Err(e) => {
                        assert(false);
                        return Err(e);
                    },
                }
            } else {
                indexers.push(None);
            }
            il += 1;
        }
        let mut il: usize = 0;
        while il < n_layer
            invariant
                il <= n_layer,
                layers.len() == il,
                1 <= cap_raw <= 128,
                forall|j: int|
                    0 <= j < il ==> (#[trigger] layers[j]).wf() && layers[j].cap() == cap_raw
                        && layers[j]@ == Seq::<Bits32>::empty(),
            decreases n_layer - il,
        {
            layers.push(RawLayerCache::new(cap_raw));
            il += 1;
        }
        let c = KvCache { layers, compressors, indexers };
        assert(c@ =~= want);
        Ok(c)
    }

    /// The ring of layer `il`.
    pub fn layer(&self, il: usize) -> (r: &RawLayerCache)
        requires
            self.wf(),
            il < self@.raw.len(),
        ensures
            r.wf(),
            r@ == self@.raw[il as int],
            r.cap() == self@.cap_raw,
    {
        &self.layers[il]
    }

    /// The ring of layer `il`, to be changed. While the ring keeps its
    /// capacity, the cache stays well-formed and no other layer changes.
    pub fn layer_mut(&mut self, il: usize) -> (r: &mut RawLayerCache)
        requires
            old(self).wf(),
            il < old(self)@.raw.len(),
        ensures
            r.wf(),
            r@ == old(self)@.raw[il as int],
            r.cap() == old(self)@.cap_raw,
            final(r).wf() && final(r).cap() == r.cap() ==> final(self).wf() && final(self)@ == (
            KvView { raw: old(self)@.raw.update(il as int, final(r)@), ..old(self)@ }),
    {
        proof {
            let ghost before = *self;
            assert forall|x: RawLayerCache, after: KvCache|
                #![trigger before.layers@.update(il as int, x), after.layers@]
                x.wf() && x.cap() == before.layers[il as int].cap() && after.layers@
                    == before.layers@.update(il as int, x) && after.compressors
                    == before.compressors && after.indexers == before.indexers implies after.wf()
                && after@ == (KvView { raw: before@.raw.update(il as int, x@), ..before@ }) by {
                assert(after@ =~= (KvView {
                    raw: before@.raw.update(il as int, x@),
                    ..before@
                }));
            }
        }
        &mut self.layers[il]
    }

    /// The compressor of layer `il`; dense layers have none.
    pub fn compressor(&self, il: usize) -> (r: Option<&CompressorState>)
        requires
            self.wf(),
            il < self@.raw.len(),
        ensures
            match r {
                Some(c) => c.wf() && c.ratio == ratio_at(il as int) && self@.comp[il as int]
                    == Some(c@),
                None => self@.comp[il as int] is None,
            },
    {
        match &self.compressors[il] {
            Some(c) => Some(c),
            None => None,
        }
    }

    /// The compressor of layer `il`, to be changed.
    pub fn compressor_mut(&mut self, il: usize) -> (r: Option<&mut CompressorState>)
        requires
            old(self).wf(),
            il < old(self)@.raw.len(),
        ensures
            match r {
                Some(c) => c.wf() && c.ratio == ratio_at(il as int) && old(self)@.comp[il as int]
                    == Some(c@) && (final(c).wf() && final(c).ratio == c.ratio ==> final(self).wf()
                    && final(self)@ == (KvView {
                    comp: old(self)@.comp.update(il as int, Some(final(c)@)),
                    ..old(self)@
                })),
                None => old(self)@.comp[il as int] is None && final(self).wf() && final(self)@
                    == old(self)@,
            },
    {
        proof {
            let ghost before = *self;
            assert forall|x: CompressorState, after: KvCache|
                #![trigger before.compressors@.update(il as int, Some(x)), after.compressors@]
                x.wf() && x.ratio == ratio_at(il as int) && ratio_at(il as int) != 0
                    && after.compressors@ == before.compressors@.update(
                    il as int,
                    Some(x),
                ) && after.layers == before.layers && after.indexers
                    == before.indexers implies after.wf() && after@ == (KvView {
                comp: before@.comp.update(il as int, Some(x@)),
                ..before@
            }) by {
                assert(after@ =~= (KvView {
                    comp: before@.comp.update(il as int, Some(x@)),
                    ..before@
                }));
            }
            assert(before.compressors@.update(il as int, before.compressors[il as int])
                =~= before.compressors@);
        }
        match &mut self.compressors[il] {
            Some(c) => Some(c),
            None => None,
        }
    }

    /// The indexer of layer `il`; only layers with ratio 4 have one.
    pub fn indexer(&self, il: usize) -> (r: Option<&IndexerState>)
        requires
            self.wf(),
            il < self@.raw.len(),
        ensures
            match r {
                Some(c) => c.wf() && self@.idx[il as int] == Some(c@),
                None => self@.idx[il as int] is None,
            },
    {
        match &self.indexers[il] {
            Some(c) => Some(c),
            None => None,
        }
    }

    /// The indexer of layer `il`, to be changed.
    pub fn indexer_mut(&mut self, il: usize) -> (r: Option<&mut IndexerState>)
        requires
            old(self).wf(),
            il < old(self)@.raw.len(),
        ensures
            match r {
                Some(c) => c.wf() && old(self)@.idx[il as int] == Some(c@) && (final(c).wf()
                    ==> final(self).wf() && final(self)@ == (KvView {
                    idx: old(self)@.idx.update(il as int, Some(final(c)@)),
                    ..old(self)@
                })),
                None => old(self)@.idx[il as int] is None && final(self).wf() && final(self)@
                    == old(self)@,
            },
    {
        proof {
            let ghost before = *self;
            assert forall|x: IndexerState, after: KvCache|
                #![trigger before.indexers@.update(il as int, Some(x)), after.indexers@]
                x.wf() && ratio_at(il as int) == 4 && after.indexers@
                    == before.indexers@.update(il as int, Some(x)) && after.layers == before.layers
                    && after.compressors == before.compressors implies after.wf() && after@ == (
            KvView { idx: before@.idx.update(il as int, Some(x@)), ..before@ }) by {
                assert(after@ =~= (KvView {
                    idx: before@.idx.update(il as int, Some(x@)),
                    ..before@
                }));
            }
            assert(before.indexers@.update(il as int, before.indexers[il as int])
                =~= before.indexers@);
        }
        match &mut self.indexers[il] {
            Some(c) => Some(c),
            None => None,
        }
    }

    /// The number of layers.
    pub fn n_layer(&self) -> (n: usize)
        ensures
            n == self@.raw.len(),
    {
        self.layers.len()
    }

    /// Most rows that a ring holds; zero without layers.
    pub fn cap_raw(&self) -> (n: usize)
        ensures
            n == self@.cap_raw,
    {
        if self.layers.len() == 0 {
            0
        } else {
            self.layers[0].cap_raw()
        }
    }

    /// Empties every ring, compressor and indexer; the buffers stay allocated.
    pub fn clear_all(&mut self)
        requires
            old(self).wf(),
        ensures
            final(self).wf(),
            final(self)@ == cleared(old(self)@),
    {
        let n: usize = self.layers.len();
        let mut i: usize = 0;
        while i < n
            invariant
                i <= n,
                n == old(self).layers.len(),
                old(self).wf(),
                self.wf(),
                self.layers.len() == n,
                self.compressors == old(self).compressors,
                self.indexers == old(self).indexers,
                forall|j: int| 0 <= j < n ==> (#[trigger] self.layers[j]).cap() == old(self).layers[j].cap(),
                forall|j: int| 0 <= j < i ==> (#[trigger] self.layers[j])@ == Seq::<Bits32>::empty(),
            decreases n - i,
        {
            assert(self.layers[i as int].wf());
            self.layers[i].clear();
            i += 1;
        }
        let mut i: usize = 0;
        while i < n
            invariant
                i <= n,
                n == old(self).layers.len(),
                old(self).wf(),
                self.wf(),
                self.layers.len() == n,
                self.compressors.len() == n,
                self.indexers == old(self).indexers,
                forall|j: int|
                    0 <= j < n ==> (#[trigger] self.layers[j])@ == Seq::<Bits32>::empty()
                        && self.layers[j].cap() == old(self).layers[j].cap(),
                forall|j: int|
                    0 <= j < i ==> comp_lane(#[trigger] self.compressors[j]) == cleared_lane(
                        comp_lane(old(self).compressors[j]),
                    ),
                forall|j: int| i <= j < n ==> #[trigger] self.compressors[j] == old(self).compressors[j],
            decreases n - i,
        {
            assert(self.compressors[i as int] == old(self).compressors[i as int]);
            match &mut self.compressors[i] {
                Some(c) => c.clear(),
                None => {},
            }
            i += 1;
        }
        let mut i: usize = 0;
        while i < n
            invariant
                i <= n,
                n == old(self).layers.len(),
                old(self).wf(),
                self.wf(),
                self.layers.len() == n,
                self.compressors.len() == n,
                self.indexers.len() == n,
                forall|j: int|
                    0 <= j < n ==> (#[trigger] self.layers[j])@ == Seq::<Bits32>::empty()
                        && self.layers[j].cap() == old(self).layers[j].cap(),
                forall|j: int|
                    0 <= j < n ==> comp_lane(#[trigger] self.compressors[j]) == cleared_lane(
                        comp_lane(old(self).compressors[j]),
                    ),
                forall|j: int|
                    0 <= j < i ==> idx_lane(#[trigger] self.indexers[j]) == cleared_lane(
                        idx_lane(old(self).indexers[j]),
                    ),
                forall|j: int| i <= j < n ==> #[trigger] self.indexers[j] == old(self).indexers[j],
            decreases n - i,
        {
            assert(self.indexers[i as int] == old(self).indexers[i as int]);
            match &mut self.indexers[i] {
                Some(c) => c.clear(),
                None => {},
            }
            i += 1;
        }
        assert(self@ =~= cleared(old(self)@));
    }

    /// Drops the newest row of every ring.
    pub fn pop_last_row(&mut self)
        requires
            old(self).wf(),
        ensures
            final(self).wf(),
            final(self)@ == (KvView {
                raw: Seq::new(old(self)@.raw.len(), |il: int| popped(old(self)@.raw[il])),
                ..old(self)@
            }),
    {
        let n: usize = self.layers.len();
        let mut i: usize = 0;
        while i < n
            invariant
                i <= n,
                n == old(self).layers.len(),
                old(self).wf(),
                self.wf(),
                self.layers.len() == n,
                self.compressors == old(self).compressors,
                self.indexers == old(self).indexers,
                forall|j: int| 0 <= j < n ==> (#[trigger] self.layers[j]).cap() == old(self).layers[j].cap(),
                forall|j: int| 0 <= j < i ==> (#[trigger] self.layers[j])@ == popped(old(self).layers[j]@),
                forall|j: int| i <= j < n ==> #[trigger] self.layers[j] == old(self).layers[j],
            decreases n - i,
        {
            assert(self.layers[i as int].wf());
            self.layers[i].pop();
            i += 1;
        }
        assert(self@ =~= (KvView {
            raw: Seq::new(old(self)@.raw.len(), |il: int| popped(old(self)@.raw[il])),
            ..old(self)@
        }));
    }
}

// ---------------------------------------------------------------------------
// Snapshots
// ---------------------------------------------------------------------------

/// A copy of one compressor's or indexer's buffers.
struct LaneSnapshot {
    state_kv: Vec<Bits32>,
    state_score: Vec<Bits32>,
    comp_kv: Vec<Bits32>,
    n_comp: usize,
}

impl LaneSnapshot {
    spec fn wf(&self, dim: nat) -> bool {
        &&& self.comp_kv@.len() % dim == 0
        &&& self.n_comp * dim <= self.comp_kv.len()
    }

    spec fn lane(&self, dim: nat) -> LaneView {
        LaneView {
            cap: self.comp_kv@.len() / dim,
            kv: self.state_kv@,
            score: self.state_score@,
            rows: self.comp_kv@.take(self.n_comp * dim),
        }
    }

    /// Empty buffers of the given lengths.
    fn empty(kv_len: usize, score_len: usize, rows_len: usize) -> (r: Self)
        ensures
            r.state_kv@ == bits::splat(ZERO, kv_len as nat),
            r.state_score@ == bits::splat(NEG_INF, score_len as nat),
            r.comp_kv@.len() == rows_len,
            r.n_comp == 0,
    {
        let r = LaneSnapshot {
            state_kv: vec![ZERO; kv_len],
            state_score: vec![NEG_INF; score_len],
            comp_kv: vec![ZERO; rows_len],
            n_comp: 0,
        };
        assert(r.state_kv@ =~= bits::splat(ZERO, kv_len as nat));
        assert(r.state_score@ =~= bits::splat(NEG_INF, score_len as nat));
        r
    }
}

spec fn snap_lane(l: Option<LaneSnapshot>, dim: nat) -> Option<LaneView> {
    match l {
        Some(x) => Some(x.lane(dim)),
        None => None,
    }
}

/// A copy of what a cache held, kept to put it back. Built once for a cache by
/// [`KvCacheSnapshot::with_shape`] and filled by [`KvCache::snapshot_into`] as
/// often as needed.
pub struct KvCacheSnapshot {
    layers: Vec<(Vec<Bits32>, usize)>,
    compressors: Vec<Option<LaneSnapshot>>,
    indexers: Vec<Option<LaneSnapshot>>,
}

impl KvCacheSnapshot {
    /// The buffers hold whole rows.
    pub closed spec fn wf(&self) -> bool {
        &&& self.compressors.len() == self.layers.len()
        &&& self.indexers.len() == self.layers.len()
        &&& forall|i: int|
            0 <= i < self.layers.len() ==> (#[trigger] self.layers[i]).0.len() % 512 == 0
                && self.layers[i].0.len() == self.layers[0].0.len() && self.layers[i].1 * 512
                <= self.layers[i].0.len()
        &&& forall|i: int|
            0 <= i < self.compressors.len() ==> match #[trigger] self.compressors[i] {
                Some(l) => l.wf(512),
                None => true,
            }
        &&& forall|i: int|
            0 <= i < self.indexers.len() ==> match #[trigger] self.indexers[i] {
                Some(l) => l.wf(128),
                None => true,
            }
    }

    /// What the snapshot holds.
    pub closed spec fn view(&self) -> KvView {
        KvView {
            cap_raw: if self.layers.len() == 0 {
                0
            } else {
                self.layers[0].0@.len() / 512
            },
            raw: Seq::new(
                self.layers.len() as nat,
                |i: int| self.layers[i].0@.take(self.layers[i].1 * 512),
            ),
            comp: Seq::new(
                self.compressors.len() as nat,
                |i: int| snap_lane(self.compressors[i], 512),
            ),
            idx: Seq::new(self.indexers.len() as nat, |i: int| snap_lane(self.indexers[i], 128)),
        }
    }

    /// The snapshot has the shape of a cache that holds `v`.
    pub open spec fn fits(&self, v: KvView) -> bool {
        self.wf() && same_shape(self@, v)
    }

    /// An empty snapshot of the shape of `cache`.
    pub fn with_shape(cache: &KvCache) -> (snap: Self)
        requires
            cache.wf(),
        ensures
            snap.wf(),
            snap@ == cleared(cache@),
            snap.fits(cache@),
    {
        let n: usize = cache.layers.len();
        let mut layers: Vec<(Vec<Bits32>, usize)> = Vec::new();
        let mut compressors: Vec<Option<LaneSnapshot>> = Vec::new();
        let mut indexers: Vec<Option<LaneSnapshot>> = Vec::new();
        let mut i: usize = 0;
        while i < n
            invariant
                cache.wf(),
                n == cache.layers.len(),
                i <= n,
                layers.len() == i,
                compressors.len() == i,
                indexers.len() == i,
                forall|j: int|
                    0 <= j < i ==> (#[trigger] layers[j]).0@.len() == cache.layers[j].cap() * 512
                        && layers[j].1 == 0,
                forall|j: int|
                    0 <= j < i ==> (match #[trigger] compressors[j] {
                        Some(l) => l.wf(512),
                        None => true,
                    }) && snap_lane(compressors[j], 512) == cleared_lane(
                        comp_lane(cache.compressors[j]),
                    ),
                forall|j: int|
                    0 <= j < i ==> (match #[trigger] indexers[j] {
                        Some(l) => l.wf(128),
                        None => true,
                    }) && snap_lane(indexers[j], 128) == cleared_lane(idx_lane(cache.indexers[j])),
            decreases n - i,
        {
            assert(cache.layers[i as int].wf());
            layers.push((vec![ZERO; cache.layers[i].raw_kv.len()], 0));
            match &cache.compressors[i] {
                Some(c) => {
                    assert(cache.compressors[i as int] is Some);
                    let l = LaneSnapshot::empty(
                        c.state_kv.len(),
                        c.state_score.len(),
                        c.comp_kv.len(),
                    );
                    assert(Some(l.lane(512)) =~= cleared_lane(Some(c@)));
                    compressors.push(Some(l));
                },
                None => compressors.push(None),
            }
            match &cache.indexers[i] {
                Some(c) => {
                    assert(cache.indexers[i as int] is Some);
                    let l = LaneSnapshot::empty(
                        c.state_kv.len(),
                        c.state_score.len(),
                        c.comp_kv.len(),
                    );
                    assert(Some(l.lane(128)) =~= cleared_lane(Some(c@)));
                    indexers.push(Some(l));
                },
                None => indexers.push(None),
            }
            i += 1;
        }
        let snap = KvCacheSnapshot { layers, compressors, indexers };
        assert(snap@.raw =~~= cleared(cache@).raw);
        assert(snap@ =~= cleared(cache@));
        snap
    }
}

impl KvCache {
    /// A copy of what the cache holds.
    pub fn snapshot(&self) -> (snap: KvCacheSnapshot)
        requires
            self.wf(),
        ensures
            snap.fits(self@),
            snap@ == self@,
    {
        let mut snap = KvCacheSnapshot::with_shape(self);
        self.snapshot_into(&mut snap);
        snap
    }

    /// Copies what the cache holds into a snapshot of its shape, whose buffers
    /// are reused.
    #[verifier::rlimit(40)]
    pub fn snapshot_into(&self, snap: &mut KvCacheSnapshot)
        requires
            self.wf(),
            old(snap).fits(self@),
        ensures
            final(snap).fits(self@),
            final(snap)@ == self@,
    {
        let n: usize = self.layers.len();
        let ghost before = *snap;
        assert(before@.raw.len() == n);
        let mut i: usize = 0;
        while i < n
            invariant
                self.wf(),
                n == self.layers.len(),
                i <= n,
                before.fits(self@),
                snap.wf(),
                snap.layers.len() == n,
                snap.compressors == before.compressors,
                snap.indexers == before.indexers,
                forall|j: int| 0 <= j < n ==> (#[trigger] snap.layers[j]).0.len() == before.layers[j].0.len(),
                forall|j: int|
                    0 <= j < i ==> (#[trigger] snap.layers[j]).0@ == self.layers[j].raw_kv@
                        && snap.layers[j].1 == self.layers[j].n_raw,
            decreases n - i,
        {
            assert(self.layers[i as int].wf() && self.layers[0].wf());
            assert(before.layers[0].0.len() % 512 == 0);
            assert(snap.layers[i as int].0.len() == snap.layers[0].0.len());
            assert(snap.layers[i as int].0.len() == self.layers[i as int].raw_kv.len());
            copy_all(&mut snap.layers[i].0, self.layers[i].raw_kv.as_slice());
            snap.layers[i].1 = self.layers[i].n_raw;
            i += 1;
        }
        let mut i: usize = 0;
        while i < n
            invariant
                self.wf(),
                n == self.layers.len(),
                i <= n,
                before.fits(self@),
                snap.wf(),
                snap.layers.len() == n,
                snap.compressors.len() == n,
                snap.indexers == before.indexers,
                forall|j: int|
                    0 <= j < n ==> (#[trigger] snap.layers[j]).0@ == self.layers[j].raw_kv@
                        && snap.layers[j].1 == self.layers[j].n_raw,
                forall|j: int|
                    0 <= j < i ==> snap_lane(#[trigger] snap.compressors[j], 512) == comp_lane(
                        self.compressors[j],
                    ),
                forall|j: int| i <= j < n ==> #[trigger] snap.compressors[j] == before.compressors[j],
            decreases n - i,
        {
            assert(same_lane_shape(before@.comp[i as int], self@.comp[i as int]));
            assert(snap.compressors[i as int] == before.compressors[i as int]);
            match &mut snap.compressors[i] {
                Some(l) => match &self.compressors[i] {
                    Some(c) => {
                        assert(self.compressors[i as int] is Some);
                        copy_all(&mut l.state_kv, c.state_kv.as_slice());
                        copy_all(&mut l.state_score, c.state_score.as_slice());
                        copy_all(&mut l.comp_kv, c.comp_kv.as_slice());
                        l.n_comp = c.n_comp;
                    },
                    None => {},
                },
                None => {},
            }
            i += 1;
        }
        let mut i: usize = 0;
        while i < n
            invariant
                self.wf(),
                n == self.layers.len(),
                i <= n,
                before.fits(self@),
                snap.wf(),
                snap.layers.len() == n,
                snap.compressors.len() == n,
                snap.indexers.len() == n,
                forall|j: int|
                    0 <= j < n ==> (#[trigger] snap.layers[j]).0@ == self.layers[j].raw_kv@
                        && snap.layers[j].1 == self.layers[j].n_raw,
                forall|j: int|
                    0 <= j < n ==> snap_lane(#[trigger] snap.compressors[j], 512) == comp_lane(
                        self.compressors[j],
                    ),
                forall|j: int|
                    0 <= j < i ==> snap_lane(#[trigger] snap.indexers[j], 128) == idx_lane(
                        self.indexers[j],
                    ),
                forall|j: int| i <= j < n ==> #[trigger] snap.indexers[j] == before.indexers[j],
            decreases n - i,
        {
            assert(same_lane_shape(before@.idx[i as int], self@.idx[i as int]));
            assert(snap.indexers[i as int] == before.indexers[i as int]);
            match &mut snap.indexers[i] {
                Some(l) => match &self.indexers[i] {
                    Some(c) => {
                        assert(self.indexers[i as int] is Some);
                        copy_all(&mut l.state_kv, c.state_kv.as_slice());
                        copy_all(&mut l.state_score, c.state_score.as_slice());
                        copy_all(&mut l.comp_kv, c.comp_kv.as_slice());
                        l.n_comp = c.n_comp;
                    },
                    None => {},
                },
                None => {},
            }
            i += 1;
        }
        proof {
            if n > 0 {
                assert(self.layers[0].wf());
                assert(snap.layers[0].0@ == self.layers[0].raw_kv@);
            }
            assert(snap@.raw =~= self@.raw);
            assert(snap@.comp =~= self@.comp);
            assert(snap@.idx =~= self@.idx);
            assert(snap@ =~= self@);
        }
    }

    /// Puts back what a snapshot of the cache's shape holds.
    #[verifier::rlimit(40)]
    pub fn restore(&mut self, snap: &KvCacheSnapshot)
        requires
            old(self).wf(),
            snap.fits(old(self)@),
        ensures
            final(self).wf(),
            final(self)@ == snap@,
    {
        let n: usize = self.layers.len();
        let ghost before = *self;
        assert(snap@.raw.len() == n);
        let mut i: usize = 0;
        while i < n
            invariant
                before.wf(),
                snap.fits(before@),
                n == before.layers.len(),
                i <= n,
                self.wf(),
                self.layers.len() == n,
                self.compressors == before.compressors,
                self.indexers == before.indexers,
                forall|j: int| 0 <= j < n ==> (#[trigger] self.layers[j]).cap() == before.layers[j].cap(),
                forall|j: int|
                    0 <= j < i ==> (#[trigger] self.layers[j])@ == snap.layers[j].0@.take(
                        snap.layers[j].1 * 512,
                    ),
            decreases n - i,
        {
            assert(before.layers[i as int].wf() && before.layers[0].wf());
            assert(self.layers[i as int].wf());
            assert(snap.layers[0].0.len() % 512 == 0);
            assert(snap.layers[i as int].0.len() == snap.layers[0].0.len());
            assert(snap.layers[i as int].0.len() == self.layers[i as int].raw_kv.len());
            self.layers[i].load(snap.layers[i].0.as_slice(), snap.layers[i].1);
            i += 1;
        }
        let mut i: usize = 0;
        while i < n
            invariant
                before.wf(),
                snap.fits(before@),
                n == before.layers.len(),
                i <= n,
                self.wf(),
                self.layers.len() == n,
                self.compressors.len() == n,
                self.indexers == before.indexers,
                forall|j: int|
                    0 <= j < n ==> (#[trigger] self.layers[j])@ == snap.layers[j].0@.take(
                        snap.layers[j].1 * 512,
                    ) && self.layers[j].cap() == before.layers[j].cap(),
                forall|j: int|
                    0 <= j < i ==> comp_lane(#[trigger] self.compressors[j]) == snap_lane(
                        snap.compressors[j],
                        512,
                    ),
                forall|j: int| i <= j < n ==> #[trigger] self.compressors[j] == before.compressors[j],
            decreases n - i,
        {
            assert(same_lane_shape(snap@.comp[i as int], before@.comp[i as int]));
            assert(self.compressors[i as int] == before.compressors[i as int]);
            match &mut self.compressors[i] {
                Some(c) => match &snap.compressors[i] {
                    Some(l) => {
                        assert(snap.compressors[i as int] is Some);
                        copy_all(&mut c.state_kv, l.state_kv.as_slice());
                        copy_all(&mut c.state_score, l.state_score.as_slice());
                        copy_all(&mut c.comp_kv, l.comp_kv.as_slice());
                        c.n_comp = l.n_comp;
                    },
                    None => {},
                },
                None => {},
            }
            i += 1;
        }
        let mut i: usize = 0;
        while i < n
            invariant
                before.wf(),
                snap.fits(before@),
                n == before.layers.len(),
                i <= n,
                self.wf(),
                self.layers.len() == n,
                self.compressors.len() == n,
                self.indexers.len() == n,
                forall|j: int|
                    0 <= j < n ==> (#[trigger] self.layers[j])@ == snap.layers[j].0@.take(
                        snap.layers[j].1 * 512,
                    ) && self.layers[j].cap() == before.layers[j].cap(),
                forall|j: int|
                    0 <= j < n ==> comp_lane(#[trigger] self.compressors[j]) == snap_lane(
                        snap.compressors[j],
                        512,
                    ),
                forall|j: int|
                    0 <= j < i ==> idx_lane(#[trigger] self.indexers[j]) == snap_lane(
                        snap.indexers[j],
                        128,
                    ),
                forall|j: int| i <= j < n ==> #[trigger] self.indexers[j] == before.indexers[j],
            decreases n - i,
        {
            assert(same_lane_shape(snap@.idx[i as int], before@.idx[i as int]));
            assert(self.indexers[i as int] == before.indexers[i as int]);
            match &mut self.indexers[i] {
                Some(c) => match &snap.indexers[i] {
                    Some(l) => {
                        assert(snap.indexers[i as int] is Some);
                        copy_all(&mut c.state_kv, l.state_kv.as_slice());
                        copy_all(&mut c.state_score, l.state_score.as_slice());
                        copy_all(&mut c.comp_kv, l.comp_kv.as_slice());
                        c.n_comp = l.n_comp;
                    },
                    None => {},
                },
                None => {},
            }
            i += 1;
        }
        proof {
            assert(self@.raw =~= snap@.raw);
            assert(self@.comp =~= snap@.comp);
            assert(self@.idx =~= snap@.idx);
            assert(self@ =~= snap@);
        }
    }
}

impl RawLayerCache {
    /// Overwrites the buffer, of which the first `n` rows become live.
    fn load(&mut self, buf: &[Bits32], n: usize)
        requires
            old(self).wf(),
            buf@.len() == old(self).cap() * 512,
            n <= old(self).cap(),
        ensures
            final(self).wf(),
            final(self).cap() == old(self).cap(),
            final(self)@ == buf@.take(n * 512),
    {
        copy_all(&mut self.raw_kv, buf);
        self.n_raw = n;
    }
}

// ---------------------------------------------------------------------------
// Laws
// ---------------------------------------------------------------------------

/// Clearing a cache makes it what a new one of the same shape is.
pub proof fn clearing_makes_fresh(v: KvView, n_layer: nat, ctx: nat)
    requires
        same_shape(v, fresh(n_layer, ctx)),
    ensures
        cleared(v) == fresh(n_layer, ctx),
{
    let f = fresh(n_layer, ctx);
    assert forall|i: int| 0 <= i < n_layer implies cleared(v).comp[i] == f.comp[i] by {
        assert(same_lane_shape(v.comp[i], f.comp[i]));
    }
    assert forall|i: int| 0 <= i < n_layer implies cleared(v).idx[i] == f.idx[i] by {
        assert(same_lane_shape(v.idx[i], f.idx[i]));
    }
    assert(cleared(v) =~= f);
}

/// Shapes compare like equals: what has the shape of `b` has the shape of all
/// that `b` has the shape of.
pub proof fn same_shape_is_transitive(a: KvView, b: KvView, c: KvView)
    requires
        same_shape(a, b),
        same_shape(b, c),
    ensures
        same_shape(a, c),
{
    assert forall|i: int| 0 <= i < a.comp.len() implies same_lane_shape(
        #[trigger] a.comp[i],
        c.comp[i],
    ) by {
        assert(same_lane_shape(b.comp[i], c.comp[i]));
    }
    assert forall|i: int| 0 <= i < a.idx.len() implies same_lane_shape(
        #[trigger] a.idx[i],
        c.idx[i],
    ) by {
        assert(same_lane_shape(b.idx[i], c.idx[i]));
    }
}

/// Shapes compare both ways.
pub proof fn same_shape_is_symmetric(a: KvView, b: KvView)
    requires
        same_shape(a, b),
    ensures
        same_shape(b, a),
{
    assert forall|i: int| 0 <= i < b.comp.len() implies same_lane_shape(
        #[trigger] b.comp[i],
        a.comp[i],
    ) by {
        assert(same_lane_shape(a.comp[i], b.comp[i]));
    }
    assert forall|i: int| 0 <= i < b.idx.len() implies same_lane_shape(
        #[trigger] b.idx[i],
        a.idx[i],
    ) by {
        assert(same_lane_shape(a.idx[i], b.idx[i]));
    }
}

/// Clearing keeps the shape.
pub proof fn cleared_keeps_shape(v: KvView)
    ensures
        same_shape(cleared(v), v),
{
}

/// Caches of one shape are the same once they are cleared.
pub proof fn clearing_forgets(a: KvView, b: KvView)
    requires
        same_shape(a, b),
    ensures
        cleared(a) == cleared(b),
{
    assert forall|i: int| 0 <= i < a.comp.len() implies cleared(a).comp[i] == cleared(b).comp[i] by {
        assert(same_lane_shape(a.comp[i], b.comp[i]));
    }
    assert forall|i: int| 0 <= i < a.idx.len() implies cleared(a).idx[i] == cleared(b).idx[i] by {
        assert(same_lane_shape(a.idx[i], b.idx[i]));
    }
    assert(cleared(a) =~= cleared(b));
}

/// Rows one after the other.
pub open spec fn concat_rows(rows: Seq<Seq<Bits32>>) -> Seq<Bits32>
    decreases rows.len(),
{
    if rows.len() == 0 {
        Seq::empty()
    } else {
        concat_rows(rows.drop_last()) + rows.last()
    }
}

/// The ring of `cap` rows into which `history` was pushed, row by row.
pub open spec fn ring_of(history: Seq<Seq<Bits32>>, cap: nat) -> Seq<Bits32>
    decreases history.len(),
{
    if history.len() == 0 {
        Seq::empty()
    } else {
        pushed(ring_of(history.drop_last(), cap), cap, history.last())
    }
}

proof fn concat_rows_facts(rows: Seq<Seq<Bits32>>)
    requires
        forall|i: int| 0 <= i < rows.len() ==> (#[trigger] rows[i]).len() == 512,
    ensures
        concat_rows(rows).len() == rows.len() * 512,
        rows.len() > 0 ==> concat_rows(rows).skip(512) == concat_rows(rows.skip(1)),
    decreases rows.len(),
{
    if rows.len() > 0 {
        let head = rows.drop_last();
        concat_rows_facts(head);
        if rows.len() == 1 {
            assert(concat_rows(head) =~= Seq::empty());
            assert(concat_rows(rows).skip(512) =~= Seq::empty());
            assert(concat_rows(rows.skip(1)) =~= Seq::empty());
        } else {
            assert(rows.skip(1).drop_last() =~= head.skip(1));
            assert(concat_rows(rows).skip(512) =~= concat_rows(head).skip(512) + rows.last());
        }
    }
}

/// A ring holds exactly the most recent rows: all that were pushed while they
/// fit, and from then on the last `cap` of them, oldest first.
pub proof fn ring_is_the_last_rows(history: Seq<Seq<Bits32>>, cap: nat)
    requires
        cap >= 1,
        forall|i: int| 0 <= i < history.len() ==> (#[trigger] history[i]).len() == 512,
    ensures
        ring_of(history, cap) == concat_rows(
            history.skip(
                if history.len() <= cap {
                    0
                } else {
                    history.len() - cap
                },
            ),
        ),
    decreases history.len(),
{
    if history.len() == 0 {
        assert(history.skip(0) =~= history);
    } else {
        let head = history.drop_last();
        ring_is_the_last_rows(head, cap);
        if history.len() <= cap {
            assert(head.skip(0) =~= head);
            assert(history.skip(0) =~= history);
            concat_rows_facts(head);
        } else {
            let k = head.len() - cap;
            let window = head.skip(k);
            concat_rows_facts(window);
            assert(window.skip(1) =~= head.skip(k + 1));
            let next = history.skip(k + 1);
            assert(next.drop_last() =~= head.skip(k + 1));
            assert(next.last() == history.last());
        }
    }
}

/// Dropping the newest row undoes a push into a ring that was not full.
pub proof fn pop_undoes_push(rows: Seq<Bits32>, cap: nat, row: Seq<Bits32>)
    requires
        rows.len() < cap * 512,
        row.len() == 512,
    ensures
        popped(pushed(rows, cap, row)) == rows,
{
    assert(popped(rows + row) =~= rows);
}

/// A lane may emit a row for every full group of the context, and two more.
pub proof fn a_lane_has_room_for_the_context(ratio: u32, ctx: nat)
    requires
        ratio > 0,
    ensures
        emit_cap(ratio, ctx) >= 2,
        (emit_cap(ratio, ctx) - 2) * ratio <= ctx,
        ctx < (emit_cap(ratio, ctx) - 1) * ratio,
{
    let q = ctx as int / ratio as int;
    assert(q >= 0 && q * ratio <= ctx && ctx < (q + 1) * ratio) by (nonlinear_arith)
        requires
            ratio > 0,
            ctx >= 0,
            q == ctx as int / ratio as int,
    ;
}

/// A ring holds as many rows as the context has tokens, but at least one and at
/// most 128.
pub proof fn a_ring_holds_at_most_128_rows(ctx: nat)
    ensures
        ring_cap(0) == 1,
        1 <= ctx <= 128 ==> ring_cap(ctx) == ctx,
        ctx >= 128 ==> ring_cap(ctx) == 128,
{
}

/// A window has as many rows as two groups for ratio 4 and one group otherwise, and
/// a row is as wide as its lanes together, each 512.
pub proof fn a_window_is_its_rows(ratio: u32)
    requires
        ratio > 0,
    ensures
        coff_of(4) == 2,
        ratio != 4 ==> coff_of(ratio) == 1,
        state_len(ratio) == (coff_of(ratio) * ratio) * (coff_of(ratio) * 512),
{
}

/// An empty cache: every ring is empty. The first two layers have no compressor;
/// even layers have one with a window of 8192 entries and an indexer with one of
/// 2048, and odd layers one with a window of 65536 entries and no indexer. The
/// entries are zero, and their scores are those that stand for none.
pub proof fn an_empty_cache_layer_by_layer(n_layer: nat, ctx: nat, il: int, i: int)
    requires
        0 <= il < n_layer,
        n_layer <= u32::MAX,
    ensures
        ({
            let v = fresh(n_layer, ctx);
            &&& v.raw.len() == n_layer
            &&& v.comp.len() == n_layer
            &&& v.idx.len() == n_layer
            &&& v.raw[il].len() == 0
            &&& il < 2 ==> v.comp[il] is None && v.idx[il] is None
            &&& il >= 2 && il % 2 == 0 ==> {
                &&& v.comp[il] matches Some(l) && l.kv.len() == 8192 && l.score.len() == 8192
                    && l.rows.len() == 0 && l.cap == ctx as int / 4 + 2 && (0 <= i < 8192
                    ==> l.kv[i] == 0 && l.score[i] == NEG_INF)
                &&& v.idx[il] matches Some(l) && l.kv.len() == 2048 && l.score.len() == 2048
                    && l.rows.len() == 0 && l.cap == ctx as int / 4 + 2 && (0 <= i < 2048
                    ==> l.kv[i] == 0 && l.score[i] == NEG_INF)
            }
            &&& il >= 2 && il % 2 == 1 ==> {
                &&& v.comp[il] matches Some(l) && l.kv.len() == 65536 && l.score.len() == 65536
                    && l.rows.len() == 0 && l.cap == ctx as int / 128 + 2 && (0 <= i < 65536
                    ==> l.kv[i] == 0 && l.score[i] == NEG_INF)
                &&& v.idx[il] is None
            }
        }),
{
}

/// Clearing empties the rings and the windows of every layer and keeps their sizes.
pub proof fn clearing_empties_every_layer(v: KvView, il: int, i: int)
    requires
        0 <= il < v.raw.len(),
        v.comp.len() == v.raw.len(),
        v.idx.len() == v.raw.len(),
    ensures
        ({
            let w = cleared(v);
            &&& w.cap_raw == v.cap_raw
            &&& w.raw.len() == v.raw.len()
            &&& w.comp.len() == v.comp.len()
            &&& w.idx.len() == v.idx.len()
            &&& w.raw[il].len() == 0
            &&& v.comp[il] is None <==> w.comp[il] is None
            &&& v.idx[il] is None <==> w.idx[il] is None
            &&& v.comp[il] matches Some(l) ==> ({
                let m = w.comp[il]->Some_0;
                &&& m.cap == l.cap
                &&& m.kv.len() == l.kv.len()
                &&& m.score.len() == l.score.len()
                &&& m.rows.len() == 0
                &&& 0 <= i < l.kv.len() ==> m.kv[i] == 0
                &&& 0 <= i < l.score.len() ==> m.score[i] == NEG_INF
            })
            &&& v.idx[il] matches Some(l) ==> ({
                let m = w.idx[il]->Some_0;
                &&& m.cap == l.cap
                &&& m.kv.len() == l.kv.len()
                &&& m.score.len() == l.score.len()
                &&& m.rows.len() == 0
                &&& 0 <= i < l.kv.len() ==> m.kv[i] == 0
                &&& 0 <= i < l.score.len() ==> m.score[i] == NEG_INF
            })
        }),
{
}

/// Popping drops the newest row and keeps all others; an empty ring stays empty.
pub proof fn popping_drops_the_newest_row(rows: Seq<Bits32>, i: int)
    requires
        rows.len() % 512 == 0,
    ensures
        rows.len() == 0 ==> popped(rows).len() == 0,
        rows.len() > 0 ==> popped(rows).len() == rows.len() - 512,
        0 <= i < popped(rows).len() ==> popped(rows)[i] == rows[i],
{
}

/// A push puts its row behind the others; a full ring loses its oldest row.
pub proof fn a_push_puts_its_row_last(rows: Seq<Bits32>, cap: nat, row: Seq<Bits32>, i: int)
    requires
        rows.len() % 512 == 0,
        rows.len() <= cap * 512,
        cap >= 1,
        row.len() == 512,
    ensures
        ({
            let p = pushed(rows, cap, row);
            &&& rows.len() < cap * 512 ==> p.len() == rows.len() + 512
            &&& rows.len() == cap * 512 ==> p.len() == rows.len()
            &&& 0 <= i < 512 ==> p[p.len() - 512 + i] == row[i]
            &&& rows.len() < cap * 512 && 0 <= i < rows.len() ==> p[i] == rows[i]
            &&& rows.len() == cap * 512 && 0 <= i < rows.len() - 512 ==> p[i] == rows[512 + i]
        }),
{
}

/// Caches of at most a thousand layers can be sized for a context of a million
/// tokens.
pub proof fn ordinary_caches_can_be_sized(n_layer: nat, ctx: nat)
    requires
        n_layer <= 1000,
        ctx <= 1000000,
    ensures
        KvCache::new_error(n_layer, ctx) is None,
{
    assert(n_layer * ring_cap(ctx) <= 1000 * 128) by (nonlinear_arith)
        requires
            n_layer <= 1000,
            ring_cap(ctx) <= 128,
    ;
}

/// The score that stands for none is the negative pattern nearest to 10 to the
/// power of 30.
pub proof fn the_score_for_none_is_very_low()
    ensures
        NEG_INF >= 0x8000_0000,
        ({
            let m = float::magnitude32(NEG_INF);
            let x = 1000000000000000000000000000000int * pow2(149);
            2 * (m - x) <= pow2(225) && 2 * (x - m) <= pow2(225)
        }),
{
    lemma2_to64();
    lemma2_to64_rest();
    lemma_pow2_adds(64, 12);
    lemma_pow2_adds(149, 76);
    let p = pow2(149) as int;
    let m = 0xC9_F2CAint * 0x1000_0000_0000_0000_0000int;
    let x = 1000000000000000000000000000000int;
    assert(pow2(76) == 0x1000_0000_0000_0000_0000int);
    assert(0xC9_F2CA * pow2(225) == m * p) by (nonlinear_arith)
        requires
            pow2(225) == p * pow2(76),
            m == 0xC9_F2CAint * pow2(76),
    ;
    assert(2 * (m * p - x * p) <= p * pow2(76) && 2 * (x * p - m * p) <= p * pow2(76))
        by (nonlinear_arith)
        requires
            2 * (m - x) <= pow2(76),
            2 * (x - m) <= pow2(76),
            p >= 0,
    ;
}

/// A compressor of ratio 4 or 128 can be sized for a context of a million tokens.
pub proof fn ordinary_compressors_can_be_sized(ratio: u32, ctx: nat)
    requires
        ratio == 4 || ratio == 128,
        ctx <= 1000000,
    ensures
        CompressorState::new_error(ratio, ctx) is None,
{
}

} // verus!
