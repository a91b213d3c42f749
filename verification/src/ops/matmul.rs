//! Weight matrices as they lie in a model file: their shapes, their rows, and
//! the exact part of a row's dot product.

use vstd::prelude::*;

use crate::bits::Bits32;
use crate::bits;
use crate::float;
use crate::float::f16_to_f32;
use crate::gguf::GgmlType;
use crate::le;
use crate::le::get_u16;
use crate::quant;
use crate::quant::iq2_xxs;
use crate::quant::q2_k;
use crate::quant::{MinDot, ScaledDot};

verus! {

/// A weight matrix of `out_features` rows with `in_features` elements each,
/// row after row.
#[derive(Clone, Copy, Debug)]
#[allow(non_camel_case_types)]
pub enum WeightView<'a> {
    /// Blocks of 32 elements in 34 bytes.
    Q8_0 { bytes: &'a [u8], out_features: usize, in_features: usize },
    /// Half-precision numbers, 2 bytes each.
    F16 { bytes: &'a [u8], out_features: usize, in_features: usize },
    /// Blocks of 256 elements in 84 bytes.
    Q2_K { bytes: &'a [u8], out_features: usize, in_features: usize },
    /// Blocks of 256 elements in 66 bytes.
    IQ2_XXS { bytes: &'a [u8], out_features: usize, in_features: usize },
    /// A format that no product is defined for.
    Unsupported { dtype_name: &'static str, out_features: usize, in_features: usize },
}

/// What a [`WeightView`] shows: how elements are stored, if a product is
/// defined for that, all bytes, and the shape.
#[verifier::ext_equal]
pub struct Matrix {
    pub kind: Option<GgmlType>,
    pub bytes: Seq<u8>,
    pub rows: usize,
    pub cols: usize,
}

impl<'a> WeightView<'a> {
    pub open spec fn view(&self) -> Matrix {
        let kind = match *self {
            WeightView::Q8_0 { .. } => Some(GgmlType::Q8_0),
            WeightView::F16 { .. } => Some(GgmlType::F16),
            WeightView::Q2_K { .. } => Some(GgmlType::Q2_K),
            WeightView::IQ2_XXS { .. } => Some(GgmlType::IQ2_XXS),
            WeightView::Unsupported { .. } => None,
        };
        Matrix { kind, bytes: self.data(), rows: self.rows(), cols: self.cols() }
    }

    /// The number of rows.
    pub open spec fn rows(self) -> usize {
        match self {
            WeightView::Q8_0 { out_features, .. } => out_features,
            WeightView::F16 { out_features, .. } => out_features,
            WeightView::Q2_K { out_features, .. } => out_features,
            WeightView::IQ2_XXS { out_features, .. } => out_features,
            WeightView::Unsupported { out_features, .. } => out_features,
        }
    }

    /// The number of elements in a row.
    pub open spec fn cols(self) -> usize {
        match self {
            WeightView::Q8_0 { in_features, .. } => in_features,
            WeightView::F16 { in_features, .. } => in_features,
            WeightView::Q2_K { in_features, .. } => in_features,
            WeightView::IQ2_XXS { in_features, .. } => in_features,
            WeightView::Unsupported { in_features, .. } => in_features,
        }
    }

    /// The bytes of all rows; an unsupported matrix has none.
    pub open spec fn data(self) -> Seq<u8> {
        match self {
            WeightView::Q8_0 { bytes, .. } => bytes@,
            WeightView::F16 { bytes, .. } => bytes@,
            WeightView::Q2_K { bytes, .. } => bytes@,
            WeightView::IQ2_XXS { bytes, .. } => bytes@,
            WeightView::Unsupported { .. } => Seq::empty(),
        }
    }

    /// The elements in one block of the format.
    pub open spec fn block_len(self) -> int {
        match self {
            WeightView::Q8_0 { .. } => 32,
            WeightView::F16 { .. } => 1,
            WeightView::Q2_K { .. } => 256,
            WeightView::IQ2_XXS { .. } => 256,
            WeightView::Unsupported { .. } => 1,
        }
    }

    /// The bytes of one block of the format.
    pub open spec fn block_bytes(self) -> int {
        match self {
            WeightView::Q8_0 { .. } => 34,
            WeightView::F16 { .. } => 2,
            WeightView::Q2_K { .. } => 84,
            WeightView::IQ2_XXS { .. } => 66,
            WeightView::Unsupported { .. } => 0,
        }
    }

    /// The bytes of one row.
    pub open spec fn row_bytes(self) -> int {
        self.cols() as int / self.block_len() * self.block_bytes()
    }

    /// The format is supported, rows consist of whole blocks, and the bytes
    /// are those of all rows.
    pub open spec fn well_sized(self) -> bool {
        &&& !(self is Unsupported)
        &&& self.cols() as int % self.block_len() == 0
        &&& self.data().len() == self.rows() * self.row_bytes()
    }

    /// The number of rows.
    pub fn out_features(&self) -> (n: usize)
        ensures
            n == self.rows(),
    {
        match self {
            WeightView::Q8_0 { out_features, .. } => *out_features,
            WeightView::F16 { out_features, .. } => *out_features,
            WeightView::Q2_K { out_features, .. } => *out_features,
            WeightView::IQ2_XXS { out_features, .. } => *out_features,
            WeightView::Unsupported { out_features, .. } => *out_features,
        }
    }

    /// The number of elements in a row.
    pub fn in_features(&self) -> (n: usize)
        ensures
            n == self.cols(),
    {
        match self {
            WeightView::Q8_0 { in_features, .. } => *in_features,
            WeightView::F16 { in_features, .. } => *in_features,
            WeightView::Q2_K { in_features, .. } => *in_features,
            WeightView::IQ2_XXS { in_features, .. } => *in_features,
            WeightView::Unsupported { in_features, .. } => *in_features,
        }
    }

    /// The bytes of all rows, and the elements and bytes of one block.
    fn parts(&self) -> (r: Option<(&'a [u8], usize, usize)>)
        ensures
            match r {
                Some(p) => p.0@ == self.data() && p.1 == self.block_len() && p.2
                    == self.block_bytes() && !(self is Unsupported) && p.1 >= 1,
                None => self is Unsupported,
            },
    {
        match self {
            WeightView::Q8_0 { bytes, .. } => Some((*bytes, 32, 34)),
            WeightView::F16 { bytes, .. } => Some((*bytes, 1, 2)),
            WeightView::Q2_K { bytes, .. } => Some((*bytes, 256, 84)),
            WeightView::IQ2_XXS { bytes, .. } => Some((*bytes, 256, 66)),
            WeightView::Unsupported { .. } => None,
        }
    }

    /// Whether a product with this matrix is defined.
    pub fn is_well_sized(&self) -> (r: bool)
        ensures
            r == self.well_sized(),
    {
        match self.parts() {
            None => false,
            Some((bytes, len, size)) => {
                let cols: usize = self.in_features();
                if cols % len != 0 {
                    return false;
                }
                let blocks: usize = cols / len;
                let rows: usize = self.out_features();
                assert(bytes.len() == self.data().len());
                proof {
                    assert(blocks as int == cols as int / self.block_len());
                }
                let row: usize = match blocks.checked_mul(size) {
                    Some(n) => n,
                    None => {
                        // A row alone has more bytes than can be counted.
                        assert(self.row_bytes() > usize::MAX);
                        assert(rows > 0 ==> rows * self.row_bytes() > usize::MAX)
                            by (nonlinear_arith)
                            requires
                                self.row_bytes() > usize::MAX,
                        ;
                        assert(rows == 0 ==> rows * self.row_bytes() == 0) by (nonlinear_arith);
                        return rows == 0 && bytes.len() == 0;
                    },
                };
                match rows.checked_mul(row) {
                    Some(n) => bytes.len() == n,
                    None => false,
                }
            },
        }
    }

    /// The bytes of row `n`.
    pub fn row(&self, n: usize) -> (r: &'a [u8])
        requires
            self.well_sized(),
            n < self.rows(),
        ensures
            r@ == bits::part(self.data(), n as int, self.row_bytes()),
            r@.len() == self.row_bytes(),
    {
        match self.parts() {
            Some((bytes, len, size)) => {
                proof {
                    bits::part_in_range(n as int, self.rows() as int, self.row_bytes());
                    assert(bytes.len() == self.data().len());
                    assert(self.row_bytes() >= 0) by {
                        assert(self.cols() as int / self.block_len() * self.block_bytes() >= 0)
                            by (nonlinear_arith)
                            requires
                                self.cols() as int / self.block_len() >= 0,
                                self.block_bytes() >= 0,
                        ;
                    }
                    assert(self.row_bytes() <= self.rows() * self.row_bytes()) by (nonlinear_arith)
                        requires
                            self.row_bytes() >= 0,
                            self.rows() >= 1,
                    ;
                }
                let size: usize = self.in_features() / len * size;
                let from: usize = n * size;
                vstd::slice::slice_subrange(bytes, from, from + size)
            },
            None => {
                assert(false);
                &[]
            },
        }
    }
}

/// Element `k` of a row of half-precision numbers.
pub open spec fn f16_at(row: Seq<u8>, k: int) -> int {
    float::widened(le::le16(row, 2 * k) as u16)
}

/// The elements of a row of half-precision numbers, as single-precision
/// patterns.
pub fn f16_elements(row: &[u8]) -> (out: Vec<Bits32>)
    ensures
        out@.len() == row@.len() / 2,
        forall|k: int| 0 <= k < out.len() ==> #[trigger] out[k] == f16_at(row@, k),
{
    let n: usize = row.len() / 2;
    let mut out: Vec<Bits32> = Vec::new();
    let mut k: usize = 0;
    while k < n
        invariant
            k <= n,
            n == row.len() / 2,
            out.len() == k,
            forall|j: int| 0 <= j < k ==> #[trigger] out[j] == f16_at(row@, j),
        decreases n - k,
    {
        out.push(f16_to_f32(get_u16(row, 2 * k)));
        k += 1;
    }
    out
}

/// `r` is the exact part of the product of block `b` of a row of 2-bit blocks
/// with block `b` of an activation row.
pub open spec fn is_q2_dot(r: MinDot, row: Seq<u8>, act: Seq<u8>, b: int) -> bool {
    let w = bits::part(row, b, 84);
    let a = bits::part(act, b, 292);
    &&& r.act_d == le::le32(a, 0)
    &&& r.d == float::widened(le::le16(w, 0) as u16)
    &&& r.dmin == float::widened(le::le16(w, 2) as u16)
    &&& r.isum == q2_k::weighted(w, a, 16)
    &&& r.summs == q2_k::min_weighted(w, a, 16)
}

/// `r` is the exact part of the product of block `b` of a row of grid blocks
/// with block `b` of an activation row.
pub open spec fn is_iq2_dot(r: ScaledDot, row: Seq<u8>, act: Seq<u8>, b: int) -> bool {
    let w = bits::part(row, b, 66);
    let a = bits::part(act, b, 292);
    &&& r.act_d == le::le32(a, 0)
    &&& r.d == float::widened(le::le16(w, 0) as u16)
    &&& r.isum == iq2_xxs::weighted(w, a, 8)
}

fn array84(s: &[u8], from: usize) -> (a: [u8; 84])
    requires
        from + 84 <= s.len(),
    ensures
        a@ == s@.subrange(from as int, from + 84),
{
    let mut a: [u8; 84] = [0u8; 84];
    let mut i: usize = 0;
    while i < 84
        invariant
            i <= 84,
            from + 84 <= s.len(),
            forall|j: int| 0 <= j < i ==> a[j] == s[from + j],
        decreases 84 - i,
    {
        a[i] = s[from + i];
        i += 1;
    }
    assert(a@ =~= s@.subrange(from as int, from + 84));
    a
}

fn array66(s: &[u8], from: usize) -> (a: [u8; 66])
    requires
        from + 66 <= s.len(),
    ensures
        a@ == s@.subrange(from as int, from + 66),
{
    let mut a: [u8; 66] = [0u8; 66];
    let mut i: usize = 0;
    while i < 66
        invariant
            i <= 66,
            from + 66 <= s.len(),
            forall|j: int| 0 <= j < i ==> a[j] == s[from + j],
        decreases 66 - i,
    {
        a[i] = s[from + i];
        i += 1;
    }
    assert(a@ =~= s@.subrange(from as int, from + 66));
    a
}

/// The exact parts of the product of a row of 2-bit blocks with an activation
/// row, block by block; the product is the sum of their values.
pub fn dot_q2_k_row(row: &[u8], act: &[u8]) -> (dots: Vec<MinDot>)
    requires
        row@.len() % 84 == 0,
        act@.len() == row@.len() / 84 * 292,
    ensures
        dots@.len() == row@.len() / 84,
        forall|b: int| 0 <= b < dots.len() ==> is_q2_dot(#[trigger] dots[b], row@, act@, b),
{
    let n: usize = row.len() / 84;
    let mut dots: Vec<MinDot> = Vec::new();
    let mut b: usize = 0;
    while b < n
        invariant
            b <= n,
            n * 84 == row.len(),
            n * 292 == act.len(),
            dots.len() == b,
            forall|k: int| 0 <= k < b ==> is_q2_dot(#[trigger] dots[k], row@, act@, k),
        decreases n - b,
    {
        let w: [u8; 84] = array84(row, b * 84);
        let a: &[u8] = vstd::slice::slice_subrange(act, b * 292, b * 292 + 292);
        assert(w@ == bits::part(row@, b as int, 84));
        assert(a@ == bits::part(act@, b as int, 292));
        dots.push(q2_k::dot_q2k_q8k_block(&w, a));
        b += 1;
    }
    dots
}

/// The exact parts of the product of a row of grid blocks with an activation
/// row, block by block; the product is the sum of their values.
pub fn dot_iq2_xxs_row(row: &[u8], act: &[u8]) -> (dots: Vec<ScaledDot>)
    requires
        row@.len() % 66 == 0,
        act@.len() == row@.len() / 66 * 292,
    ensures
        dots@.len() == row@.len() / 66,
        forall|b: int| 0 <= b < dots.len() ==> is_iq2_dot(#[trigger] dots[b], row@, act@, b),
{
    let n: usize = row.len() / 66;
    let mut dots: Vec<ScaledDot> = Vec::new();
    let mut b: usize = 0;
    while b < n
        invariant
            b <= n,
            n * 66 == row.len(),
            n * 292 == act.len(),
            dots.len() == b,
            forall|k: int| 0 <= k < b ==> is_iq2_dot(#[trigger] dots[k], row@, act@, k),
        decreases n - b,
    {
        let w: [u8; 66] = array66(row, b * 66);
        let a: &[u8] = vstd::slice::slice_subrange(act, b * 292, b * 292 + 292);
        assert(w@ == bits::part(row@, b as int, 66));
        assert(a@ == bits::part(act@, b as int, 292));
        dots.push(iq2_xxs::dot_iq2xxs_q8k_block(&w, a));
        b += 1;
    }
    dots
}

/// The matrix of expert `eid` out of a stack of `n_expert` matrices of equal
/// size. The view keeps its shape; its bytes are the expert's part.
pub fn expert_subview<'a>(w: WeightView<'a>, eid: usize, n_expert: usize) -> (r: WeightView<'a>)
    requires
        eid < n_expert,
        w.data().len() % n_expert as nat == 0,
    ensures
        r.rows() == w.rows(),
        r.cols() == w.cols(),
        r.block_len() == w.block_len(),
        r.block_bytes() == w.block_bytes(),
        r is Unsupported <==> w is Unsupported,
        w is Unsupported ==> r == w,
        !(w is Unsupported) ==> r.data() == bits::part(
            w.data(),
            eid as int,
            w.data().len() as int / n_expert as int,
        ),
{
    match w {
        WeightView::Q8_0 { bytes, out_features, in_features } => WeightView::Q8_0 {
            bytes: expert_bytes(bytes, eid, n_expert),
            out_features,
            in_features,
        },
        WeightView::F16 { bytes, out_features, in_features } => WeightView::F16 {
            bytes: expert_bytes(bytes, eid, n_expert),
            out_features,
            in_features,
        },
        WeightView::Q2_K { bytes, out_features, in_features } => WeightView::Q2_K {
            bytes: expert_bytes(bytes, eid, n_expert),
            out_features,
            in_features,
        },
        WeightView::IQ2_XXS { bytes, out_features, in_features } => WeightView::IQ2_XXS {
            bytes: expert_bytes(bytes, eid, n_expert),
            out_features,
            in_features,
        },
        WeightView::Unsupported { .. } => w,
    }
}

fn expert_bytes<'a>(bytes: &'a [u8], eid: usize, n_expert: usize) -> (r: &'a [u8])
    requires
        eid < n_expert,
        bytes@.len() % n_expert as nat == 0,
    ensures
        r@ == bits::part(bytes@, eid as int, bytes@.len() as int / n_expert as int),
{
    let size: usize = bytes.len() / n_expert;
    proof {
        bits::part_in_range(eid as int, n_expert as int, size as int);
        assert(size * n_expert == bytes.len()) by (nonlinear_arith)
            requires
                size == bytes.len() / n_expert,
                bytes.len() as int % n_expert as int == 0,
                n_expert > 0,
        ;
        assert(n_expert * size == size * n_expert) by (nonlinear_arith);
    }
    let from: usize = eid * size;
    vstd::slice::slice_subrange(bytes, from, from + size)
}

/// Element `k` of a row of half-precision numbers takes two bytes, the lower one
/// first.
pub proof fn an_element_takes_two_bytes(row: Seq<u8>, k: int)
    requires
        0 <= k,
        2 * k + 2 <= row.len(),
    ensures
        f16_at(row, k) == float::widened((row[2 * k] + 256 * row[2 * k + 1]) as u16),
{
}

/// The products of block `b` are those of bytes `84 * b` and on with the
/// activation's bytes `292 * b` and on.
pub proof fn blocks_are_multiplied_in_pairs(
    r: MinDot,
    row: Seq<u8>,
    act: Seq<u8>,
    b: int,
    w: q2_k::Q2KBlock,
    d: Bits32,
    qs: Seq<i8>,
)
    requires
        0 <= b,
        84 * b + 84 <= row.len(),
        292 * b + 292 <= act.len(),
        is_q2_dot(r, row, act, b),
        q2_k::is_block(w, row, 84 * b),
        quant::q8_k::is_packed(act.subrange(292 * b, 292 * b + 292), d, qs),
        qs.len() == 256,
    ensures
        r.act_d == d,
        r.d == w.d,
        r.dmin == w.dmin,
        r.isum == q2_k::element_products(w, qs, 256),
        r.summs == q2_k::element_minima(w, qs, 256),
{
    let s = bits::part(row, b, 84);
    let a = bits::part(act, b, 292);
    assert(forall|i: int| 0 <= i < 84 ==> #[trigger] s[i] == row[84 * b + i]);
    assert forall|g: int| 0 <= g < 16 implies #[trigger] w.scales[g] == q2_k::scale(s, 0, g) by {
        assert(w.scales[g] == q2_k::scale(row, 84 * b, g));
    }
    assert forall|g: int| 0 <= g < 16 implies #[trigger] w.mins[g] == q2_k::minimum(s, 0, g) by {
        assert(w.mins[g] == q2_k::minimum(row, 84 * b, g));
    }
    assert forall|e: int| 0 <= e < 256 implies #[trigger] w.qs[e] == q2_k::level(s, 0, e) by {
        assert(w.qs[e] == q2_k::level(row, 84 * b, e));
        assert(s[20 + 32 * (e / 128) + e % 32] == row[84 * b + 20 + 32 * (e / 128) + e % 32]);
    }
    assert(q2_k::is_block(w, s, 0));
    q2_k::dot_sums_the_elements(w, s, a, d, qs);
}

/// The products of block `b` are those of bytes `66 * b` and on with the
/// activation's bytes `292 * b` and on.
pub proof fn grid_blocks_are_multiplied_in_pairs(
    r: ScaledDot,
    row: Seq<u8>,
    act: Seq<u8>,
    b: int,
    w: iq2_xxs::Iq2Block,
    d: Bits32,
    qs: Seq<i8>,
)
    requires
        0 <= b,
        66 * b + 66 <= row.len(),
        292 * b + 292 <= act.len(),
        is_iq2_dot(r, row, act, b),
        iq2_xxs::is_block(w, row, 66 * b),
        quant::q8_k::is_packed(act.subrange(292 * b, 292 * b + 292), d, qs),
        qs.len() == 256,
    ensures
        r.act_d == d,
        r.d == w.d,
        r.isum == iq2_xxs::element_products(w, qs, 256),
{
    let s = bits::part(row, b, 66);
    let a = bits::part(act, b, 292);
    assert(forall|i: int| 0 <= i < 66 ==> #[trigger] s[i] == row[66 * b + i]);
    assert forall|g: int| 0 <= g < 8 implies #[trigger] w.scales[g] == iq2_xxs::scale(s, 0, g) by {
        assert(w.scales[g] == iq2_xxs::scale(row, 66 * b, g));
    }
    assert forall|e: int| 0 <= e < 256 implies #[trigger] w.levels[e] == iq2_xxs::level(s, 0, e) by {
        assert(w.levels[e] == iq2_xxs::level(row, 66 * b, e));
        let g = e / 32;
        let l = e % 32 / 8;
        assert(s[2 + 8 * g + l] == row[66 * b + 2 + 8 * g + l]);
    }
    assert(iq2_xxs::is_block(w, s, 0));
    iq2_xxs::dot_sums_the_elements(w, s, a, d, qs);
}

/// A matrix of whole blocks takes, for each row, the bytes of as many blocks as
/// the row has.
pub proof fn rows_take_whole_blocks(w: WeightView, k: nat)
    requires
        !(w is Unsupported),
        w.cols() == k * w.block_len(),
    ensures
        w.row_bytes() == k * w.block_bytes(),
        w.well_sized() <==> w.data().len() == w.rows() * (k * w.block_bytes()),
        w is Q8_0 ==> w.block_len() == quant::q8_0::BLOCK_SIZE && w.block_bytes()
            == quant::q8_0::BYTES_PER_BLOCK,
        w is Q2_K ==> w.block_len() == q2_k::BLOCK_SIZE && w.block_bytes()
            == q2_k::BYTES_PER_BLOCK,
        w is IQ2_XXS ==> w.block_len() == iq2_xxs::BLOCK_SIZE && w.block_bytes()
            == iq2_xxs::BYTES_PER_BLOCK,
        w is F16 ==> w.block_len() == 1 && w.block_bytes() == 2,
{
    let len = w.block_len();
    assert((k * len) / len == k && (k * len) % len == 0) by (nonlinear_arith)
        requires
            len > 0,
    ;
}

/// Each expert of a stack of well-sized matrices is well sized, and the experts
/// lie one behind the other.
pub proof fn experts_follow_each_other(w: WeightView, r: WeightView, eid: int, n_expert: int, i: int)
    requires
        0 <= eid < n_expert,
        !(w is Unsupported),
        w.cols() as int % w.block_len() == 0,
        w.data().len() == n_expert * (w.rows() * w.row_bytes()),
        r.rows() == w.rows(),
        r.cols() == w.cols(),
        r.block_len() == w.block_len(),
        r.block_bytes() == w.block_bytes(),
        !(r is Unsupported),
        r.data() == bits::part(w.data(), eid, w.data().len() as int / n_expert),
        0 <= i < w.rows() * w.row_bytes(),
    ensures
        r.well_sized(),
        r.data()[i] == w.data()[eid * (w.rows() * w.row_bytes()) + i],
{
    let size = w.rows() * w.row_bytes();
    assert((n_expert * size) / n_expert == size) by (nonlinear_arith)
        requires
            n_expert > 0,
    ;
    bits::part_in_range(eid, n_expert, size);
}

} // verus!
