//! Row-major tensors: a shape, and the entries one after the other, the last
//! coordinate running fastest.
//!
//! Entries are single-precision numbers, held by their bit patterns.

use std::ops::Range;

use vstd::prelude::*;

use crate::bits;
use crate::bits::{Bits32, ZERO};

verus! {

/// The product of `s`.
pub open spec fn product(s: Seq<usize>) -> nat
    decreases s.len(),
{
    if s.len() == 0 {
        1
    } else {
        s[0] as nat * product(s.skip(1))
    }
}

/// How far apart neighbours along axis `i` lie: the product of all dimensions
/// behind it.
pub open spec fn stride(shape: Seq<usize>, i: int) -> nat {
    product(shape.skip(i + 1))
}

/// All strides can be counted.
pub open spec fn strides_fit(shape: Seq<usize>) -> bool {
    forall|i: int| 0 <= i < shape.len() ==> #[trigger] stride(shape, i) <= usize::MAX
}

/// The product can be counted, from the front on.
pub open spec fn product_fits(shape: Seq<usize>) -> bool {
    forall|k: int| 0 <= k <= shape.len() ==> product(#[trigger] shape.take(k)) <= usize::MAX
}

/// `coords` names an entry of a tensor of this shape.
pub open spec fn in_shape(shape: Seq<usize>, coords: Seq<usize>) -> bool {
    &&& coords.len() == shape.len()
    &&& forall|i: int| 0 <= i < coords.len() ==> #[trigger] coords[i] < shape[i]
}

/// The place of the entry at `coords`.
pub open spec fn place(shape: Seq<usize>, coords: Seq<usize>) -> nat
    decreases shape.len(),
{
    if shape.len() == 0 {
        0
    } else {
        coords[0] as nat * product(shape.skip(1)) + place(shape.skip(1), coords.skip(1))
    }
}

proof fn product_of_prefix(s: Seq<usize>, k: int)
    requires
        0 <= k < s.len(),
    ensures
        product(s.take(k + 1)) == product(s.take(k)) * s[k],
    decreases k,
{
    if k == 0 {
        assert(s.take(1).skip(1) =~= Seq::empty());
        assert(product(Seq::<usize>::empty()) == 1);
        assert(product(s.take(1)) == s[0] as nat * 1);
        assert(s.take(0) =~= Seq::empty());
    } else {
        let t = s.skip(1);
        product_of_prefix(t, k - 1);
        assert(s.take(k + 1).skip(1) =~= t.take(k));
        assert(s.take(k).skip(1) =~= t.take(k - 1));
        assert(s[0] as nat * (product(t.take(k - 1)) * t[k - 1]) == (s[0] as nat * product(
            t.take(k - 1),
        )) * t[k - 1]) by (nonlinear_arith);
    }
}

proof fn skip_skip(s: Seq<usize>, i: int)
    requires
        0 <= i < s.len(),
    ensures
        s.skip(i).skip(1) == s.skip(i + 1),
        s.skip(i)[0] == s[i],
        s.skip(i).len() == s.len() - i,
{
    assert(s.skip(i).skip(1) =~= s.skip(i + 1));
}

/// The strides of a row-major tensor.
pub fn row_major_strides(shape: &[usize]) -> (strides: Vec<usize>)
    requires
        strides_fit(shape@),
    ensures
        strides@.len() == shape@.len(),
        forall|i: int| 0 <= i < shape@.len() ==> #[trigger] strides@[i] == stride(shape@, i),
{
    let n: usize = shape.len();
    let mut strides: Vec<usize> = vec![1; n];
    if n == 0 {
        return strides;
    }
    let mut i: usize = n - 1;
    assert(shape@.skip(n as int) =~= Seq::empty());
    assert(stride(shape@, n - 1) == 1);
    while i > 0
        invariant
            i < n,
            n == shape@.len(),
            strides@.len() == n,
            strides_fit(shape@),
            forall|j: int| i <= j < n ==> #[trigger] strides@[j] == stride(shape@, j),
        decreases i,
    {
        proof {
            skip_skip(shape@, i as int);
            assert(stride(shape@, i - 1) == shape@[i as int] as nat * stride(shape@, i as int));
            assert(stride(shape@, i as int) * shape@[i as int] == shape@[i as int] as nat * stride(
                shape@,
                i as int,
            )) by (nonlinear_arith);
        }
        let s: usize = strides[i] * shape[i];
        strides[i - 1] = s;
        i -= 1;
    }
    strides
}

/// The number of entries of a tensor.
pub fn numel(shape: &[usize]) -> (n: usize)
    requires
        product_fits(shape@),
    ensures
        n == product(shape@),
{
    let mut n: usize = 1;
    let mut k: usize = 0;
    assert(shape@.take(0) =~= Seq::empty());
    while k < shape.len()
        invariant
            k <= shape.len(),
            product_fits(shape@),
            n == product(shape@.take(k as int)),
        decreases shape.len() - k,
    {
        proof {
            product_of_prefix(shape@, k as int);
            assert(product(shape@.take(k + 1)) <= usize::MAX);
        }
        n = n * shape[k];
        k += 1;
    }
    assert(shape@.take(k as int) =~= shape@);
    n
}

/// Every entry has its place among the entries.
pub proof fn places_are_in_range(shape: Seq<usize>, coords: Seq<usize>)
    requires
        in_shape(shape, coords),
    ensures
        place(shape, coords) < product(shape),
    decreases shape.len(),
{
    if shape.len() > 0 {
        let s = shape.skip(1);
        let c = coords.skip(1);
        assert forall|i: int| 0 <= i < c.len() implies #[trigger] c[i] < s[i] by {
            assert(coords[i + 1] < shape[i + 1]);
        }
        places_are_in_range(s, c);
        let p = product(s);
        assert(coords[0] < shape[0]);
        assert(coords[0] as nat * p + p <= shape[0] as nat * p) by (nonlinear_arith)
            requires
                coords[0] < shape[0],
        ;
    }
}

/// No two entries have the same place.
pub proof fn places_are_distinct(shape: Seq<usize>, a: Seq<usize>, b: Seq<usize>)
    requires
        in_shape(shape, a),
        in_shape(shape, b),
        place(shape, a) == place(shape, b),
    ensures
        a == b,
    decreases shape.len(),
{
    if shape.len() > 0 {
        let s = shape.skip(1);
        let x = a.skip(1);
        let y = b.skip(1);
        assert forall|i: int| 0 <= i < x.len() implies #[trigger] x[i] < s[i] by {
            assert(a[i + 1] < shape[i + 1]);
        }
        assert forall|i: int| 0 <= i < y.len() implies #[trigger] y[i] < s[i] by {
            assert(b[i + 1] < shape[i + 1]);
        }
        places_are_in_range(s, x);
        places_are_in_range(s, y);
        let p = product(s);
        let u = place(s, x);
        let v = place(s, y);
        assert(a[0] == b[0] && u == v) by (nonlinear_arith)
            requires
                a[0] as nat * p + u == b[0] as nat * p + v,
                u < p,
                v < p,
        ;
        places_are_distinct(s, x, y);
        assert(a =~= seq![a[0]] + x);
        assert(b =~= seq![b[0]] + y);
    } else {
        assert(a =~= b);
    }
}

/// A tensor whose entries are borrowed.
#[derive(Clone, Debug)]
pub struct Tensor<'a> {
    data: &'a [Bits32],
    shape: Vec<usize>,
    strides: Vec<usize>,
}

/// A tensor that owns its entries.
#[derive(Clone, Debug)]
pub struct OwnedTensor {
    data: Vec<Bits32>,
    shape: Vec<usize>,
    strides: Vec<usize>,
}

/// A shape, and entries.
#[verifier::ext_equal]
pub struct TensorView {
    pub shape: Seq<usize>,
    pub data: Seq<Bits32>,
}

/// `strides` are those of `shape`.
spec fn are_strides(strides: Seq<usize>, shape: Seq<usize>) -> bool {
    &&& strides.len() == shape.len()
    &&& forall|i: int| 0 <= i < shape.len() ==> #[trigger] strides[i] == stride(shape, i)
}

fn copy_of(v: &Vec<usize>) -> (r: Vec<usize>)
    ensures
        r@ == v@,
{
    let r: Vec<usize> = v.clone();
    assert(r@ =~= v@);
    r
}

impl<'a> Tensor<'a> {
    /// There are as many entries as the shape asks for.
    pub closed spec fn wf(&self) -> bool {
        &&& are_strides(self.strides@, self.shape@)
        &&& self.data.len() == product(self.shape@)
    }

    pub closed spec fn view(&self) -> TensorView {
        TensorView { shape: self.shape@, data: self.data@ }
    }

    /// A well-formed tensor has as many entries as its shape asks for.
    pub proof fn wf_valid(&self)
        requires
            self.wf(),
        ensures
            self@.data.len() == product(self@.shape),
    {
    }

    /// The tensor of this shape with these entries.
    pub fn new(data: &'a [Bits32], shape: Vec<usize>) -> (t: Self)
        requires
            product_fits(shape@),
            strides_fit(shape@),
            data@.len() == product(shape@),
        ensures
            t.wf(),
            t@ == (TensorView { shape: shape@, data: data@ }),
    {
        let strides: Vec<usize> = row_major_strides(shape.as_slice());
        assert(data.len() == data@.len());
        Tensor { data, shape, strides }
    }

    /// All entries.
    pub fn data(&self) -> (d: &'a [Bits32])
        ensures
            d@ == self@.data,
    {
        self.data
    }

    /// The shape.
    pub fn shape(&self) -> (s: &[usize])
        ensures
            s@ == self@.shape,
    {
        self.shape.as_slice()
    }

    /// The strides.
    pub fn strides(&self) -> (s: &[usize])
        requires
            self.wf(),
        ensures
            s@.len() == self@.shape.len(),
            forall|i: int|
                0 <= i < s@.len() ==> #[trigger] s@[i] == stride(self@.shape, i),
    {
        self.strides.as_slice()
    }

    /// The number of axes.
    pub fn rank(&self) -> (n: usize)
        ensures
            n == self@.shape.len(),
    {
        self.shape.len()
    }

    /// The place of the entry at `coords`.
    pub fn offset(&self, coords: &[usize]) -> (off: usize)
        requires
            self.wf(),
            in_shape(self@.shape, coords@),
        ensures
            off == place(self@.shape, coords@),
            off < self@.data.len(),
    {
        let ghost shape = self.shape@;
        let mut off: usize = 0;
        let mut i: usize = 0;
        proof {
            places_are_in_range(shape, coords@);
            assert(shape.skip(0) =~= shape);
            assert(coords@.skip(0) =~= coords@);
        }
        while i < coords.len()
            invariant
                i <= coords.len(),
                self.wf(),
                shape == self.shape@,
                in_shape(shape, coords@),
                place(shape, coords@) < product(shape),
                product(shape) == self.data.len(),
                place(shape, coords@) == off + place(shape.skip(i as int), coords@.skip(i as int)),
            decreases coords.len() - i,
        {
            proof {
                skip_skip(shape, i as int);
                skip_skip(coords@, i as int);
                assert(self.strides@[i as int] == stride(shape, i as int));
            }
            off = off + coords[i] * self.strides[i];
            i += 1;
        }
        assert(shape.skip(i as int) =~= Seq::empty());
        off
    }

    /// Row `i` of a tensor with two axes.
    pub fn row(&self, i: usize) -> (r: &'a [Bits32])
        requires
            self.wf(),
            self@.shape.len() == 2,
            i < self@.shape[0],
        ensures
            r@ == bits::part(self@.data, i as int, self@.shape[1] as int),
    {
        let cols: usize = self.shape[1];
        proof {
            self.two_axes();
            bits::part_in_range(i as int, self.shape@[0] as int, cols as int);
            assert(self.data.len() == self.data@.len());
        }
        let start: usize = i * cols;
        vstd::slice::slice_subrange(self.data, start, start + cols)
    }

    proof fn two_axes(&self)
        requires
            self.wf(),
            self@.shape.len() == 2,
        ensures
            self@.data.len() == self@.shape[0] * self@.shape[1],
            stride(self@.shape, 0) == self@.shape[1],
    {
        let s = self.shape@;
        skip_skip(s, 0);
        skip_skip(s, 1);
        assert(s.skip(0) =~= s);
        assert(s.skip(2) =~= Seq::empty());
        assert(product(s.skip(2)) == 1);
        assert(product(s.skip(1)) == s[1] as nat * product(s.skip(2)));
        assert(product(s.skip(1)) == s[1]);
    }

    /// The rows in a range, of a tensor with two axes.
    pub fn view_2d(&self, rows: Range<usize>) -> (t: Tensor<'a>)
        requires
            self.wf(),
            self@.shape.len() == 2,
            rows.start <= rows.end,
            rows.end <= self@.shape[0],
        ensures
            t.wf(),
            t@ == (TensorView {
                shape: seq![(rows.end - rows.start) as usize, self@.shape[1]],
                data: self@.data.subrange(
                    rows.start * self@.shape[1],
                    rows.end * self@.shape[1],
                ),
            }),
    {
        let cols: usize = self.shape[1];
        let n: usize = rows.end - rows.start;
        proof {
            self.two_axes();
            let r = self.shape@[0] as int;
            assert(rows.start * cols <= rows.end * cols <= r * cols) by (nonlinear_arith)
                requires
                    rows.start <= rows.end <= r,
            ;
            assert(self.data.len() == self.data@.len());
            assert(n * cols == rows.end * cols - rows.start * cols) by (nonlinear_arith)
                requires
                    n == rows.end - rows.start,
            ;
        }
        let start: usize = rows.start * cols;
        let end: usize = rows.end * cols;
        let data = vstd::slice::slice_subrange(self.data, start, end);
        let mut shape: Vec<usize> = Vec::new();
        shape.push(n);
        shape.push(cols);
        proof {
            let s = shape@;
            assert(s =~= seq![n, cols]);
            two_dims(n, cols);
        }
        Tensor::new(data, shape)
    }
}

proof fn two_dims(n: usize, m: usize)
    requires
        n * m <= usize::MAX,
    ensures
        product(seq![n, m]) == n * m,
        product_fits(seq![n, m]),
        strides_fit(seq![n, m]),
{
    let s = seq![n, m];
    skip_skip(s, 0);
    skip_skip(s, 1);
    assert(s.skip(0) =~= s);
    assert(s.skip(2) =~= Seq::empty());
    assert(product(s.skip(2)) == 1);
    assert(product(s.skip(1)) == m as nat * product(s.skip(2)));
    assert(stride(s, 0) == m);
    assert(stride(s, 1) == 1);
    product_of_prefix(s, 0);
    product_of_prefix(s, 1);
    assert(s.take(0) =~= Seq::empty());
    assert(s.take(2) =~= s);
    assert(product(s.take(1)) == 1 * n);
    assert forall|k: int| 0 <= k <= s.len() implies product(#[trigger] s.take(k)) <= usize::MAX by {
        assert(k == 0 || k == 1 || k == 2);
    }
}

impl OwnedTensor {
    /// There are as many entries as the shape asks for.
    pub closed spec fn wf(&self) -> bool {
        &&& are_strides(self.strides@, self.shape@)
        &&& self.data.len() == product(self.shape@)
    }

    pub closed spec fn view(&self) -> TensorView {
        TensorView { shape: self.shape@, data: self.data@ }
    }

    /// The tensor of this shape with entries zero.
    pub fn zeros(shape: Vec<usize>) -> (t: Self)
        requires
            product_fits(shape@),
            strides_fit(shape@),
        ensures
            t.wf(),
            t@ == (TensorView { shape: shape@, data: bits::splat(ZERO, product(shape@)) }),
    {
        let n: usize = numel(shape.as_slice());
        let strides: Vec<usize> = row_major_strides(shape.as_slice());
        let t = OwnedTensor { data: vec![ZERO; n], shape, strides };
        assert(t@.data =~= bits::splat(ZERO, product(shape@)));
        t
    }

    /// The tensor of this shape with these entries.
    pub fn from_vec(data: Vec<Bits32>, shape: Vec<usize>) -> (t: Self)
        requires
            product_fits(shape@),
            strides_fit(shape@),
            data@.len() == product(shape@),
        ensures
            t.wf(),
            t@ == (TensorView { shape: shape@, data: data@ }),
    {
        let strides: Vec<usize> = row_major_strides(shape.as_slice());
        OwnedTensor { data, shape, strides }
    }

    /// The same tensor, borrowed.
    pub fn as_view(&self) -> (t: Tensor<'_>)
        requires
            self.wf(),
        ensures
            t.wf(),
            t@ == self@,
    {
        Tensor {
            data: self.data.as_slice(),
            shape: copy_of(&self.shape),
            strides: copy_of(&self.strides),
        }
    }

    /// All entries.
    pub fn data(&self) -> (d: &[Bits32])
        ensures
            d@ == self@.data,
    {
        self.data.as_slice()
    }

    /// All entries, to be changed; the shape stays.
    pub fn data_mut(&mut self) -> (d: &mut [Bits32])
        requires
            old(self).wf(),
        ensures
            d@ == old(self)@.data,
            final(d)@.len() == d@.len() ==> final(self).wf() && final(self)@ == (TensorView {
                shape: old(self)@.shape,
                data: final(d)@,
            }),
    {
        self.data.as_mut_slice()
    }

    /// The shape.
    pub fn shape(&self) -> (s: &[usize])
        ensures
            s@ == self@.shape,
    {
        self.shape.as_slice()
    }
}

/// A tensor without axes has one entry, and one more axis multiplies the number of
/// entries by its dimension.
pub proof fn dimensions_multiply(s: Seq<usize>, d: usize)
    ensures
        product(Seq::empty()) == 1,
        product(s.push(d)) == product(s) * d,
{
    let t = s.push(d);
    product_of_prefix(t, s.len() as int);
    assert(t.take(s.len() as int) =~= s);
    assert(t.take(s.len() as int + 1) =~= t);
}

/// Neighbours along the last axis lie side by side, and neighbours along another
/// axis as far apart as the whole of the axis behind it.
pub proof fn the_last_coordinate_runs_fastest(shape: Seq<usize>, i: int)
    requires
        0 <= i < shape.len(),
    ensures
        stride(shape, shape.len() - 1) == 1,
        i + 1 < shape.len() ==> stride(shape, i) == shape[i + 1] * stride(shape, i + 1),
{
    assert(shape.skip(shape.len() as int) =~= Seq::empty());
    if i + 1 < shape.len() {
        skip_skip(shape, i + 1);
    }
}

/// A step along axis `i` moves by the stride of that axis; the first entry stands
/// at place zero.
pub proof fn a_step_moves_by_its_stride(
    shape: Seq<usize>,
    coords: Seq<usize>,
    i: int,
    c: usize,
)
    requires
        coords.len() == shape.len(),
        0 <= i < shape.len(),
    ensures
        place(shape, coords.update(i, c)) - place(shape, coords) == (c - coords[i]) * stride(
            shape,
            i,
        ),
    decreases shape.len(),
{
    let d = coords.update(i, c);
    let s = shape.skip(1);
    let p = product(s);
    if i == 0 {
        assert(d.skip(1) =~= coords.skip(1));
        assert(shape.skip(1) =~= s);
        assert(c as nat * p - coords[0] as nat * p == (c - coords[0]) * p) by (nonlinear_arith);
    } else {
        a_step_moves_by_its_stride(s, coords.skip(1), i - 1, c);
        assert(d.skip(1) =~= coords.skip(1).update(i - 1, c));
        assert(s.skip(i) =~= shape.skip(i + 1));
    }
}

/// The entry whose coordinates are all zero comes first.
pub proof fn the_first_entry_has_place_zero(shape: Seq<usize>, coords: Seq<usize>)
    requires
        coords.len() == shape.len(),
        forall|i: int| 0 <= i < coords.len() ==> #[trigger] coords[i] == 0,
    ensures
        place(shape, coords) == 0,
    decreases shape.len(),
{
    if shape.len() > 0 {
        let c = coords.skip(1);
        assert forall|i: int| 0 <= i < c.len() implies #[trigger] c[i] == 0 by {
            assert(coords[i + 1] == 0);
        }
        the_first_entry_has_place_zero(shape.skip(1), c);
        assert(coords[0] == 0);
        assert(0 * product(shape.skip(1)) == 0);
    }
}

} // verus!
