//! Typed access to the tensors of a model.
//!
//! Each function looks a tensor up by name, holds its type and size to what is
//! asked for, and shows its data in place.

use vstd::prelude::*;

use crate::bits::Bits32;
use crate::gguf;
use crate::gguf::{GgmlType, InfoView, TensorErrorKind, TensorInfo};
use crate::le;
use crate::le::get_u32;
use crate::model::{WeightMap, WeightMapView};
use crate::ops::matmul::{Matrix, WeightView};
use crate::text;
use crate::text::{and, and_num, lit};

verus! {

// ---------------------------------------------------------------------------
// Errors
// ---------------------------------------------------------------------------

/// What is wrong with a tensor.
#[derive(Clone, Copy, Debug, PartialEq, Eq, Structural)]
pub enum WeightErrorKind {
    /// There is no tensor of that name.
    Missing,
    /// The tensor is stored otherwise.
    Dtype { expected: GgmlType, got: GgmlType },
    /// The data cannot be had.
    Data(TensorErrorKind),
    /// No product is defined for how the tensor is stored.
    Unsupported(GgmlType),
    /// The bytes of that many elements cannot be counted.
    CountOverflow(GgmlType),
    /// There are more or fewer elements.
    Size { dtype: GgmlType, elems: usize, bytes: usize, got: usize },
    /// The bytes are no whole number of elements.
    Ragged(usize),
    /// The data do not start at a multiple of four.
    Unaligned(GgmlType),
    /// The shape differs.
    Shape { cols: usize, rows: usize, got_cols: usize, got_rows: usize },
    /// The entries of the routing table cannot be counted.
    TableOverflow,
    /// The width of the hyper-connection control cannot be counted.
    HcSumOverflow,
    /// The width of the hyper-connection control cannot be counted.
    HcOverflow,
}

/// Why a tensor cannot be used.
#[derive(Clone, Debug)]
pub struct WeightError {
    pub name: String,
    pub kind: WeightErrorKind,
}

impl WeightErrorKind {
    /// The words of a message about the tensor `name`.
    pub open spec fn text(self, name: Seq<char>) -> Seq<char> {
        match self {
            WeightErrorKind::Missing => name,
            WeightErrorKind::Dtype { expected, got } => name + ": expected GGML type "@
                + expected.name_text() + ", got "@ + got.name_text(),
            WeightErrorKind::Data(kind) => "Tensor '"@ + name + kind.text(),
            WeightErrorKind::Unsupported(dtype) => name
                + ": unsupported GGML dtype for weight view: "@ + dtype.name_text(),
            WeightErrorKind::CountOverflow(dtype) => name + ": "@ + dtype.name_text()
                + " element count overflow"@,
            WeightErrorKind::Size { dtype, elems, bytes, got } => name + ": expected "@ + text::decimal(
                elems as nat,
            ) + " "@ + dtype.name_text() + " elems ("@ + text::decimal(bytes as nat)
                + " B), got "@ + text::decimal(got as nat) + " B"@,
            WeightErrorKind::Ragged(got) => name + ": F32 bytes "@ + text::decimal(got as nat)
                + " not multiple of 4"@,
            WeightErrorKind::Unaligned(dtype) => name + ": "@ + dtype.name_text()
                + " data is not 4-byte aligned"@,
            WeightErrorKind::Shape { cols, rows, got_cols, got_rows } => name + ": expected ["@
                + text::decimal(cols as nat) + ", "@ + text::decimal(rows as nat) + "], got ["@
                + text::decimal(got_cols as nat) + ", "@ + text::decimal(got_rows as nat) + "]"@,
            WeightErrorKind::TableOverflow => name + ": tid2eid size overflow"@,
            WeightErrorKind::HcSumOverflow => "LayerWeights: hc base dim (n_hc + 2) overflow"@,
            WeightErrorKind::HcOverflow => "LayerWeights: hc base dim overflow"@,
        }
    }
}

impl WeightError {
    /// A message for people.
    pub fn message(&self) -> (s: String)
        ensures
            s@ == self.kind.text(self.name@),
    {
        let name = lit(self.name.as_str());
        match self.kind {
            WeightErrorKind::Missing => name,
            WeightErrorKind::Dtype { expected, got } => and(
                and(and(and(name, ": expected GGML type "), expected.name()), ", got "),
                got.name(),
            ),
            WeightErrorKind::Data(kind) => kind.message_for(self.name.as_str()),
            WeightErrorKind::Unsupported(dtype) => and(
                and(name, ": unsupported GGML dtype for weight view: "),
                dtype.name(),
            ),
            WeightErrorKind::CountOverflow(dtype) => and(
                and(and(name, ": "), dtype.name()),
                " element count overflow",
            ),
            WeightErrorKind::Size { dtype, elems, bytes, got } => and(
                and_num(
                    and(
                        and_num(
                            and(
                                and(and(and_num(and(name, ": expected "), elems as u64), " "), dtype.name()),
                                " elems (",
                            ),
                            bytes as u64,
                        ),
                        " B), got ",
                    ),
                    got as u64,
                ),
                " B",
            ),
            WeightErrorKind::Ragged(got) => and(
                and_num(and(name, ": F32 bytes "), got as u64),
                " not multiple of 4",
            ),
            WeightErrorKind::Unaligned(dtype) => and(
                and(and(name, ": "), dtype.name()),
                " data is not 4-byte aligned",
            ),
            WeightErrorKind::Shape { cols, rows, got_cols, got_rows } => and(
                and_num(
                    and(
                        and_num(
                            and(
                                and_num(
                                    and(and_num(and(name, ": expected ["), cols as u64), ", "),
                                    rows as u64,
                                ),
                                "], got [",
                            ),
                            got_cols as u64,
                        ),
                        ", ",
                    ),
                    got_rows as u64,
                ),
                "]",
            ),
            WeightErrorKind::TableOverflow => and(name, ": tid2eid size overflow"),
            WeightErrorKind::HcSumOverflow => lit("LayerWeights: hc base dim (n_hc + 2) overflow"),
            WeightErrorKind::HcOverflow => lit("LayerWeights: hc base dim overflow"),
        }
    }
}

// ---------------------------------------------------------------------------
// Plain numbers
// ---------------------------------------------------------------------------

/// The 32-bit words in `bytes`.
pub open spec fn words(bytes: Seq<u8>) -> Seq<u32> {
    Seq::new(bytes.len() / 4, |i: int| le::le32(bytes, 4 * i) as u32)
}

/// The signed 32-bit numbers in `bytes`.
pub open spec fn signed_words(bytes: Seq<u8>) -> Seq<i32> {
    Seq::new(bytes.len() / 4, |i: int| gguf::signed32(le::le32(bytes, 4 * i) as u32))
}

/// Single-precision numbers in a file.
#[derive(Clone, Copy, Debug)]
pub struct F32Slice<'a> {
    pub bytes: &'a [u8],
}

impl<'a> F32Slice<'a> {
    pub open spec fn view(&self) -> Seq<Bits32> {
        words(self.bytes@)
    }

    /// The number of numbers.
    pub fn len(&self) -> (n: usize)
        ensures
            n == self@.len(),
    {
        self.bytes.len() / 4
    }

    /// Number `i`.
    pub fn get(&self, i: usize) -> (x: Bits32)
        requires
            i < self@.len(),
        ensures
            x == self@[i as int],
    {
        assert(4 * i + 4 <= self.bytes.len());
        get_u32(self.bytes, 4 * i)
    }
}

/// Signed 32-bit numbers in a file.
#[derive(Clone, Copy, Debug)]
pub struct I32Slice<'a> {
    pub bytes: &'a [u8],
}

impl<'a> I32Slice<'a> {
    pub open spec fn view(&self) -> Seq<i32> {
        signed_words(self.bytes@)
    }

    /// The number of numbers.
    pub fn len(&self) -> (n: usize)
        ensures
            n == self@.len(),
    {
        self.bytes.len() / 4
    }

    /// Number `i`.
    pub fn get(&self, i: usize) -> (x: i32)
        requires
            i < self@.len(),
        ensures
            x == self@[i as int],
    {
        assert(4 * i + 4 <= self.bytes.len());
        gguf::to_signed32(get_u32(self.bytes, 4 * i))
    }
}

// ---------------------------------------------------------------------------
// What a lookup gives
// ---------------------------------------------------------------------------

/// The bytes of the tensor `name`, stored as `want`.
pub open spec fn typed_bytes(m: WeightMapView, name: Seq<char>, want: GgmlType) -> Result<
    Seq<u8>,
    WeightErrorKind,
> {
    if !m.content.tensors.contains_key(name) {
        Err(WeightErrorKind::Missing)
    } else if m.content.tensors[name].dtype != want {
        Err(WeightErrorKind::Dtype { expected: want, got: m.content.tensors[name].dtype })
    } else {
        match gguf::bytes_of(m.content, m.file, name) {
            Ok(b) => Ok(b),
            Err(e) => Err(WeightErrorKind::Data(e)),
        }
    }
}

/// The number of rows of a tensor: its second dimension, or one.
pub open spec fn rows_of(info: InfoView) -> usize {
    if info.dims.len() > 1 {
        info.dims[1] as usize
    } else {
        1
    }
}

/// The matrix `name`, stored as `want`. Dimensions are given from the innermost
/// on: the first is the length of a row.
pub open spec fn matrix(m: WeightMapView, name: Seq<char>, want: GgmlType) -> Result<
    Matrix,
    WeightErrorKind,
> {
    match typed_bytes(m, name, want) {
        Err(e) => Err(e),
        Ok(bytes) => Ok(
            Matrix {
                kind: Some(want),
                bytes,
                rows: rows_of(m.content.tensors[name]),
                cols: m.content.tensors[name].dims[0] as usize,
            },
        ),
    }
}

/// A product is defined for tensors that are stored so.
pub open spec fn multipliable(dtype: GgmlType) -> bool {
    dtype == GgmlType::Q8_0 || dtype == GgmlType::F16 || dtype == GgmlType::Q2_K || dtype
        == GgmlType::IQ2_XXS
}

/// The matrix `name`, however it is stored.
pub open spec fn any_matrix(m: WeightMapView, name: Seq<char>) -> Result<Matrix, WeightErrorKind> {
    if !m.content.tensors.contains_key(name) {
        Err(WeightErrorKind::Missing)
    } else {
        let dtype = m.content.tensors[name].dtype;
        match matrix(m, name, dtype) {
            Err(e) => Err(e),
            Ok(x) => if multipliable(dtype) {
                Ok(x)
            } else {
                Err(WeightErrorKind::Unsupported(dtype))
            },
        }
    }
}

/// The address of the first byte of the tensor `name` is a multiple of four.
pub open spec fn is_aligned(m: WeightMapView, name: Seq<char>) -> bool {
    (m.base + m.content.data_offset + m.content.tensors[name].offset) % 4 == 0
}

/// The bytes of the `n` numbers of the tensor `name`, four bytes each.
pub open spec fn number_bytes(m: WeightMapView, name: Seq<char>, want: GgmlType, n: usize) -> Result<
    Seq<u8>,
    WeightErrorKind,
> {
    match typed_bytes(m, name, want) {
        Err(e) => Err(e),
        Ok(bytes) => if 4 * n > usize::MAX {
            Err(WeightErrorKind::CountOverflow(want))
        } else if bytes.len() != 4 * n {
            Err(
                WeightErrorKind::Size {
                    dtype: want,
                    elems: n,
                    bytes: (4 * n) as usize,
                    got: bytes.len() as usize,
                },
            )
        } else if !is_aligned(m, name) {
            Err(WeightErrorKind::Unaligned(want))
        } else {
            Ok(bytes)
        },
    }
}

/// The `n` single-precision numbers of the tensor `name`.
pub open spec fn floats(m: WeightMapView, name: Seq<char>, n: usize) -> Result<
    Seq<Bits32>,
    WeightErrorKind,
> {
    match number_bytes(m, name, GgmlType::F32, n) {
        Ok(b) => Ok(words(b)),
        Err(e) => Err(e),
    }
}

/// The `n` signed numbers of the tensor `name`.
pub open spec fn integers(m: WeightMapView, name: Seq<char>, n: usize) -> Result<
    Seq<i32>,
    WeightErrorKind,
> {
    match number_bytes(m, name, GgmlType::I32, n) {
        Ok(b) => Ok(signed_words(b)),
        Err(e) => Err(e),
    }
}

/// The single-precision numbers of the tensor `name`, however many.
pub open spec fn all_floats(m: WeightMapView, name: Seq<char>) -> Result<
    Seq<Bits32>,
    WeightErrorKind,
> {
    match typed_bytes(m, name, GgmlType::F32) {
        Err(e) => Err(e),
        Ok(bytes) => if bytes.len() % 4 != 0 {
            Err(WeightErrorKind::Ragged(bytes.len() as usize))
        } else if !is_aligned(m, name) {
            Err(WeightErrorKind::Unaligned(GgmlType::F32))
        } else {
            Ok(words(bytes))
        },
    }
}

/// The tensor `name`, if it can be had as `want`, has a dimension.
pub open spec fn has_shape(m: WeightMapView, name: Seq<char>, want: GgmlType) -> bool {
    typed_bytes(m, name, want) is Ok ==> m.content.tensors[name].dims.len() > 0
}

/// The tensor `name`, if it can be had as a matrix, has a dimension.
pub open spec fn has_any_shape(m: WeightMapView, name: Seq<char>) -> bool {
    forall|want: GgmlType| multipliable(want) ==> #[trigger] has_shape(m, name, want)
}

/// Every matrix that can be had has a dimension.
pub open spec fn has_shapes(m: WeightMapView) -> bool {
    forall|name: Seq<char>, want: GgmlType| multipliable(want) ==> #[trigger] has_shape(m, name, want)
}

pub(crate) proof fn shape_of_any(m: WeightMapView, name: Seq<char>)
    requires
        has_shapes(m),
    ensures
        has_any_shape(m, name),
{
    assert forall|want: GgmlType| multipliable(want) implies #[trigger] has_shape(m, name, want) by {}
}

// ---------------------------------------------------------------------------
// Lookups
// ---------------------------------------------------------------------------

/// Holds the type of a tensor to the one that is expected.
pub fn check_dtype(info: &TensorInfo, name: &str, expected: GgmlType) -> (r: Result<
    (),
    WeightError,
>)
    ensures
        match r {
            Ok(_) => info.dtype == expected,
            Err(e) => info.dtype != expected && e.name@ == name@ && e.kind == (
            WeightErrorKind::Dtype { expected, got: info.dtype }),
        },
{
    if info.dtype != expected {
        Err(
            WeightError {
                name: name.to_owned(),
                kind: WeightErrorKind::Dtype { expected, got: info.dtype },
            },
        )
    } else {
        Ok(())
    }
}

fn error(name: &str, kind: WeightErrorKind) -> (e: WeightError)
    ensures
        e.name@ == name@,
        e.kind == kind,
{
    WeightError { name: name.to_owned(), kind }
}

/// A view of a matrix that a product is defined for.
fn view_of<'a>(dtype: GgmlType, bytes: &'a [u8], out_features: usize, in_features: usize) -> (r:
    WeightView<'a>)
    requires
        multipliable(dtype),
    ensures
        r@ == (Matrix {
            kind: Some(dtype),
            bytes: bytes@,
            rows: out_features,
            cols: in_features,
        }),
{
    match dtype {
        GgmlType::Q8_0 => WeightView::Q8_0 { bytes, out_features, in_features },
        GgmlType::F16 => WeightView::F16 { bytes, out_features, in_features },
        GgmlType::Q2_K => WeightView::Q2_K { bytes, out_features, in_features },
        _ => WeightView::IQ2_XXS { bytes, out_features, in_features },
    }
}

impl<'a> WeightMap<'a> {
    /// The description of the tensor `name` and its bytes, stored as `want`.
    fn typed(&self, name: &str, want: GgmlType) -> (r: Result<(&TensorInfo, &'a [u8]), WeightError>)
        ensures
            match r {
                Ok((info, b)) => typed_bytes(self@, name@, want) == Ok::<Seq<u8>, WeightErrorKind>(
                    b@,
                ) && info@ == self@.content.tensors[name@],
                Err(e) => e.name@ == name@ && typed_bytes(self@, name@, want) == Err::<
                    Seq<u8>,
                    WeightErrorKind,
                >(e.kind),
            },
    {
        let info = match self.tensor_info(name) {
            Some(i) => i,
            None => return Err(error(name, WeightErrorKind::Missing)),
        };
        match check_dtype(info, name, want) {
            Ok(_) => {},
            Err(e) => return Err(e),
        }
        match self.tensor_bytes(name) {
            Ok(b) => Ok((info, b)),
            Err(e) => Err(error(name, WeightErrorKind::Data(e.kind))),
        }
    }

    fn typed_matrix(&self, name: &str, want: GgmlType) -> (r: Result<WeightView<'a>, WeightError>)
        requires
            has_shape(self@, name@, want),
            multipliable(want),
        ensures
            match r {
                Ok(w) => matrix(self@, name@, want) == Ok::<Matrix, WeightErrorKind>(w@),
                Err(e) => e.name@ == name@ && matrix(self@, name@, want) == Err::<
                    Matrix,
                    WeightErrorKind,
                >(e.kind),
            },
    {
        match self.typed(name, want) {
            Err(e) => Err(e),
            Ok((info, bytes)) => {
                proof {
                    gguf::dims_fit(info.dims@, 0);
                    if info.dims.len() > 1 {
                        gguf::dims_fit(info.dims@, 1);
                    }
                }
                let out_features: usize = if info.dims.len() > 1 {
                    info.dims[1] as usize
                } else {
                    1
                };
                Ok(view_of(want, bytes, out_features, info.dims[0] as usize))
            },
        }
    }

    /// The matrix `name`, in blocks of 32 elements in 34 bytes.
    pub fn q8_0(&self, name: &str) -> (r: Result<WeightView<'a>, WeightError>)
        requires
            has_shape(self@, name@, GgmlType::Q8_0),
        ensures
            match r {
                Ok(w) => matrix(self@, name@, GgmlType::Q8_0) == Ok::<Matrix, WeightErrorKind>(w@),
                Err(e) => e.name@ == name@ && matrix(self@, name@, GgmlType::Q8_0) == Err::<
                    Matrix,
                    WeightErrorKind,
                >(e.kind),
            },
    {
        self.typed_matrix(name, GgmlType::Q8_0)
    }

    /// The matrix `name`, in half precision.
    pub fn f16_weight(&self, name: &str) -> (r: Result<WeightView<'a>, WeightError>)
        requires
            has_shape(self@, name@, GgmlType::F16),
        ensures
            match r {
                Ok(w) => matrix(self@, name@, GgmlType::F16) == Ok::<Matrix, WeightErrorKind>(w@),
                Err(e) => e.name@ == name@ && matrix(self@, name@, GgmlType::F16) == Err::<
                    Matrix,
                    WeightErrorKind,
                >(e.kind),
            },
    {
        self.typed_matrix(name, GgmlType::F16)
    }

    /// The matrix `name`, in blocks of 256 elements in 84 bytes.
    pub fn q2_k(&self, name: &str) -> (r: Result<WeightView<'a>, WeightError>)
        requires
            has_shape(self@, name@, GgmlType::Q2_K),
        ensures
            match r {
                Ok(w) => matrix(self@, name@, GgmlType::Q2_K) == Ok::<Matrix, WeightErrorKind>(w@),
                Err(e) => e.name@ == name@ && matrix(self@, name@, GgmlType::Q2_K) == Err::<
                    Matrix,
                    WeightErrorKind,
                >(e.kind),
            },
    {
        self.typed_matrix(name, GgmlType::Q2_K)
    }

    /// The matrix `name`, in blocks of 256 elements in 66 bytes.
    pub fn iq2_xxs(&self, name: &str) -> (r: Result<WeightView<'a>, WeightError>)
        requires
            has_shape(self@, name@, GgmlType::IQ2_XXS),
        ensures
            match r {
                Ok(w) => matrix(self@, name@, GgmlType::IQ2_XXS) == Ok::<Matrix, WeightErrorKind>(
                    w@,
                ),
                Err(e) => e.name@ == name@ && matrix(self@, name@, GgmlType::IQ2_XXS) == Err::<
                    Matrix,
                    WeightErrorKind,
                >(e.kind),
            },
    {
        self.typed_matrix(name, GgmlType::IQ2_XXS)
    }

    /// The matrix `name`, however it is stored.
    pub fn quant_weight(&self, name: &str) -> (r: Result<WeightView<'a>, WeightError>)
        requires
            has_any_shape(self@, name@),
        ensures
            match r {
                Ok(w) => any_matrix(self@, name@) == Ok::<Matrix, WeightErrorKind>(w@),
                Err(e) => e.name@ == name@ && any_matrix(self@, name@) == Err::<
                    Matrix,
                    WeightErrorKind,
                >(e.kind),
            },
    {
        let dtype: GgmlType = match self.tensor_info(name) {
            Some(i) => i.dtype,
            None => return Err(error(name, WeightErrorKind::Missing)),
        };
        match dtype {
            GgmlType::Q8_0 | GgmlType::F16 | GgmlType::Q2_K | GgmlType::IQ2_XXS => {
                assert(has_shape(self@, name@, dtype));
                self.typed_matrix(name, dtype)
            },
            _ => match self.typed(name, dtype) {
                Err(e) => Err(e),
                Ok(_) => Err(error(name, WeightErrorKind::Unsupported(dtype))),
            },
        }
    }

    fn numbers(&self, name: &str, want: GgmlType, n: usize) -> (r: Result<&'a [u8], WeightError>)
        ensures
            match r {
                Ok(b) => number_bytes(self@, name@, want, n) == Ok::<Seq<u8>, WeightErrorKind>(b@)
                    && b@.len() == 4 * n,
                Err(e) => e.name@ == name@ && number_bytes(self@, name@, want, n) == Err::<
                    Seq<u8>,
                    WeightErrorKind,
                >(e.kind),
            },
    {
        let (info, bytes) = match self.typed(name, want) {
            Ok(x) => x,
            Err(e) => return Err(e),
        };
        let size: usize = match n.checked_mul(4) {
            Some(s) => s,
            None => return Err(error(name, WeightErrorKind::CountOverflow(want))),
        };
        if bytes.len() != size {
            return Err(
                error(name, WeightErrorKind::Size { dtype: want, elems: n, bytes: size, got: bytes.len() }),
            );
        }
        if self.misalignment(info) != 0 {
            return Err(error(name, WeightErrorKind::Unaligned(want)));
        }
        Ok(bytes)
    }

    /// The `expect_elems` single-precision numbers of the tensor `name`.
    pub fn f32_1d(&self, name: &str, expect_elems: usize) -> (r: Result<F32Slice<'a>, WeightError>)
        ensures
            match r {
                Ok(s) => floats(self@, name@, expect_elems) == Ok::<Seq<Bits32>, WeightErrorKind>(
                    s@,
                ) && s@.len() == expect_elems,
                Err(e) => e.name@ == name@ && floats(self@, name@, expect_elems) == Err::<
                    Seq<Bits32>,
                    WeightErrorKind,
                >(e.kind),
            },
    {
        match self.numbers(name, GgmlType::F32, expect_elems) {
            Ok(bytes) => Ok(F32Slice { bytes }),
            Err(e) => Err(e),
        }
    }

    /// The `expect_elems` signed numbers of the tensor `name`.
    pub fn i32_1d(&self, name: &str, expect_elems: usize) -> (r: Result<I32Slice<'a>, WeightError>)
        ensures
            match r {
                Ok(s) => integers(self@, name@, expect_elems) == Ok::<Seq<i32>, WeightErrorKind>(
                    s@,
                ) && s@.len() == expect_elems,
                Err(e) => e.name@ == name@ && integers(self@, name@, expect_elems) == Err::<
                    Seq<i32>,
                    WeightErrorKind,
                >(e.kind),
            },
    {
        match self.numbers(name, GgmlType::I32, expect_elems) {
            Ok(bytes) => Ok(I32Slice { bytes }),
            Err(e) => Err(e),
        }
    }

    /// The single-precision numbers of the tensor `name`, however many.
    pub fn f32_slice(&self, name: &str) -> (r: Result<F32Slice<'a>, WeightError>)
        ensures
            match r {
                Ok(s) => all_floats(self@, name@) == Ok::<Seq<Bits32>, WeightErrorKind>(s@),
                Err(e) => e.name@ == name@ && all_floats(self@, name@) == Err::<
                    Seq<Bits32>,
                    WeightErrorKind,
                >(e.kind),
            },
    {
        let (info, bytes) = match self.typed(name, GgmlType::F32) {
            Ok(x) => x,
            Err(e) => return Err(e),
        };
        if bytes.len() % 4 != 0 {
            return Err(error(name, WeightErrorKind::Ragged(bytes.len())));
        }
        if self.misalignment(info) != 0 {
            return Err(error(name, WeightErrorKind::Unaligned(GgmlType::F32)));
        }
        Ok(F32Slice { bytes })
    }

    /// Whether every matrix that can be had has a dimension.
    pub fn all_have_shapes(&self) -> (r: bool)
        requires
            self.wf(),
        ensures
            r == has_shapes(self@),
    {
        let names: &Vec<String> = self.tensor_names();
        let mut i: usize = 0;
        while i < names.len()
            invariant
                i <= names.len(),
                forall|j: int, want: GgmlType|
                    #![trigger has_shape(self@, names@[j]@, want)]
                    0 <= j < i && multipliable(want) ==> has_shape(self@, names@[j]@, want),
            decreases names.len() - i,
        {
            let name: &str = names[i].as_str();
            match self.tensor_info(name) {
                None => {},
                Some(info) => {
                    if info.dims.len() == 0 {
                        match info.dtype {
                            GgmlType::Q8_0 | GgmlType::F16 | GgmlType::Q2_K | GgmlType::IQ2_XXS => {
                                if self.tensor_bytes(name).is_ok() {
                                    assert(!has_shape(self@, name@, info.dtype));
                                    return false;
                                }
                            },
                            _ => {},
                        }
                    }
                },
            }
            i += 1;
        }
        assert forall|name: Seq<char>, want: GgmlType| multipliable(want) implies #[trigger] has_shape(
            self@,
            name,
            want,
        ) by {
            if self@.content.tensors.contains_key(name) {
                let j = choose|j: int| 0 <= j < names@.len() && (#[trigger] names@[j])@ == name;
                assert(has_shape(self@, names@[j]@, want));
            }
        }
        true
    }
}

/// Word `i` is made up of bytes `4 * i` to `4 * i + 3`, lowest first; a signed one
/// is the same or less by two to the power of 32.
pub proof fn a_word_takes_four_bytes(bytes: Seq<u8>, i: int)
    requires
        0 <= i,
        4 * i + 4 <= bytes.len(),
    ensures
        words(bytes).len() == bytes.len() / 4,
        signed_words(bytes).len() == bytes.len() / 4,
        words(bytes)[i] == bytes[4 * i] + 256 * bytes[4 * i + 1] + 65536 * bytes[4 * i + 2]
            + 16777216 * bytes[4 * i + 3],
        signed_words(bytes)[i] == words(bytes)[i] || signed_words(bytes)[i] == words(bytes)[i]
            - 0x1_0000_0000,
{
    le::bytes32_of_le32(bytes, 4 * i);
}

/// A tensor is had by its name and its type, and its bytes are those of the file
/// from where its data start.
pub proof fn a_tensor_is_had_by_name_and_type(
    m: WeightMapView,
    name: Seq<char>,
    want: GgmlType,
    i: int,
)
    requires
        m.content.data_offset >= 0,
    ensures
        typed_bytes(m, name, want) is Ok <==> m.content.tensors.contains_key(name)
            && m.content.tensors[name].dtype == want && gguf::bytes_of(
            m.content,
            m.file,
            name,
        ) is Ok,
        typed_bytes(m, name, want) matches Ok(b) ==> 0 <= i < b.len() ==> b[i]
            == m.file[m.content.data_offset + m.content.tensors[name].offset + i],
        !m.content.tensors.contains_key(name) ==> typed_bytes(m, name, want) == Err::<
            Seq<u8>,
            WeightErrorKind,
        >(WeightErrorKind::Missing),
{
}

/// A matrix with two dimensions whose rows are whole blocks is well sized: its
/// first dimension is the length of a row, its second the number of rows, and the
/// file holds exactly the bytes of these.
pub proof fn a_matrix_of_whole_blocks_is_well_sized(
    m: WeightMapView,
    name: Seq<char>,
    want: GgmlType,
    w: WeightView,
)
    requires
        multipliable(want),
        m.content.data_offset >= 0,
        matrix(m, name, want) == Ok::<Matrix, WeightErrorKind>(w@),
        m.content.tensors[name].dims.len() == 2,
        m.content.tensors[name].dims[0] as int % gguf::blck_size(want) as int == 0,
    ensures
        w.well_sized(),
        w.cols() == m.content.tensors[name].dims[0],
        w.rows() == m.content.tensors[name].dims[1],
        w.data() == m.file.subrange(
            m.content.data_offset + m.content.tensors[name].offset,
            m.content.data_offset + m.content.tensors[name].offset + w.rows() * w.row_bytes(),
        ),
{
    let info = m.content.tensors[name];
    gguf::dims_fit(info.dims, 0);
    gguf::dims_fit(info.dims, 1);
    gguf::few_dimensions_multiply(info.dims);
    let b = gguf::blck_size(want) as int;
    let size = gguf::type_size(want) as int;
    let k = info.dims[0] as int / b;
    let rows = info.dims[1] as int;
    assert(w.block_len() == b && w.block_bytes() == size);
    assert(info.dims[0] == k * b) by (nonlinear_arith)
        requires
            k == info.dims[0] as int / b,
            info.dims[0] as int % b == 0,
            b > 0,
    ;
    assert(info.dims[0] * rows == (rows * k) * b) by (nonlinear_arith)
        requires
            info.dims[0] == k * b,
    ;
    assert(rows * k >= 0) by (nonlinear_arith)
        requires
            rows >= 0,
            k >= 0,
    ;
    gguf::elements_take_whole_blocks((info.dims[0] * rows) as nat, want, (rows * k) as nat);
    assert((rows * k) * size == rows * (k * size)) by (nonlinear_arith);
}

/// A stack of `n` matrices, given by a third dimension, holds the bytes of `n`
/// well-sized matrices.
pub proof fn a_stack_holds_its_experts(
    m: WeightMapView,
    name: Seq<char>,
    want: GgmlType,
    w: WeightView,
)
    requires
        multipliable(want),
        m.content.data_offset >= 0,
        matrix(m, name, want) == Ok::<Matrix, WeightErrorKind>(w@),
        m.content.tensors[name].dims.len() == 3,
        m.content.tensors[name].dims[0] as int % gguf::blck_size(want) as int == 0,
    ensures
        !(w is Unsupported),
        w.cols() == m.content.tensors[name].dims[0],
        w.rows() == m.content.tensors[name].dims[1],
        w.cols() as int % w.block_len() == 0,
        w.data().len() == m.content.tensors[name].dims[2] * (w.rows() * w.row_bytes()),
{
    let info = m.content.tensors[name];
    gguf::dims_fit(info.dims, 0);
    gguf::dims_fit(info.dims, 1);
    gguf::dims_fit(info.dims, 2);
    gguf::few_dimensions_multiply(info.dims);
    let b = gguf::blck_size(want) as int;
    let size = gguf::type_size(want) as int;
    let k = info.dims[0] as int / b;
    let rows = info.dims[1] as int;
    let n = info.dims[2] as int;
    assert(w.block_len() == b && w.block_bytes() == size);
    assert(info.dims[0] == k * b) by (nonlinear_arith)
        requires
            k == info.dims[0] as int / b,
            info.dims[0] as int % b == 0,
            b > 0,
    ;
    assert(info.dims[0] * rows * n == (n * (rows * k)) * b) by (nonlinear_arith)
        requires
            info.dims[0] == k * b,
    ;
    assert(n * (rows * k) >= 0) by (nonlinear_arith)
        requires
            rows >= 0,
            k >= 0,
            n >= 0,
    ;
    gguf::elements_take_whole_blocks(
        (info.dims[0] * rows * n) as nat,
        want,
        (n * (rows * k)) as nat,
    );
    assert((n * (rows * k)) * size == n * (rows * (k * size))) by (nonlinear_arith);
}

/// Plain numbers are had, all of them and no other number of them, where the tensor
/// holds as many in four bytes each and its data start at a multiple of four.
pub proof fn plain_numbers_are_words_of_the_file(
    m: WeightMapView,
    name: Seq<char>,
    n: usize,
    i: int,
)
    requires
        m.content.data_offset >= 0,
        m.file.len() <= usize::MAX,
        m.content.tensors.contains_key(name) ==> m.content.tensors[name].dims.len() == 1,
    ensures
        ({
            let info = m.content.tensors[name];
            let at = m.content.data_offset + info.offset;
            let had = m.content.tensors.contains_key(name) && info.dims[0] == n && at + 4 * n
                <= m.file.len() && (m.base + at) % 4 == 0;
            &&& floats(m, name, n) is Ok <==> had && info.dtype == GgmlType::F32
            &&& integers(m, name, n) is Ok <==> had && info.dtype == GgmlType::I32
            &&& floats(m, name, n) matches Ok(x) ==> x.len() == n && (0 <= i < n ==> x[i]
                == le::le32(m.file, at + 4 * i))
            &&& integers(m, name, n) matches Ok(x) ==> x.len() == n && (0 <= i < n ==> x[i]
                == le::le32(m.file, at + 4 * i) || x[i] == le::le32(m.file, at + 4 * i)
                - 0x1_0000_0000)
        }),
{
    let info = m.content.tensors[name];
    let at = m.content.data_offset + info.offset;
    if m.content.tensors.contains_key(name) {
        let count = gguf::elem_count(info.dims);
        let p = gguf::elem_count(info.dims.drop_last())->Some_0;
        assert(info.dims.last() == info.dims[0]);
        assert(p * info.dims.last() == info.dims.last()) by (nonlinear_arith)
            requires
                p == 1,
        ;
        if count is Some {
            gguf::few_dimensions_multiply(info.dims);
            gguf::elements_take_whole_blocks(info.dims[0] as nat, info.dtype, info.dims[0] as nat);
        }
        if gguf::bytes_of(m.content, m.file, name) is Ok {
            let b = gguf::bytes_of(m.content, m.file, name)->Ok_0;
            if 0 <= i && 4 * i + 4 <= b.len() {
                a_word_takes_four_bytes(b, i);
                le::bytes32_of_le32(b, 4 * i);
                assert(le::le32(b, 4 * i) == le::le32(m.file, at + 4 * i));
            }
        }
    }
}

/// However many numbers there are, they are had where their bytes are a multiple of
/// four, as the words that a count would give.
pub proof fn counting_the_numbers_gives_them_all(m: WeightMapView, name: Seq<char>, n: usize)
    requires
        m.content.data_offset >= 0,
        m.file.len() <= usize::MAX,
    ensures
        floats(m, name, n) is Ok ==> all_floats(m, name) == floats(m, name, n),
        all_floats(m, name) matches Ok(x) ==> x.len() == n ==> floats(m, name, n) == all_floats(
            m,
            name,
        ),
{
}

/// A matrix that is had however it is stored is had as what it is stored as, and
/// types without a product are refused.
pub proof fn any_matrix_is_the_matrix_of_its_type(m: WeightMapView, name: Seq<char>)
    requires
        m.content.tensors.contains_key(name),
    ensures
        ({
            let dtype = m.content.tensors[name].dtype;
            &&& dtype == GgmlType::Q8_0 || dtype == GgmlType::F16 || dtype == GgmlType::Q2_K
                || dtype == GgmlType::IQ2_XXS ==> any_matrix(m, name) == matrix(m, name, dtype)
            &&& dtype != GgmlType::Q8_0 && dtype != GgmlType::F16 && dtype != GgmlType::Q2_K
                && dtype != GgmlType::IQ2_XXS ==> any_matrix(m, name) is Err
        }),
{
}

/// A tensor of another type is refused with both types, one of another size with both
/// sizes, and one whose data start elsewhere as unaligned.
pub proof fn other_tensors_are_refused(
    m: WeightMapView,
    name: Seq<char>,
    want: GgmlType,
    n: usize,
)
    requires
        m.content.tensors.contains_key(name),
        m.content.data_offset >= 0,
        4 * n <= usize::MAX,
    ensures
        ({
            let info = m.content.tensors[name];
            let got = gguf::bytes_of(m.content, m.file, name);
            &&& info.dtype != want ==> typed_bytes(m, name, want) == Err::<
                Seq<u8>,
                WeightErrorKind,
            >(WeightErrorKind::Dtype { expected: want, got: info.dtype })
            &&& info.dtype == want ==> (got matches Err(e) ==> typed_bytes(m, name, want) == Err::<
                Seq<u8>,
                WeightErrorKind,
            >(WeightErrorKind::Data(e)))
            &&& info.dtype == want ==> (got matches Ok(b) ==> b.len() != 4 * n ==> number_bytes(
                m,
                name,
                want,
                n,
            ) == Err::<Seq<u8>, WeightErrorKind>(
                WeightErrorKind::Size {
                    dtype: want,
                    elems: n,
                    bytes: (4 * n) as usize,
                    got: b.len() as usize,
                },
            ))
            &&& info.dtype == want ==> (got matches Ok(b) ==> b.len() == 4 * n && (m.base
                + m.content.data_offset + info.offset) % 4 != 0 ==> number_bytes(m, name, want, n)
                == Err::<Seq<u8>, WeightErrorKind>(WeightErrorKind::Unaligned(want)))
        }),
{
}

/// The numbers of a message stand in this order: first what was expected.
pub proof fn messages_name_what_was_expected(
    name: Seq<char>,
    t: GgmlType,
    u: GgmlType,
    a: usize,
    b: usize,
    c: usize,
    d: usize,
)
    ensures
        (WeightErrorKind::Dtype { expected: t, got: u }).text(name) == name
            + ": expected GGML type "@ + t.name_text() + ", got "@ + u.name_text(),
        (WeightErrorKind::Size { dtype: t, elems: a, bytes: b, got: c }).text(name) == name
            + ": expected "@ + text::decimal(a as nat) + " "@ + t.name_text() + " elems ("@
            + text::decimal(b as nat) + " B), got "@ + text::decimal(c as nat) + " B"@,
        (WeightErrorKind::Shape { cols: a, rows: b, got_cols: c, got_rows: d }).text(name) == name
            + ": expected ["@ + text::decimal(a as nat) + ", "@ + text::decimal(b as nat)
            + "], got ["@ + text::decimal(c as nat) + ", "@ + text::decimal(d as nat) + "]"@,
{
}

} // verus!
