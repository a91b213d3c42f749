//! The GGUF model file format.
//!
//! A file starts with a magic number, a version and two counts; then come
//! metadata pairs and tensor descriptions, and from the next multiple of the
//! alignment on the tensor data.

use vstd::hash_map::StringHashMap;
use vstd::prelude::*;

use crate::bits::Bits32;
use crate::float;
use crate::float::f64_to_f32;
use crate::le;
use crate::le::{get_u16, get_u32, get_u64};
use crate::quant;
use crate::quant::as_signed;
use crate::quant::q8_k;
use crate::quant::q8_k::get_i16;
use crate::text;
use crate::text::{lit, with_hex, with_name, with_name_num, with_num};
use crate::utf8;
use crate::utf8::from_utf8_lossy;

verus! {

/// "GGUF", read as a little-endian number.
pub const GGUF_MAGIC: u32 = 0x4655_4747;

/// The alignment of tensor data in a file that gives none.
pub const DEFAULT_ALIGNMENT: u64 = 32;

/// Most bytes in a string.
pub const MAX_GGUF_STRING_LEN: u64 = 1_048_576;

/// Most entries in an array.
pub const MAX_GGUF_ARRAY_LEN: u64 = 1_048_576;

/// Most tensors in a file.
pub const MAX_GGUF_TENSOR_COUNT: u64 = 1_048_576;

/// Most metadata pairs in a file.
pub const MAX_GGUF_METADATA_KV_COUNT: u64 = 1_048_576;

/// Deepest nesting of arrays.
pub const MAX_ARRAY_DEPTH: usize = 16;

// ---------------------------------------------------------------------------
// Values
// ---------------------------------------------------------------------------

/// A metadata value. Floating-point numbers are held by their bit patterns.
#[derive(Debug)]
pub enum Value {
    U8(u8),
    I8(i8),
    U16(u16),
    I16(i16),
    U32(u32),
    I32(i32),
    U64(u64),
    I64(i64),
    F32(Bits32),
    F64(u64),
    Bool(bool),
    String(String),
    Array(Vec<Value>),
}

/// What a metadata value is.
pub enum ValueView {
    U8(u8),
    I8(i8),
    U16(u16),
    I16(i16),
    U32(u32),
    I32(i32),
    U64(u64),
    I64(i64),
    F32(Bits32),
    F64(u64),
    Bool(bool),
    Text(Seq<char>),
    Array(Seq<ValueView>),
}

impl ValueView {
    /// The value as a 32-bit number, where it is an unsigned number that fits.
    pub open spec fn as_u32(self) -> Option<u32> {
        match self {
            ValueView::U32(v) => Some(v),
            ValueView::U64(v) => if v <= u32::MAX {
                Some(v as u32)
            } else {
                None
            },
            _ => None,
        }
    }

    /// The value as a 64-bit number, where it is an unsigned number of 32 or
    /// 64 bits.
    pub open spec fn as_u64(self) -> Option<u64> {
        match self {
            ValueView::U64(v) => Some(v),
            ValueView::U32(v) => Some(v as u64),
            _ => None,
        }
    }

    /// The value as a single-precision number, where it is a number with a
    /// fraction.
    pub open spec fn as_f32(self) -> Option<Bits32> {
        match self {
            ValueView::F32(v) => Some(v),
            ValueView::F64(v) => Some(float::narrowed(v) as u32),
            _ => None,
        }
    }
}

/// A number with a fraction, by its bit pattern.
#[derive(Clone, Copy, Debug, PartialEq, Eq, Structural)]
pub enum Fraction {
    Single(Bits32),
    Double(u64),
}

impl ValueView {
    /// The numbers with a fraction in a value, in their order.
    pub open spec fn fractions(self) -> Seq<Fraction>
        decreases self, 0nat,
    {
        match self {
            ValueView::F32(v) => seq![Fraction::Single(v)],
            ValueView::F64(v) => seq![Fraction::Double(v)],
            ValueView::Array(a) => fractions_of(a, a.len()),
            _ => Seq::empty(),
        }
    }

    /// How a value is written: its type, and the value in brackets. Its numbers
    /// with a fraction are written as `spelled` says from `k` on.
    pub open spec fn form(self, spelled: Seq<Seq<char>>, k: int) -> Seq<char>
        decreases self, 0nat,
    {
        match self {
            ValueView::U8(v) => "U8("@ + text::signed_decimal(v as int) + ")"@,
            ValueView::I8(v) => "I8("@ + text::signed_decimal(v as int) + ")"@,
            ValueView::U16(v) => "U16("@ + text::signed_decimal(v as int) + ")"@,
            ValueView::I16(v) => "I16("@ + text::signed_decimal(v as int) + ")"@,
            ValueView::U32(v) => "U32("@ + text::signed_decimal(v as int) + ")"@,
            ValueView::I32(v) => "I32("@ + text::signed_decimal(v as int) + ")"@,
            ValueView::U64(v) => "U64("@ + text::signed_decimal(v as int) + ")"@,
            ValueView::I64(v) => "I64("@ + text::signed_decimal(v as int) + ")"@,
            ValueView::F32(_) => "F32("@ + spelled[k] + ")"@,
            ValueView::F64(_) => "F64("@ + spelled[k] + ")"@,
            ValueView::Bool(v) => if v {
                "Bool(true)"@
            } else {
                "Bool(false)"@
            },
            ValueView::Text(s) => "String("@ + text::quoted_form(s) + ")"@,
            ValueView::Array(a) => "Array(["@ + forms(a, a.len(), spelled, k) + "])"@,
        }
    }
}

/// The numbers with a fraction in the first `n` of some values.
pub open spec fn fractions_of(a: Seq<ValueView>, n: nat) -> Seq<Fraction>
    decreases a, n,
{
    if n == 0 || n > a.len() {
        Seq::empty()
    } else {
        fractions_of(a, (n - 1) as nat) + a[n - 1].fractions()
    }
}

/// How the first `n` of some values are written, with commas between them.
pub open spec fn forms(a: Seq<ValueView>, n: nat, spelled: Seq<Seq<char>>, k: int) -> Seq<char>
    decreases a, n,
{
    if n == 0 || n > a.len() {
        Seq::empty()
    } else {
        let before = forms(a, (n - 1) as nat, spelled, k);
        let last = a[n - 1].form(spelled, k + fractions_of(a, (n - 1) as nat).len());
        if n == 1 {
            last
        } else {
            before + ", "@ + last
        }
    }
}

proof fn fractions_grow(a: Seq<ValueView>, n: nat, m: nat)
    requires
        n <= m <= a.len(),
    ensures
        fractions_of(a, n).len() <= fractions_of(a, m).len(),
    decreases m,
{
    if n < m {
        fractions_grow(a, n, (m - 1) as nat);
    }
}

impl Value {
    pub open spec fn view(&self) -> ValueView
        decreases self,
    {
        match self {
            Value::U8(v) => ValueView::U8(*v),
            Value::I8(v) => ValueView::I8(*v),
            Value::U16(v) => ValueView::U16(*v),
            Value::I16(v) => ValueView::I16(*v),
            Value::U32(v) => ValueView::U32(*v),
            Value::I32(v) => ValueView::I32(*v),
            Value::U64(v) => ValueView::U64(*v),
            Value::I64(v) => ValueView::I64(*v),
            Value::F32(v) => ValueView::F32(*v),
            Value::F64(v) => ValueView::F64(*v),
            Value::Bool(v) => ValueView::Bool(*v),
            Value::String(s) => ValueView::Text(s@),
            Value::Array(a) => ValueView::Array(
                Seq::new(
                    a@.len(),
                    |i: int|
                        if 0 <= i < a@.len() {
                            a@[i].view()
                        } else {
                            arbitrary()
                        },
                ),
            ),
        }
    }

    /// A 32-bit number; also a 64-bit one that fits.
    pub fn to_u32(&self) -> (r: Option<u32>)
        ensures
            r == self@.as_u32(),
    {
        match self {
            Value::U32(v) => Some(*v),
            Value::U64(v) => if *v <= 0xFFFF_FFFF {
                Some(*v as u32)
            } else {
                None
            },
            _ => None,
        }
    }

    /// A 64-bit number; also a 32-bit one.
    pub fn to_u64(&self) -> (r: Option<u64>)
        ensures
            r == self@.as_u64(),
    {
        match self {
            Value::U64(v) => Some(*v),
            Value::U32(v) => Some(*v as u64),
            _ => None,
        }
    }

    /// A single-precision number; also a double-precision one, rounded.
    pub fn to_f32(&self) -> (r: Option<Bits32>)
        ensures
            r == self@.as_f32(),
    {
        match self {
            Value::F32(v) => Some(*v),
            Value::F64(v) => Some(f64_to_f32(*v)),
            _ => None,
        }
    }

    /// The text of a string.
    pub fn to_string_val(&self) -> (r: Option<&str>)
        ensures
            match r {
                Some(s) => self@ == ValueView::Text(s@),
                None => !(self@ is Text),
            },
    {
        match self {
            Value::String(s) => Some(s.as_str()),
            _ => None,
        }
    }

    /// A truth value.
    pub fn to_bool(&self) -> (r: Option<bool>)
        ensures
            match r {
                Some(b) => self@ == ValueView::Bool(b),
                None => !(self@ is Bool),
            },
    {
        match self {
            Value::Bool(v) => Some(*v),
            _ => None,
        }
    }

    /// The entries of an array.
    pub fn to_array(&self) -> (r: Option<&[Value]>)
        ensures
            match r {
                Some(a) => self@ is Array && self@->Array_0.len() == a@.len() && forall|i: int|
                    0 <= i < a@.len() ==> (#[trigger] a@[i])@ == self@->Array_0[i],
                None => !(self@ is Array),
            },
    {
        match self {
            Value::Array(a) => {
                assert(self@->Array_0.len() == a@.len());
                assert forall|i: int| 0 <= i < a@.len() implies (#[trigger] a@[i])@
                    == self@->Array_0[i] by {}
                Some(a.as_slice())
            },
            _ => None,
        }
    }

    /// The same value once more.
    pub fn duplicate(&self) -> (r: Value)
        ensures
            r@ == self@,
        decreases self,
    {
        match self {
            Value::U8(v) => Value::U8(*v),
            Value::I8(v) => Value::I8(*v),
            Value::U16(v) => Value::U16(*v),
            Value::I16(v) => Value::I16(*v),
            Value::U32(v) => Value::U32(*v),
            Value::I32(v) => Value::I32(*v),
            Value::U64(v) => Value::U64(*v),
            Value::I64(v) => Value::I64(*v),
            Value::F32(v) => Value::F32(*v),
            Value::F64(v) => Value::F64(*v),
            Value::Bool(v) => Value::Bool(*v),
            Value::String(s) => Value::String(text::lit(s.as_str())),
            Value::Array(a) => {
                let mut out: Vec<Value> = Vec::new();
                let mut i: usize = 0;
                while i < a.len()
                    invariant
                        i <= a.len(),
                        *self == Value::Array(*a),
                        out@.len() == i,
                        forall|j: int| 0 <= j < i ==> (#[trigger] out@[j])@ == a@[j]@,
                    decreases a.len() - i,
                {
                    assert(decreases_to!(*self => self->Array_0@[i as int]));
                    out.push(a[i].duplicate());
                    i += 1;
                }
                let r = Value::Array(out);
                assert(r@->Array_0 =~= self@->Array_0);
                r
            },
        }
    }

    /// Appends the numbers with a fraction in a value.
    pub fn push_fractions(&self, out: &mut Vec<Fraction>)
        ensures
            final(out)@ == old(out)@ + self@.fractions(),
        decreases self,
    {
        let ghost before = out@;
        match self {
            Value::F32(v) => out.push(Fraction::Single(*v)),
            Value::F64(v) => out.push(Fraction::Double(*v)),
            Value::Array(a) => {
                let ghost views = self@->Array_0;
                let mut i: usize = 0;
                assert(out@ =~= before + fractions_of(views, 0));
                while i < a.len()
                    invariant
                        i <= a.len(),
                        *self == Value::Array(*a),
                        views == self@->Array_0,
                        views.len() == a.len(),
                        out@ == before + fractions_of(views, i as nat),
                    decreases a.len() - i,
                {
                    assert(views[i as int] == a@[i as int]@);
                    a[i].push_fractions(out);
                    i += 1;
                    assert(out@ =~= before + fractions_of(views, i as nat));
                }
            },
            _ => {},
        }
        assert(out@ =~= before + self@.fractions());
    }

    /// Appends how a value is written. Its numbers with a fraction are written
    /// as `spelled` says from `k` on; the result is the place behind them.
    pub fn push_form(&self, s: &mut String, spelled: &[String], k: usize) -> (end: usize)
        requires
            k + self@.fractions().len() <= spelled@.len(),
        ensures
            final(s)@ == old(s)@ + self@.form(text::words(spelled@), k as int),
            end == k + self@.fractions().len(),
        decreases self,
    {
        let ghost before = s@;
        let ghost words = text::words(spelled@);
        let end: usize = match self {
            Value::U8(v) => push_tagged(s, "U8(", *v as i64, k),
            Value::I8(v) => push_tagged(s, "I8(", *v as i64, k),
            Value::U16(v) => push_tagged(s, "U16(", *v as i64, k),
            Value::I16(v) => push_tagged(s, "I16(", *v as i64, k),
            Value::U32(v) => push_tagged(s, "U32(", *v as i64, k),
            Value::I32(v) => push_tagged(s, "I32(", *v as i64, k),
            Value::I64(v) => push_tagged(s, "I64(", *v, k),
            Value::U64(v) => {
                s.append("U64(");
                text::push_decimal(s, *v);
                s.append(")");
                k
            },
            Value::F32(_) => {
                s.append("F32(");
                s.append(spelled[k].as_str());
                s.append(")");
                k + 1
            },
            Value::F64(_) => {
                s.append("F64(");
                s.append(spelled[k].as_str());
                s.append(")");
                k + 1
            },
            Value::Bool(v) => {
                s.append(
                    if *v {
                        "Bool(true)"
                    } else {
                        "Bool(false)"
                    },
                );
                k
            },
            Value::String(t) => {
                s.append("String(");
                s.append(text::quoted(t.as_str()).as_str());
                s.append(")");
                k
            },
            Value::Array(a) => {
                s.append("Array([");
                let ghost views = self@->Array_0;
                let mut i: usize = 0;
                let mut at: usize = k;
                assert(s@ =~= before + "Array(["@ + forms(views, 0, words, k as int));
                while i < a.len()
                    invariant
                        i <= a.len(),
                        *self == Value::Array(*a),
                        views == self@->Array_0,
                        views.len() == a.len(),
                        words == text::words(spelled@),
                        k + fractions_of(views, views.len()).len() <= spelled@.len(),
                        at == k + fractions_of(views, i as nat).len(),
                        s@ == before + "Array(["@ + forms(views, i as nat, words, k as int),
                    decreases a.len() - i,
                {
                    assert(views[i as int] == a@[i as int]@);
                    proof {
                        fractions_grow(views, (i + 1) as nat, views.len());
                    }
                    if i > 0 {
                        s.append(", ");
                    }
                    at = a[i].push_form(s, spelled, at);
                    i += 1;
                    assert(s@ =~= before + "Array(["@ + forms(views, i as nat, words, k as int));
                }
                s.append("])");
                at
            },
        };
        assert(s@ =~= before + self@.form(words, k as int));
        end
    }
}

fn push_tagged(s: &mut String, tag: &str, n: i64, k: usize) -> (end: usize)
    ensures
        final(s)@ == old(s)@ + (tag@ + text::signed_decimal(n as int) + ")"@),
        end == k,
{
    let ghost before = s@;
    s.append(tag);
    text::push_signed(s, n);
    s.append(")");
    assert(s@ =~= before + (tag@ + text::signed_decimal(n as int) + ")"@));
    k
}

// ---------------------------------------------------------------------------
// Tensor types
// ---------------------------------------------------------------------------

/// How the elements of a tensor are stored.
#[derive(Clone, Copy, Debug, PartialEq, Eq, Structural)]
#[allow(non_camel_case_types)]
pub enum GgmlType {
    F32,
    F16,
    Q4_0,
    Q4_1,
    Q5_0,
    Q5_1,
    Q8_0,
    Q8_1,
    Q2_K,
    Q3_K,
    Q4_K,
    Q5_K,
    Q6_K,
    Q8_K,
    IQ2_XXS,
    IQ2_XS,
    IQ3_XXS,
    IQ1_S,
    IQ4_NL,
    IQ3_S,
    IQ2_S,
    IQ4_XS,
    I8,
    I16,
    I32,
}

impl GgmlType {
    /// The number of the type in a file.
    pub open spec fn number(self) -> u32 {
        match self {
            GgmlType::F32 => 0,
            GgmlType::F16 => 1,
            GgmlType::Q4_0 => 2,
            GgmlType::Q4_1 => 3,
            GgmlType::Q5_0 => 6,
            GgmlType::Q5_1 => 7,
            GgmlType::Q8_0 => 8,
            GgmlType::Q8_1 => 9,
            GgmlType::Q2_K => 10,
            GgmlType::Q3_K => 11,
            GgmlType::Q4_K => 12,
            GgmlType::Q5_K => 13,
            GgmlType::Q6_K => 14,
            GgmlType::Q8_K => 15,
            GgmlType::IQ2_XXS => 16,
            GgmlType::IQ2_XS => 17,
            GgmlType::IQ3_XXS => 18,
            GgmlType::IQ1_S => 19,
            GgmlType::IQ4_NL => 20,
            GgmlType::IQ3_S => 21,
            GgmlType::IQ2_S => 22,
            GgmlType::IQ4_XS => 23,
            GgmlType::I8 => 24,
            GgmlType::I16 => 25,
            GgmlType::I32 => 26,
        }
    }

    /// The number of the type in a file.
    pub fn to_u32(&self) -> (v: u32)
        ensures
            v == self.number(),
    {
        match self {
            GgmlType::F32 => 0,
            GgmlType::F16 => 1,
            GgmlType::Q4_0 => 2,
            GgmlType::Q4_1 => 3,
            GgmlType::Q5_0 => 6,
            GgmlType::Q5_1 => 7,
            GgmlType::Q8_0 => 8,
            GgmlType::Q8_1 => 9,
            GgmlType::Q2_K => 10,
            GgmlType::Q3_K => 11,
            GgmlType::Q4_K => 12,
            GgmlType::Q5_K => 13,
            GgmlType::Q6_K => 14,
            GgmlType::Q8_K => 15,
            GgmlType::IQ2_XXS => 16,
            GgmlType::IQ2_XS => 17,
            GgmlType::IQ3_XXS => 18,
            GgmlType::IQ1_S => 19,
            GgmlType::IQ4_NL => 20,
            GgmlType::IQ3_S => 21,
            GgmlType::IQ2_S => 22,
            GgmlType::IQ4_XS => 23,
            GgmlType::I8 => 24,
            GgmlType::I16 => 25,
            GgmlType::I32 => 26,
        }
    }

    /// The type with a number, if there is one.
    pub open spec fn of_number(v: u32) -> Option<GgmlType> {
        if exists|t: GgmlType| #[trigger] t.number() == v {
            Some(choose|t: GgmlType| #[trigger] t.number() == v)
        } else {
            None
        }
    }

    /// The type with number `v`; some numbers stand for none.
    pub fn from_u32(v: u32) -> (r: Option<Self>)
        ensures
            match r {
                Some(t) => t.number() == v,
                None => forall|t: GgmlType| #[trigger] t.number() != v,
            },
            r == Self::of_number(v),
    {
        let r = match v {
            0 => Some(GgmlType::F32),
            1 => Some(GgmlType::F16),
            2 => Some(GgmlType::Q4_0),
            3 => Some(GgmlType::Q4_1),
            6 => Some(GgmlType::Q5_0),
            7 => Some(GgmlType::Q5_1),
            8 => Some(GgmlType::Q8_0),
            9 => Some(GgmlType::Q8_1),
            10 => Some(GgmlType::Q2_K),
            11 => Some(GgmlType::Q3_K),
            12 => Some(GgmlType::Q4_K),
            13 => Some(GgmlType::Q5_K),
            14 => Some(GgmlType::Q6_K),
            15 => Some(GgmlType::Q8_K),
            16 => Some(GgmlType::IQ2_XXS),
            17 => Some(GgmlType::IQ2_XS),
            18 => Some(GgmlType::IQ3_XXS),
            19 => Some(GgmlType::IQ1_S),
            20 => Some(GgmlType::IQ4_NL),
            21 => Some(GgmlType::IQ3_S),
            22 => Some(GgmlType::IQ2_S),
            23 => Some(GgmlType::IQ4_XS),
            24 => Some(GgmlType::I8),
            25 => Some(GgmlType::I16),
            26 => Some(GgmlType::I32),
            _ => None,
        };
        proof {
            match r {
                Some(t) => {
                    assert(t.number() == v);
                    let u = choose|u: GgmlType| #[trigger] u.number() == v;
                    number_is_unique(t, u);
                },
                None => {},
            }
        }
        r
    }

    /// The name of the type.
    pub open spec fn name_text(self) -> Seq<char> {
        match self {
            GgmlType::F32 => "F32"@,
            GgmlType::F16 => "F16"@,
            GgmlType::Q4_0 => "Q4_0"@,
            GgmlType::Q4_1 => "Q4_1"@,
            GgmlType::Q5_0 => "Q5_0"@,
            GgmlType::Q5_1 => "Q5_1"@,
            GgmlType::Q8_0 => "Q8_0"@,
            GgmlType::Q8_1 => "Q8_1"@,
            GgmlType::Q2_K => "Q2_K"@,
            GgmlType::Q3_K => "Q3_K"@,
            GgmlType::Q4_K => "Q4_K"@,
            GgmlType::Q5_K => "Q5_K"@,
            GgmlType::Q6_K => "Q6_K"@,
            GgmlType::Q8_K => "Q8_K"@,
            GgmlType::IQ2_XXS => "IQ2_XXS"@,
            GgmlType::IQ2_XS => "IQ2_XS"@,
            GgmlType::IQ3_XXS => "IQ3_XXS"@,
            GgmlType::IQ1_S => "IQ1_S"@,
            GgmlType::IQ4_NL => "IQ4_NL"@,
            GgmlType::IQ3_S => "IQ3_S"@,
            GgmlType::IQ2_S => "IQ2_S"@,
            GgmlType::IQ4_XS => "IQ4_XS"@,
            GgmlType::I8 => "I8"@,
            GgmlType::I16 => "I16"@,
            GgmlType::I32 => "I32"@,
        }
    }

    /// The name of the type.
    pub fn name(&self) -> (s: &'static str)
        ensures
            s@ == self.name_text(),
    {
        match self {
            GgmlType::F32 => "F32",
            GgmlType::F16 => "F16",
            GgmlType::Q4_0 => "Q4_0",
            GgmlType::Q4_1 => "Q4_1",
            GgmlType::Q5_0 => "Q5_0",
            GgmlType::Q5_1 => "Q5_1",
            GgmlType::Q8_0 => "Q8_0",
            GgmlType::Q8_1 => "Q8_1",
            GgmlType::Q2_K => "Q2_K",
            GgmlType::Q3_K => "Q3_K",
            GgmlType::Q4_K => "Q4_K",
            GgmlType::Q5_K => "Q5_K",
            GgmlType::Q6_K => "Q6_K",
            GgmlType::Q8_K => "Q8_K",
            GgmlType::IQ2_XXS => "IQ2_XXS",
            GgmlType::IQ2_XS => "IQ2_XS",
            GgmlType::IQ3_XXS => "IQ3_XXS",
            GgmlType::IQ1_S => "IQ1_S",
            GgmlType::IQ4_NL => "IQ4_NL",
            GgmlType::IQ3_S => "IQ3_S",
            GgmlType::IQ2_S => "IQ2_S",
            GgmlType::IQ4_XS => "IQ4_XS",
            GgmlType::I8 => "I8",
            GgmlType::I16 => "I16",
            GgmlType::I32 => "I32",
        }
    }
}

/// No two types have the same number.
pub proof fn number_is_unique(a: GgmlType, b: GgmlType)
    requires
        a.number() == b.number(),
    ensures
        a == b,
{
}

/// The elements in one block of a type.
pub open spec fn blck_size(t: GgmlType) -> nat {
    match t {
        GgmlType::F32 | GgmlType::F16 | GgmlType::I8 | GgmlType::I16 | GgmlType::I32 => 1,
        GgmlType::Q4_0
        | GgmlType::Q4_1
        | GgmlType::Q5_0
        | GgmlType::Q5_1
        | GgmlType::Q8_0
        | GgmlType::Q8_1
        | GgmlType::IQ4_NL => 32,
        _ => 256,
    }
}

/// The bytes of one block of a type.
pub open spec fn type_size(t: GgmlType) -> nat {
    match t {
        GgmlType::F32 => 4,
        GgmlType::F16 => 2,
        GgmlType::Q4_0 => 18,
        GgmlType::Q4_1 => 20,
        GgmlType::Q5_0 => 22,
        GgmlType::Q5_1 => 24,
        GgmlType::Q8_0 => 34,
        GgmlType::Q8_1 => 36,
        GgmlType::Q2_K => 84,
        GgmlType::Q3_K => 110,
        GgmlType::Q4_K => 144,
        GgmlType::Q5_K => 176,
        GgmlType::Q6_K => 210,
        GgmlType::Q8_K => 292,
        GgmlType::IQ2_XXS => 66,
        GgmlType::IQ2_XS => 74,
        GgmlType::IQ3_XXS => 98,
        GgmlType::IQ1_S => 34,
        GgmlType::IQ4_NL => 18,
        GgmlType::IQ3_S => 110,
        GgmlType::IQ2_S => 82,
        GgmlType::IQ4_XS => 136,
        GgmlType::I8 => 1,
        GgmlType::I16 => 2,
        GgmlType::I32 => 4,
    }
}

/// The bytes of `n` elements of a type: whole blocks, the last one possibly
/// not full.
pub open spec fn nbytes(n: nat, t: GgmlType) -> nat {
    (n + blck_size(t) - 1) as nat / blck_size(t) * type_size(t)
}

/// The elements in one block of a type.
pub fn ggml_blck_size(dtype: GgmlType) -> (n: usize)
    ensures
        n == blck_size(dtype),
{
    match dtype {
        GgmlType::F32 | GgmlType::F16 | GgmlType::I8 | GgmlType::I16 | GgmlType::I32 => 1,
        GgmlType::Q4_0 | GgmlType::Q4_1 | GgmlType::Q5_0 | GgmlType::Q5_1 => 32,
        GgmlType::Q8_0 | GgmlType::Q8_1 | GgmlType::IQ4_NL => 32,
        _ => 256,
    }
}

/// The bytes of one block of a type.
pub fn ggml_type_size(dtype: GgmlType) -> (n: usize)
    ensures
        n == type_size(dtype),
{
    match dtype {
        GgmlType::F32 => 4,
        GgmlType::F16 => 2,
        GgmlType::Q4_0 => 18,
        GgmlType::Q4_1 => 20,
        GgmlType::Q5_0 => 22,
        GgmlType::Q5_1 => 24,
        GgmlType::Q8_0 => 34,
        GgmlType::Q8_1 => 36,
        GgmlType::Q2_K => 84,
        GgmlType::Q3_K => 110,
        GgmlType::Q4_K => 144,
        GgmlType::Q5_K => 176,
        GgmlType::Q6_K => 210,
        GgmlType::Q8_K => 292,
        GgmlType::IQ2_XXS => 66,
        GgmlType::IQ2_XS => 74,
        GgmlType::IQ3_XXS => 98,
        GgmlType::IQ1_S => 34,
        GgmlType::IQ4_NL => 18,
        GgmlType::IQ3_S => 110,
        GgmlType::IQ2_S => 82,
        GgmlType::IQ4_XS => 136,
        GgmlType::I8 => 1,
        GgmlType::I16 => 2,
        GgmlType::I32 => 4,
    }
}

/// The bytes of `elem_count` elements of a type, if they can be counted.
pub fn ggml_tensor_nbytes(elem_count: usize, dtype: GgmlType) -> (r: Option<usize>)
    ensures
        match r {
            Some(n) => n == nbytes(elem_count as nat, dtype),
            None => nbytes(elem_count as nat, dtype) > usize::MAX,
        },
{
    let blck: usize = ggml_blck_size(dtype);
    let n_blocks: usize = if elem_count == 0 {
        0
    } else {
        (elem_count - 1) / blck + 1
    };
    assert(n_blocks == (elem_count + blck - 1) as nat / blck as nat);
    n_blocks.checked_mul(ggml_type_size(dtype))
}

// ---------------------------------------------------------------------------
// Errors
// ---------------------------------------------------------------------------

/// Why a file could not be read.
#[derive(Debug)]
pub enum GgufError {
    /// The file ends in the middle of a number.
    Truncated,
    /// The file does not start with the magic number.
    Magic(u32),
    /// The version is not supported.
    Version(u32),
    /// The file claims too many tensors.
    TensorCount(u64),
    /// The file claims too many metadata pairs.
    MetadataCount(u64),
    /// A string is too long.
    StringLen(u64),
    /// A string reaches beyond the end of the file.
    StringPastEnd,
    /// An array has too many entries.
    ArrayLen(u64),
    /// Arrays are nested too deeply.
    ArrayDepth,
    /// A metadata value has an unknown type.
    ValueType(u32),
    /// The alignment is zero.
    Alignment,
    /// A tensor has too many dimensions.
    Dims { name: String, n: u32 },
    /// A tensor has an unknown type.
    TensorType(u32),
}

/// What a [`GgufError`] says.
pub enum GgufErrorView {
    Truncated,
    Magic(u32),
    Version(u32),
    TensorCount(u64),
    MetadataCount(u64),
    StringLen(u64),
    StringPastEnd,
    ArrayLen(u64),
    ArrayDepth,
    ValueType(u32),
    Alignment,
    Dims { name: Seq<char>, n: u32 },
    TensorType(u32),
}

impl GgufErrorView {
    /// The words of the message.
    pub open spec fn text(self) -> Seq<char> {
        match self {
            GgufErrorView::Truncated => "failed to fill whole buffer"@,
            GgufErrorView::Magic(m) => "Invalid GGUF magic: 0x"@ + text::hex(m as nat, 8),
            GgufErrorView::Version(v) => "Unsupported GGUF version: "@ + text::decimal(v as nat)
                + ""@,
            GgufErrorView::TensorCount(n) => "Tensor count too large: "@ + text::decimal(n as nat)
                + ""@,
            GgufErrorView::MetadataCount(n) => "Metadata KV count too large: "@ + text::decimal(
                n as nat,
            ) + ""@,
            GgufErrorView::StringLen(n) => "String too long: "@ + text::decimal(n as nat)
                + " bytes"@,
            GgufErrorView::StringPastEnd => "String extends past end of file"@,
            GgufErrorView::ArrayLen(n) => "Array too long: "@ + text::decimal(n as nat)
                + " elements"@,
            GgufErrorView::ArrayDepth => "Array nesting too deep (>16)"@,
            GgufErrorView::ValueType(t) => "Unknown GGUF value type: "@ + text::decimal(t as nat)
                + ""@,
            GgufErrorView::Alignment => "Invalid alignment: 0"@,
            GgufErrorView::Dims { name, n } => "Tensor '"@ + name + "' has "@ + text::decimal(
                n as nat,
            ) + " dims, expected <=8"@,
            GgufErrorView::TensorType(t) => "Unknown GGML type: "@ + text::decimal(t as nat) + ""@,
        }
    }
}

impl GgufError {
    pub open spec fn view(&self) -> GgufErrorView {
        match self {
            GgufError::Truncated => GgufErrorView::Truncated,
            GgufError::Magic(m) => GgufErrorView::Magic(*m),
            GgufError::Version(v) => GgufErrorView::Version(*v),
            GgufError::TensorCount(n) => GgufErrorView::TensorCount(*n),
            GgufError::MetadataCount(n) => GgufErrorView::MetadataCount(*n),
            GgufError::StringLen(n) => GgufErrorView::StringLen(*n),
            GgufError::StringPastEnd => GgufErrorView::StringPastEnd,
            GgufError::ArrayLen(n) => GgufErrorView::ArrayLen(*n),
            GgufError::ArrayDepth => GgufErrorView::ArrayDepth,
            GgufError::ValueType(t) => GgufErrorView::ValueType(*t),
            GgufError::Alignment => GgufErrorView::Alignment,
            GgufError::Dims { name, n } => GgufErrorView::Dims { name: name@, n: *n },
            GgufError::TensorType(t) => GgufErrorView::TensorType(*t),
        }
    }

    /// A message for people.
    pub fn message(&self) -> (s: String)
        ensures
            s@ == self@.text(),
    {
        match self {
            GgufError::Truncated => lit("failed to fill whole buffer"),
            GgufError::Magic(m) => with_hex("Invalid GGUF magic: 0x", *m),
            GgufError::Version(v) => with_num("Unsupported GGUF version: ", *v as u64, ""),
            GgufError::TensorCount(n) => with_num("Tensor count too large: ", *n, ""),
            GgufError::MetadataCount(n) => with_num("Metadata KV count too large: ", *n, ""),
            GgufError::StringLen(n) => with_num("String too long: ", *n, " bytes"),
            GgufError::StringPastEnd => lit("String extends past end of file"),
            GgufError::ArrayLen(n) => with_num("Array too long: ", *n, " elements"),
            GgufError::ArrayDepth => lit("Array nesting too deep (>16)"),
            GgufError::ValueType(t) => with_num("Unknown GGUF value type: ", *t as u64, ""),
            GgufError::Alignment => lit("Invalid alignment: 0"),
            GgufError::Dims { name, n } => with_name_num(
                "Tensor '",
                name.as_str(),
                "' has ",
                *n as u64,
                " dims, expected <=8",
            ),
            GgufError::TensorType(t) => with_num("Unknown GGML type: ", *t as u64, ""),
        }
    }
}

// ---------------------------------------------------------------------------
// What the bytes say
// ---------------------------------------------------------------------------

/// Something read, and the position after it; or why it could not be read.
pub type Parsed<T> = Result<(T, int), GgufErrorView>;

/// The 32-bit number at `pos`.
pub open spec fn u32_at(s: Seq<u8>, pos: int) -> Parsed<u32> {
    if pos + 4 <= s.len() {
        Ok((le::le32(s, pos) as u32, pos + 4))
    } else {
        Err(GgufErrorView::Truncated)
    }
}

/// The 64-bit number at `pos`.
pub open spec fn u64_at(s: Seq<u8>, pos: int) -> Parsed<u64> {
    if pos + 8 <= s.len() {
        Ok((le::le64(s, pos) as u64, pos + 8))
    } else {
        Err(GgufErrorView::Truncated)
    }
}

/// The string at `pos`: its length in bytes, then its bytes. Ill-formed parts
/// of it are replaced.
pub open spec fn string_at(s: Seq<u8>, pos: int) -> Parsed<Seq<char>> {
    match u64_at(s, pos) {
        Err(e) => Err(e),
        Ok((len, at)) => if len > MAX_GGUF_STRING_LEN {
            Err(GgufErrorView::StringLen(len))
        } else if at + len > s.len() {
            Err(GgufErrorView::StringPastEnd)
        } else {
            Ok((utf8::lossy(s.subrange(at, at + len)), at + len))
        },
    }
}

/// The signed value of an unsigned 32-bit number.
pub open spec fn signed32(x: u32) -> i32 {
    if x < 0x8000_0000 {
        x as i32
    } else {
        (x - 0x1_0000_0000) as i32
    }
}

/// The signed value of an unsigned 64-bit number.
pub open spec fn signed64(x: u64) -> i64 {
    if x < 0x8000_0000_0000_0000 {
        x as i64
    } else {
        (x - 0x1_0000_0000_0000_0000) as i64
    }
}

/// The value of type `ty` at `pos`, inside `depth` arrays.
pub open spec fn value_at(s: Seq<u8>, pos: int, ty: u32, depth: nat) -> Parsed<ValueView>
    decreases 17 - depth, 0nat,
{
    if depth > MAX_ARRAY_DEPTH {
        Err(GgufErrorView::ArrayDepth)
    } else if ty == 0 || ty == 1 || ty == 7 {
        if pos + 1 <= s.len() {
            let b = s[pos];
            Ok(
                (
                    if ty == 0 {
                        ValueView::U8(b)
                    } else if ty == 1 {
                        ValueView::I8(quant::signed8(b) as i8)
                    } else {
                        ValueView::Bool(b != 0)
                    },
                    pos + 1,
                ),
            )
        } else {
            Err(GgufErrorView::Truncated)
        }
    } else if ty == 2 || ty == 3 {
        if pos + 2 <= s.len() {
            Ok(
                (
                    if ty == 2 {
                        ValueView::U16(le::le16(s, pos) as u16)
                    } else {
                        ValueView::I16(q8_k::sle16(s, pos) as i16)
                    },
                    pos + 2,
                ),
            )
        } else {
            Err(GgufErrorView::Truncated)
        }
    } else if ty == 4 || ty == 5 || ty == 6 {
        match u32_at(s, pos) {
            Err(e) => Err(e),
            Ok((x, at)) => Ok(
                (
                    if ty == 4 {
                        ValueView::U32(x)
                    } else if ty == 5 {
                        ValueView::I32(signed32(x))
                    } else {
                        ValueView::F32(x)
                    },
                    at,
                ),
            ),
        }
    } else if ty == 8 {
        match string_at(s, pos) {
            Err(e) => Err(e),
            Ok((t, at)) => Ok((ValueView::Text(t), at)),
        }
    } else if ty == 9 {
        match u32_at(s, pos) {
            Err(e) => Err(e),
            Ok((inner, at)) => match u64_at(s, at) {
                Err(e) => Err(e),
                Ok((len, from)) => if len > MAX_GGUF_ARRAY_LEN {
                    Err(GgufErrorView::ArrayLen(len))
                } else {
                    match values_at(s, from, inner, depth + 1, len as nat) {
                        Err(e) => Err(e),
                        Ok((a, end)) => Ok((ValueView::Array(a), end)),
                    }
                },
            },
        }
    } else if ty == 10 || ty == 11 || ty == 12 {
        match u64_at(s, pos) {
            Err(e) => Err(e),
            Ok((x, at)) => Ok(
                (
                    if ty == 10 {
                        ValueView::U64(x)
                    } else if ty == 11 {
                        ValueView::I64(signed64(x))
                    } else {
                        ValueView::F64(x)
                    },
                    at,
                ),
            ),
        }
    } else {
        Err(GgufErrorView::ValueType(ty))
    }
}

/// The `n` values of type `ty` from `pos` on, inside `depth` arrays.
pub open spec fn values_at(s: Seq<u8>, pos: int, ty: u32, depth: nat, n: nat) -> Parsed<
    Seq<ValueView>,
>
    decreases 17 - depth, n + 1,
{
    if n == 0 {
        Ok((Seq::empty(), pos))
    } else {
        match values_at(s, pos, ty, depth, (n - 1) as nat) {
            Err(e) => Err(e),
            Ok((a, at)) => match value_at(s, at, ty, depth) {
                Err(e) => Err(e),
                Ok((v, end)) => Ok((a.push(v), end)),
            },
        }
    }
}

/// The metadata after `n` pairs from `pos` on; of pairs with the same key the
/// last one counts.
pub open spec fn metadata_at(s: Seq<u8>, pos: int, n: nat) -> Parsed<Map<Seq<char>, ValueView>>
    decreases n,
{
    if n == 0 {
        Ok((Map::empty(), pos))
    } else {
        match metadata_at(s, pos, (n - 1) as nat) {
            Err(e) => Err(e),
            Ok((m, at)) => match string_at(s, at) {
                Err(e) => Err(e),
                Ok((key, p1)) => match u32_at(s, p1) {
                    Err(e) => Err(e),
                    Ok((ty, p2)) => match value_at(s, p2, ty, 0) {
                        Err(e) => Err(e),
                        Ok((v, end)) => Ok((m.insert(key, v), end)),
                    },
                },
            },
        }
    }
}

/// The description of a tensor.
#[verifier::ext_equal]
pub struct InfoView {
    pub name: Seq<char>,
    pub dtype: GgmlType,
    pub dims: Seq<u64>,
    pub offset: u64,
}

/// The `n` dimensions from `pos` on.
pub open spec fn dims_at(s: Seq<u8>, pos: int, n: nat) -> Parsed<Seq<u64>>
    decreases n,
{
    if n == 0 {
        Ok((Seq::empty(), pos))
    } else {
        match dims_at(s, pos, (n - 1) as nat) {
            Err(e) => Err(e),
            Ok((a, at)) => match u64_at(s, at) {
                Err(e) => Err(e),
                Ok((d, end)) => Ok((a.push(d), end)),
            },
        }
    }
}

/// The tensor description at `pos`.
pub open spec fn info_at(s: Seq<u8>, pos: int) -> Parsed<InfoView> {
    match string_at(s, pos) {
        Err(e) => Err(e),
        Ok((name, p1)) => match u32_at(s, p1) {
            Err(e) => Err(e),
            Ok((n, p2)) => if n > 8 {
                Err(GgufErrorView::Dims { name, n })
            } else {
                match dims_at(s, p2, n as nat) {
                    Err(e) => Err(e),
                    Ok((dims, p3)) => match u32_at(s, p3) {
                        Err(e) => Err(e),
                        Ok((ty, p4)) => match GgmlType::of_number(ty) {
                            None => Err(GgufErrorView::TensorType(ty)),
                            Some(dtype) => match u64_at(s, p4) {
                                Err(e) => Err(e),
                                Ok((offset, end)) => Ok(
                                    (InfoView { name, dtype, dims, offset }, end),
                                ),
                            },
                        },
                    },
                }
            },
        },
    }
}

/// The tensors after `n` descriptions from `pos` on; of descriptions with the
/// same name the last one counts.
pub open spec fn tensors_at(s: Seq<u8>, pos: int, n: nat) -> Parsed<Map<Seq<char>, InfoView>>
    decreases n,
{
    if n == 0 {
        Ok((Map::empty(), pos))
    } else {
        match tensors_at(s, pos, (n - 1) as nat) {
            Err(e) => Err(e),
            Ok((m, at)) => match info_at(s, at) {
                Err(e) => Err(e),
                Ok((i, end)) => Ok((m.insert(i.name, i), end)),
            },
        }
    }
}

/// What a file holds before its tensor data.
#[verifier::ext_equal]
pub struct ContentView {
    pub metadata: Map<Seq<char>, ValueView>,
    pub tensors: Map<Seq<char>, InfoView>,
    pub data_offset: int,
    pub file_len: int,
}

/// The alignment that the metadata ask for, or the default.
pub open spec fn alignment_of(m: Map<Seq<char>, ValueView>) -> u64 {
    if m.contains_key("general.alignment"@) {
        match m["general.alignment"@].as_u64() {
            Some(a) => a,
            None => 32,
        }
    } else {
        32
    }
}

/// The next multiple of `a` from `pos` on.
pub open spec fn aligned(pos: int, a: int) -> int {
    (pos + a - 1) / a * a
}

/// What the bytes of a file say, or why they cannot be read.
pub open spec fn content_of(s: Seq<u8>) -> Result<ContentView, GgufErrorView> {
    match u32_at(s, 0) {
        Err(e) => Err(e),
        Ok((magic, p1)) => if magic != GGUF_MAGIC {
            Err(GgufErrorView::Magic(magic))
        } else {
            match u32_at(s, p1) {
                Err(e) => Err(e),
                Ok((version, p2)) => if version < 2 || version > 3 {
                    Err(GgufErrorView::Version(version))
                } else {
                    match u64_at(s, p2) {
                        Err(e) => Err(e),
                        Ok((n_tensors, p3)) => if n_tensors > MAX_GGUF_TENSOR_COUNT {
                            Err(GgufErrorView::TensorCount(n_tensors))
                        } else {
                            match u64_at(s, p3) {
                                Err(e) => Err(e),
                                Ok((n_meta, p4)) => if n_meta > MAX_GGUF_METADATA_KV_COUNT {
                                    Err(GgufErrorView::MetadataCount(n_meta))
                                } else {
                                    body_of(s, p4, n_meta as nat, n_tensors as nat)
                                },
                            }
                        },
                    }
                },
            }
        },
    }
}

/// What follows the counts of a file.
pub open spec fn body_of(s: Seq<u8>, pos: int, n_meta: nat, n_tensors: nat) -> Result<
    ContentView,
    GgufErrorView,
> {
    match metadata_at(s, pos, n_meta) {
        Err(e) => Err(e),
        Ok((metadata, p1)) => if alignment_of(metadata) == 0 {
            Err(GgufErrorView::Alignment)
        } else {
            match tensors_at(s, p1, n_tensors) {
                Err(e) => Err(e),
                Ok((tensors, end)) => Ok(
                    ContentView {
                        metadata,
                        tensors,
                        data_offset: aligned(end, alignment_of(metadata) as int),
                        file_len: s.len() as int,
                    },
                ),
            }
        },
    }
}

// ---------------------------------------------------------------------------
// Contents
// ---------------------------------------------------------------------------

/// Metadata values by key.
pub struct Metadata {
    map: StringHashMap<Value>,
}

impl Metadata {
    pub closed spec fn view(&self) -> Map<Seq<char>, ValueView> {
        self.map@.map_values(|v: Value| v@)
    }

    /// No metadata.
    pub fn new() -> (m: Self)
        ensures
            m@ == Map::<Seq<char>, ValueView>::empty(),
    {
        let m = Metadata { map: StringHashMap::new() };
        assert(m@ =~= Map::<Seq<char>, ValueView>::empty());
        m
    }

    /// Sets the value of `key`.
    pub fn insert(&mut self, key: String, value: Value)
        ensures
            final(self)@ == old(self)@.insert(key@, value@),
    {
        self.map.insert(key, value);
        assert(self@ =~= old(self)@.insert(key@, value@));
    }

    /// The value of `key`, if it has one.
    pub fn get(&self, key: &str) -> (r: Option<&Value>)
        ensures
            match r {
                Some(v) => self@.contains_key(key@) && v@ == self@[key@],
                None => !self@.contains_key(key@),
            },
    {
        self.map.get(key)
    }

    /// The number of keys.
    pub fn len(&self) -> (n: usize)
        ensures
            n == self@.len(),
    {
        assert(self@.dom() =~= self.map@.dom());
        self.map.len()
    }
}

/// Where a tensor's data lie and how they are stored.
#[derive(Clone, Debug)]
pub struct TensorInfo {
    pub name: String,
    pub dtype: GgmlType,
    pub dims: Vec<u64>,
    pub offset: u64,
}

impl TensorInfo {
    pub open spec fn view(&self) -> InfoView {
        InfoView { name: self.name@, dtype: self.dtype, dims: self.dims@, offset: self.offset }
    }
}

/// Tensor descriptions by name.
pub struct TensorMap {
    map: StringHashMap<TensorInfo>,
    names: Vec<String>,
}

impl TensorMap {
    /// `names` are the names of all tensors, each once.
    pub closed spec fn wf(&self) -> bool {
        &&& forall|i: int|
            0 <= i < self.names.len() ==> self.map@.contains_key((#[trigger] self.names[i])@)
        &&& forall|k: Seq<char>| #[trigger]
            self.map@.contains_key(k) ==> exists|i: int|
                0 <= i < self.names.len() && (#[trigger] self.names[i])@ == k
        &&& forall|i: int, j: int|
            0 <= i < j < self.names.len() ==> (#[trigger] self.names[i])@ != (
            #[trigger] self.names[j])@
    }

    pub closed spec fn view(&self) -> Map<Seq<char>, InfoView> {
        self.map@.map_values(|v: TensorInfo| v@)
    }

    /// No tensors.
    pub fn new() -> (m: Self)
        ensures
            m.wf(),
            m@ == Map::<Seq<char>, InfoView>::empty(),
    {
        let m = TensorMap { map: StringHashMap::new(), names: Vec::new() };
        assert(m@ =~= Map::<Seq<char>, InfoView>::empty());
        m
    }

    /// Sets the description of the tensor `info.name`.
    pub fn insert(&mut self, info: TensorInfo)
        requires
            old(self).wf(),
        ensures
            final(self).wf(),
            final(self)@ == old(self)@.insert(info.name@, info@),
    {
        let ghost before = *self;
        if !self.map.contains_key(info.name.as_str()) {
            self.names.push(info.name.clone());
            assert(self.names[self.names.len() - 1]@ == info.name@);
            assert(forall|i: int| 0 <= i < before.names.len() ==> self.names[i] == before.names[i]);
        }
        let name = info.name.clone();
        self.map.insert(name, info);
        assert forall|k: Seq<char>| #[trigger] self.map@.contains_key(k) implies exists|i: int|
            0 <= i < self.names.len() && (#[trigger] self.names[i])@ == k by {
            if before.map@.contains_key(k) {
                let i = choose|i: int| 0 <= i < before.names.len() && (#[trigger] before.names[i])@ == k;
                assert(self.names[i]@ == k);
            } else {
                assert(self.names[self.names.len() - 1]@ == k);
            }
        }
        assert(self@ =~= old(self)@.insert(info.name@, info@));
    }

    /// The description of the tensor `name`, if there is one.
    pub fn get(&self, name: &str) -> (r: Option<&TensorInfo>)
        ensures
            match r {
                Some(i) => self@.contains_key(name@) && i@ == self@[name@],
                None => !self@.contains_key(name@),
            },
    {
        self.map.get(name)
    }

    /// The names of all tensors, each once.
    pub fn names(&self) -> (names: &Vec<String>)
        requires
            self.wf(),
        ensures
            forall|i: int|
                0 <= i < names@.len() ==> self@.contains_key((#[trigger] names@[i])@),
            forall|k: Seq<char>| #[trigger]
                self@.contains_key(k) ==> exists|i: int|
                    0 <= i < names@.len() && (#[trigger] names@[i])@ == k,
            forall|i: int, j: int|
                0 <= i < j < names@.len() ==> (#[trigger] names@[i])@ != (#[trigger] names@[j])@,
    {
        &self.names
    }
}

/// What a file holds before its tensor data.
pub struct GgufContent {
    pub metadata: Metadata,
    pub tensors: TensorMap,
    pub data_offset: u64,
    pub file_len: u64,
}

// ---------------------------------------------------------------------------
// Reading
// ---------------------------------------------------------------------------

/// Reads the 32-bit number at `pos`.
pub fn read_u32(bytes: &[u8], pos: usize) -> (r: Result<(u32, usize), GgufError>)
    requires
        pos <= bytes.len(),
    ensures
        match r {
            Ok((x, at)) => u32_at(bytes@, pos as int) == Ok::<(u32, int), GgufErrorView>(
                (x, at as int),
            ) && at <= bytes.len(),
            Err(e) => u32_at(bytes@, pos as int) == Err::<(u32, int), GgufErrorView>(e@),
        },
{
    if bytes.len() - pos < 4 {
        Err(GgufError::Truncated)
    } else {
        Ok((get_u32(bytes, pos), pos + 4))
    }
}

/// Reads the 64-bit number at `pos`.
pub fn read_u64(bytes: &[u8], pos: usize) -> (r: Result<(u64, usize), GgufError>)
    requires
        pos <= bytes.len(),
    ensures
        match r {
            Ok((x, at)) => u64_at(bytes@, pos as int) == Ok::<(u64, int), GgufErrorView>(
                (x, at as int),
            ) && at <= bytes.len(),
            Err(e) => u64_at(bytes@, pos as int) == Err::<(u64, int), GgufErrorView>(e@),
        },
{
    if bytes.len() - pos < 8 {
        Err(GgufError::Truncated)
    } else {
        Ok((get_u64(bytes, pos), pos + 8))
    }
}

/// Reads the string at `pos`.
pub fn read_string(bytes: &[u8], pos: usize) -> (r: Result<(String, usize), GgufError>)
    requires
        pos <= bytes.len(),
    ensures
        match r {
            Ok((t, at)) => string_at(bytes@, pos as int) == Ok::<(Seq<char>, int), GgufErrorView>(
                (t@, at as int),
            ) && at <= bytes.len(),
            Err(e) => string_at(bytes@, pos as int) == Err::<(Seq<char>, int), GgufErrorView>(e@),
        },
{
    let (len, at) = match read_u64(bytes, pos) {
        Ok(x) => x,
        Err(e) => return Err(e),
    };
    if len > MAX_GGUF_STRING_LEN {
        return Err(GgufError::StringLen(len));
    }
    let len: usize = len as usize;
    if bytes.len() - at < len {
        return Err(GgufError::StringPastEnd);
    }
    let part: &[u8] = vstd::slice::slice_subrange(bytes, at, at + len);
    Ok((from_utf8_lossy(part), at + len))
}

pub fn to_signed32(x: u32) -> (y: i32)
    ensures
        y == signed32(x),
{
    if x < 0x8000_0000 {
        x as i32
    } else {
        (x as i64 - 0x1_0000_0000) as i32
    }
}

fn to_signed64(x: u64) -> (y: i64)
    ensures
        y == signed64(x),
{
    if x < 0x8000_0000_0000_0000 {
        x as i64
    } else {
        (x as i128 - 0x1_0000_0000_0000_0000) as i64
    }
}

/// What goes wrong in the first values goes wrong in all.
proof fn values_error_stays(s: Seq<u8>, pos: int, ty: u32, depth: nat, k: nat, n: nat)
    requires
        k <= n,
        values_at(s, pos, ty, depth, k) is Err,
    ensures
        values_at(s, pos, ty, depth, n) == values_at(s, pos, ty, depth, k),
    decreases n,
{
    if k < n {
        values_error_stays(s, pos, ty, depth, k, (n - 1) as nat);
    }
}

proof fn dims_error_stays(s: Seq<u8>, pos: int, k: nat, n: nat)
    requires
        k <= n,
        dims_at(s, pos, k) is Err,
    ensures
        dims_at(s, pos, n) == dims_at(s, pos, k),
    decreases n,
{
    if k < n {
        dims_error_stays(s, pos, k, (n - 1) as nat);
    }
}

proof fn metadata_error_stays(s: Seq<u8>, pos: int, k: nat, n: nat)
    requires
        k <= n,
        metadata_at(s, pos, k) is Err,
    ensures
        metadata_at(s, pos, n) == metadata_at(s, pos, k),
    decreases n,
{
    if k < n {
        metadata_error_stays(s, pos, k, (n - 1) as nat);
    }
}

proof fn tensors_error_stays(s: Seq<u8>, pos: int, k: nat, n: nat)
    requires
        k <= n,
        tensors_at(s, pos, k) is Err,
    ensures
        tensors_at(s, pos, n) == tensors_at(s, pos, k),
    decreases n,
{
    if k < n {
        tensors_error_stays(s, pos, k, (n - 1) as nat);
    }
}

/// The entries of `a`.
pub open spec fn views(a: Seq<Value>) -> Seq<ValueView> {
    Seq::new(a.len(), |i: int| a[i]@)
}

/// Reads the value of type `value_type` at `pos`.
pub fn read_value(bytes: &[u8], pos: usize, value_type: u32) -> (r: Result<
    (Value, usize),
    GgufError,
>)
    requires
        pos <= bytes.len(),
    ensures
        match r {
            Ok((v, at)) => value_at(bytes@, pos as int, value_type, 0) == Ok::<
                (ValueView, int),
                GgufErrorView,
            >((v@, at as int)) && at <= bytes.len(),
            Err(e) => value_at(bytes@, pos as int, value_type, 0) == Err::<
                (ValueView, int),
                GgufErrorView,
            >(e@),
        },
{
    read_value_inner(bytes, pos, value_type, 0)
}

fn read_value_inner(bytes: &[u8], pos: usize, value_type: u32, depth: usize) -> (r: Result<
    (Value, usize),
    GgufError,
>)
    requires
        pos <= bytes.len(),
        depth <= 17,
    ensures
        match r {
            Ok((v, at)) => value_at(bytes@, pos as int, value_type, depth as nat) == Ok::<
                (ValueView, int),
                GgufErrorView,
            >((v@, at as int)) && at <= bytes.len(),
            Err(e) => value_at(bytes@, pos as int, value_type, depth as nat) == Err::<
                (ValueView, int),
                GgufErrorView,
            >(e@),
        },
    decreases 17 - depth,
{
    if depth > MAX_ARRAY_DEPTH {
        return Err(GgufError::ArrayDepth);
    }
    let left: usize = bytes.len() - pos;
    match value_type {
        0 => if left < 1 {
            Err(GgufError::Truncated)
        } else {
            Ok((Value::U8(bytes[pos]), pos + 1))
        },
        1 => if left < 1 {
            Err(GgufError::Truncated)
        } else {
            Ok((Value::I8(as_signed(bytes[pos])), pos + 1))
        },
        2 => if left < 2 {
            Err(GgufError::Truncated)
        } else {
            Ok((Value::U16(get_u16(bytes, pos)), pos + 2))
        },
        3 => if left < 2 {
            Err(GgufError::Truncated)
        } else {
            Ok((Value::I16(get_i16(bytes, pos)), pos + 2))
        },
        4 => match read_u32(bytes, pos) {
            Ok((x, at)) => Ok((Value::U32(x), at)),
            Err(e) => Err(e),
        },
        5 => match read_u32(bytes, pos) {
            Ok((x, at)) => Ok((Value::I32(to_signed32(x)), at)),
            Err(e) => Err(e),
        },
        6 => match read_u32(bytes, pos) {
            Ok((x, at)) => Ok((Value::F32(x), at)),
            Err(e) => Err(e),
        },
        7 => if left < 1 {
            Err(GgufError::Truncated)
        } else {
            Ok((Value::Bool(bytes[pos] != 0), pos + 1))
        },
        8 => match read_string(bytes, pos) {
            Ok((t, at)) => Ok((Value::String(t), at)),
            Err(e) => Err(e),
        },
        9 => {
            let (inner, p1) = match read_u32(bytes, pos) {
                Ok(x) => x,
                Err(e) => return Err(e),
            };
            let (len, from) = match read_u64(bytes, p1) {
                Ok(x) => x,
                Err(e) => return Err(e),
            };
            if len > MAX_GGUF_ARRAY_LEN {
                return Err(GgufError::ArrayLen(len));
            }
            let mut a: Vec<Value> = Vec::new();
            let mut at: usize = from;
            let mut k: u64 = 0;
            assert(views(a@) =~= Seq::<ValueView>::empty());
            while k < len
                invariant
                    k <= len,
                    depth <= 16,
                    at <= bytes.len(),
                    a.len() == k,
                    values_at(bytes@, from as int, inner, (depth + 1) as nat, k as nat) == Ok::<
                        (Seq<ValueView>, int),
                        GgufErrorView,
                    >((views(a@), at as int)),
                    value_type == 9,
                    u32_at(bytes@, pos as int) == Ok::<(u32, int), GgufErrorView>(
                        (inner, p1 as int),
                    ),
                    u64_at(bytes@, p1 as int) == Ok::<(u64, int), GgufErrorView>(
                        (len, from as int),
                    ),
                    len <= MAX_GGUF_ARRAY_LEN,
                decreases len - k,
            {
                match read_value_inner(bytes, at, inner, depth + 1) {
                    Ok((v, end)) => {
                        let ghost before = views(a@);
                        a.push(v);
                        assert(views(a@) =~= before.push(v@));
                        at = end;
                    },
                    Err(e) => {
                        proof {
                            values_error_stays(
                                bytes@,
                                from as int,
                                inner,
                                (depth + 1) as nat,
                                (k + 1) as nat,
                                len as nat,
                            );
                        }
                        return Err(e);
                    },
                }
                k += 1;
            }
            let v = Value::Array(a);
            assert(v@->Array_0 =~= views(a@));
            Ok((v, at))
        },
        10 => match read_u64(bytes, pos) {
            Ok((x, at)) => Ok((Value::U64(x), at)),
            Err(e) => Err(e),
        },
        11 => match read_u64(bytes, pos) {
            Ok((x, at)) => Ok((Value::I64(to_signed64(x)), at)),
            Err(e) => Err(e),
        },
        12 => match read_u64(bytes, pos) {
            Ok((x, at)) => Ok((Value::F64(x), at)),
            Err(e) => Err(e),
        },
        _ => Err(GgufError::ValueType(value_type)),
    }
}

/// Reads `n` metadata pairs.
fn read_metadata(bytes: &[u8], pos: usize, n: u64) -> (r: Result<(Metadata, usize), GgufError>)
    requires
        pos <= bytes.len(),
    ensures
        match r {
            Ok((m, at)) => metadata_at(bytes@, pos as int, n as nat) == Ok::<
                (Map<Seq<char>, ValueView>, int),
                GgufErrorView,
            >((m@, at as int)) && at <= bytes.len(),
            Err(e) => metadata_at(bytes@, pos as int, n as nat) == Err::<
                (Map<Seq<char>, ValueView>, int),
                GgufErrorView,
            >(e@),
        },
{
    let mut m = Metadata::new();
    let mut at: usize = pos;
    let mut k: u64 = 0;
    while k < n
        invariant
            k <= n,
            at <= bytes.len(),
            metadata_at(bytes@, pos as int, k as nat) == Ok::<
                (Map<Seq<char>, ValueView>, int),
                GgufErrorView,
            >((m@, at as int)),
        decreases n - k,
    {
        proof {
            if metadata_at(bytes@, pos as int, (k + 1) as nat) is Err {
                metadata_error_stays(bytes@, pos as int, (k + 1) as nat, n as nat);
            }
        }
        let (key, p1) = match read_string(bytes, at) {
            Ok(x) => x,
            Err(e) => return Err(e),
        };
        let (ty, p2) = match read_u32(bytes, p1) {
            Ok(x) => x,
            Err(e) => return Err(e),
        };
        let (v, end) = match read_value(bytes, p2, ty) {
            Ok(x) => x,
            Err(e) => return Err(e),
        };
        m.insert(key, v);
        at = end;
        k += 1;
    }
    Ok((m, at))
}

/// Reads `n` dimensions.
fn read_dims(bytes: &[u8], pos: usize, n: u32) -> (r: Result<(Vec<u64>, usize), GgufError>)
    requires
        pos <= bytes.len(),
    ensures
        match r {
            Ok((a, at)) => dims_at(bytes@, pos as int, n as nat) == Ok::<
                (Seq<u64>, int),
                GgufErrorView,
            >((a@, at as int)) && at <= bytes.len(),
            Err(e) => dims_at(bytes@, pos as int, n as nat) == Err::<(Seq<u64>, int), GgufErrorView>(
                e@,
            ),
        },
{
    let mut a: Vec<u64> = Vec::new();
    let mut at: usize = pos;
    let mut k: u32 = 0;
    assert(a@ =~= Seq::<u64>::empty());
    while k < n
        invariant
            k <= n,
            at <= bytes.len(),
            dims_at(bytes@, pos as int, k as nat) == Ok::<(Seq<u64>, int), GgufErrorView>(
                (a@, at as int),
            ),
        decreases n - k,
    {
        match read_u64(bytes, at) {
            Ok((d, end)) => {
                a.push(d);
                at = end;
            },
            Err(e) => {
                proof {
                    dims_error_stays(bytes@, pos as int, (k + 1) as nat, n as nat);
                }
                return Err(e);
            },
        }
        k += 1;
    }
    Ok((a, at))
}

/// Reads one tensor description.
fn read_info(bytes: &[u8], pos: usize) -> (r: Result<(TensorInfo, usize), GgufError>)
    requires
        pos <= bytes.len(),
    ensures
        match r {
            Ok((i, at)) => info_at(bytes@, pos as int) == Ok::<(InfoView, int), GgufErrorView>(
                (i@, at as int),
            ) && at <= bytes.len(),
            Err(e) => info_at(bytes@, pos as int) == Err::<(InfoView, int), GgufErrorView>(e@),
        },
{
    let (name, p1) = match read_string(bytes, pos) {
        Ok(x) => x,
        Err(e) => return Err(e),
    };
    let (n, p2) = match read_u32(bytes, p1) {
        Ok(x) => x,
        Err(e) => return Err(e),
    };
    if n > 8 {
        return Err(GgufError::Dims { name, n });
    }
    let (dims, p3) = match read_dims(bytes, p2, n) {
        Ok(x) => x,
        Err(e) => return Err(e),
    };
    let (ty, p4) = match read_u32(bytes, p3) {
        Ok(x) => x,
        Err(e) => return Err(e),
    };
    let dtype = match GgmlType::from_u32(ty) {
        Some(t) => t,
        None => return Err(GgufError::TensorType(ty)),
    };
    let (offset, end) = match read_u64(bytes, p4) {
        Ok(x) => x,
        Err(e) => return Err(e),
    };
    Ok((TensorInfo { name, dtype, dims, offset }, end))
}

/// Reads `n` tensor descriptions.
fn read_tensors(bytes: &[u8], pos: usize, n: u64) -> (r: Result<(TensorMap, usize), GgufError>)
    requires
        pos <= bytes.len(),
    ensures
        match r {
            Ok((m, at)) => tensors_at(bytes@, pos as int, n as nat) == Ok::<
                (Map<Seq<char>, InfoView>, int),
                GgufErrorView,
            >((m@, at as int)) && at <= bytes.len() && m.wf(),
            Err(e) => tensors_at(bytes@, pos as int, n as nat) == Err::<
                (Map<Seq<char>, InfoView>, int),
                GgufErrorView,
            >(e@),
        },
{
    let mut m = TensorMap::new();
    let mut at: usize = pos;
    let mut k: u64 = 0;
    while k < n
        invariant
            k <= n,
            at <= bytes.len(),
            m.wf(),
            tensors_at(bytes@, pos as int, k as nat) == Ok::<
                (Map<Seq<char>, InfoView>, int),
                GgufErrorView,
            >((m@, at as int)),
        decreases n - k,
    {
        match read_info(bytes, at) {
            Ok((i, end)) => {
                m.insert(i);
                at = end;
            },
            Err(e) => {
                proof {
                    tensors_error_stays(bytes@, pos as int, (k + 1) as nat, n as nat);
                }
                return Err(e);
            },
        }
        k += 1;
    }
    Ok((m, at))
}

impl GgufContent {
    /// The names of the tensors are listed once each.
    pub open spec fn wf(&self) -> bool {
        self.tensors.wf()
    }

    pub open spec fn view(&self) -> ContentView {
        ContentView {
            metadata: self.metadata@,
            tensors: self.tensors@,
            data_offset: self.data_offset as int,
            file_len: self.file_len as int,
        }
    }

    /// Reads what a file holds before its tensor data.
    pub fn parse(bytes: &[u8]) -> (r: Result<Self, GgufError>)
        requires
            bytes@.len() <= 0x7FFF_FFFF_FFFF_FFFF,
        ensures
            match r {
                Ok(c) => c.wf() && content_of(bytes@) == Ok::<ContentView, GgufErrorView>(c@),
                Err(e) => content_of(bytes@) == Err::<ContentView, GgufErrorView>(e@),
            },
    {
        let (magic, p1) = match read_u32(bytes, 0) {
            Ok(x) => x,
            Err(e) => return Err(e),
        };
        if magic != GGUF_MAGIC {
            return Err(GgufError::Magic(magic));
        }
        let (version, p2) = match read_u32(bytes, p1) {
            Ok(x) => x,
            Err(e) => return Err(e),
        };
        if version < 2 || version > 3 {
            return Err(GgufError::Version(version));
        }
        let (n_tensors, p3) = match read_u64(bytes, p2) {
            Ok(x) => x,
            Err(e) => return Err(e),
        };
        if n_tensors > MAX_GGUF_TENSOR_COUNT {
            return Err(GgufError::TensorCount(n_tensors));
        }
        let (n_meta, p4) = match read_u64(bytes, p3) {
            Ok(x) => x,
            Err(e) => return Err(e),
        };
        if n_meta > MAX_GGUF_METADATA_KV_COUNT {
            return Err(GgufError::MetadataCount(n_meta));
        }
        let (metadata, p5) = match read_metadata(bytes, p4, n_meta) {
            Ok(x) => x,
            Err(e) => return Err(e),
        };
        let alignment: u64 = match metadata.get("general.alignment") {
            Some(v) => match v.to_u64() {
                Some(a) => a,
                None => DEFAULT_ALIGNMENT,
            },
            None => DEFAULT_ALIGNMENT,
        };
        if alignment == 0 {
            return Err(GgufError::Alignment);
        }
        let (tensors, end) = match read_tensors(bytes, p5, n_tensors) {
            Ok(x) => x,
            Err(e) => return Err(e),
        };
        let data_offset: u64 = align_up(end as u64, alignment);
        let c = GgufContent { metadata, tensors, data_offset, file_len: bytes.len() as u64 };
        assert(c@ =~= content_of(bytes@)->Ok_0);
        Ok(c)
    }
}

/// The next multiple of `a` from `pos` on.
fn align_up(pos: u64, a: u64) -> (r: u64)
    requires
        a > 0,
        pos <= 0x7FFF_FFFF_FFFF_FFFF,
    ensures
        r == aligned(pos as int, a as int),
{
    if pos == 0 {
        proof {
            let m = a as int;
            assert((0 + m - 1) / m * m == 0) by (nonlinear_arith)
                requires
                    m > 0,
            ;
            assert(aligned(0, m) == 0);
        }
        0
    } else {
        let q: u64 = (pos - 1) / a;
        proof {
            let n = pos - 1;
            let m = a as int;
            assert((n + m) / m == n / m + 1 && n / m * m <= n && n / m <= n) by (nonlinear_arith)
                requires
                    m > 0,
                    n >= 0,
            ;
            assert(n + m == pos + m - 1);
            assert(aligned(pos as int, m) == (q + 1) * a);
            assert((q + 1) * a == q * a + a) by (nonlinear_arith);
            if q > 0 {
                assert(q * a >= a) by (nonlinear_arith)
                    requires
                        q > 0,
                        a > 0,
                ;
            } else {
                assert(q * a == 0) by (nonlinear_arith)
                    requires
                        q == 0,
                ;
            }
        }
        (q + 1) * a
    }
}

/// The tensor data start at a multiple of the alignment, at the first one
/// after the descriptions.
pub proof fn data_start_is_aligned(pos: int, a: int)
    requires
        pos >= 0,
        a > 0,
    ensures
        aligned(pos, a) % a == 0,
        pos <= aligned(pos, a) < pos + a,
{
    let n = pos + a - 1;
    assert(n == n / a * a + n % a && 0 <= n % a < a) by (nonlinear_arith)
        requires
            a > 0,
    ;
    assert((n / a * a) % a == 0) by (nonlinear_arith)
        requires
            a > 0,
    ;
}

// ---------------------------------------------------------------------------
// Tensor data
// ---------------------------------------------------------------------------

/// What is wrong with a tensor's place in the file.
#[derive(Clone, Copy, Debug, PartialEq, Eq, Structural)]
pub enum TensorErrorKind {
    /// There is no tensor of that name.
    NotFound,
    /// The place of the first byte cannot be counted in 64 bits.
    OffsetOverflow,
    /// The place of the first byte is no index.
    OffsetTooLarge,
    /// The elements cannot be counted.
    DimsOverflow,
    /// The bytes cannot be counted.
    SizeOverflow,
    /// The place behind the last byte cannot be counted.
    RangeOverflow,
    /// The file is too short.
    PastEnd,
}

/// Why a tensor's data cannot be had.
#[derive(Clone, Debug)]
pub struct TensorError {
    pub name: String,
    pub kind: TensorErrorKind,
}

impl TensorErrorKind {
    /// What a message says behind the name.
    pub open spec fn text(self) -> Seq<char> {
        match self {
            TensorErrorKind::NotFound => "' not found"@,
            TensorErrorKind::OffsetOverflow => "' offset overflow"@,
            TensorErrorKind::OffsetTooLarge => "' offset overflows usize"@,
            TensorErrorKind::DimsOverflow => "' dimensions overflow"@,
            TensorErrorKind::SizeOverflow => "' byte size overflow"@,
            TensorErrorKind::RangeOverflow => "' byte range overflow"@,
            TensorErrorKind::PastEnd => "' extends past end of file"@,
        }
    }

    /// A message for people about the tensor `name`.
    pub fn message_for(&self, name: &str) -> (s: String)
        ensures
            s@ == "Tensor '"@ + name@ + self.text(),
    {
        let tail: &str = match self {
            TensorErrorKind::NotFound => "' not found",
            TensorErrorKind::OffsetOverflow => "' offset overflow",
            TensorErrorKind::OffsetTooLarge => "' offset overflows usize",
            TensorErrorKind::DimsOverflow => "' dimensions overflow",
            TensorErrorKind::SizeOverflow => "' byte size overflow",
            TensorErrorKind::RangeOverflow => "' byte range overflow",
            TensorErrorKind::PastEnd => "' extends past end of file",
        };
        with_name("Tensor '", name, tail)
    }
}

impl TensorError {
    /// A message for people.
    pub fn message(&self) -> (s: String)
        ensures
            s@ == "Tensor '"@ + self.name@ + self.kind.text(),
    {
        self.kind.message_for(self.name.as_str())
    }
}

/// The product of `dims`, if it can be counted dimension by dimension.
pub open spec fn elem_count(dims: Seq<u64>) -> Option<usize>
    decreases dims.len(),
{
    if dims.len() == 0 {
        Some(1)
    } else {
        match elem_count(dims.drop_last()) {
            None => None,
            Some(p) => if dims.last() > usize::MAX || p * dims.last() > usize::MAX {
                None
            } else {
                Some((p * dims.last()) as usize)
            },
        }
    }
}

/// The first byte of a tensor's data and the place behind the last, in a file
/// of `len` bytes whose data start at `data_offset`.
pub open spec fn data_range(info: InfoView, data_offset: int, len: int) -> Result<
    (int, int),
    TensorErrorKind,
> {
    let start = data_offset + info.offset;
    if start > u64::MAX {
        Err(TensorErrorKind::OffsetOverflow)
    } else if start > usize::MAX {
        Err(TensorErrorKind::OffsetTooLarge)
    } else {
        match elem_count(info.dims) {
            None => Err(TensorErrorKind::DimsOverflow),
            Some(n) => {
                let size = nbytes(n as nat, info.dtype);
                if size > usize::MAX {
                    Err(TensorErrorKind::SizeOverflow)
                } else if start + size > usize::MAX {
                    Err(TensorErrorKind::RangeOverflow)
                } else if start + size > len {
                    Err(TensorErrorKind::PastEnd)
                } else {
                    Ok((start, start + size))
                }
            },
        }
    }
}

/// The bytes of the tensor `name` in a file with the given contents.
pub open spec fn bytes_of(c: ContentView, file: Seq<u8>, name: Seq<char>) -> Result<
    Seq<u8>,
    TensorErrorKind,
> {
    if !c.tensors.contains_key(name) {
        Err(TensorErrorKind::NotFound)
    } else {
        match data_range(c.tensors[name], c.data_offset, file.len() as int) {
            Err(e) => Err(e),
            Ok((start, end)) => Ok(file.subrange(start, end)),
        }
    }
}

proof fn elem_count_error_stays(dims: Seq<u64>, k: int)
    requires
        0 <= k <= dims.len(),
        elem_count(dims.take(k)) is None,
    ensures
        elem_count(dims) is None,
    decreases dims.len(),
{
    if k == dims.len() {
        assert(dims.take(k) =~= dims);
    } else {
        assert(dims.drop_last().take(k) =~= dims.take(k));
        elem_count_error_stays(dims.drop_last(), k);
    }
}

fn count_elems(dims: &Vec<u64>) -> (r: Option<usize>)
    ensures
        r == elem_count(dims@),
{
    let mut n: usize = 1;
    let mut k: usize = 0;
    while k < dims.len()
        invariant
            k <= dims.len(),
            elem_count(dims@.take(k as int)) == Some(n),
        decreases dims.len() - k,
    {
        assert(dims@.take(k + 1).drop_last() =~= dims@.take(k as int));
        let d: u64 = dims[k];
        proof {
            if elem_count(dims@.take(k + 1)) is None {
                elem_count_error_stays(dims@, k + 1);
            }
        }
        if d > usize::MAX as u64 {
            return None;
        }
        n = match n.checked_mul(d as usize) {
            Some(m) => m,
            None => return None,
        };
        k += 1;
    }
    assert(dims@.take(k as int) =~= dims@);
    Some(n)
}

/// If elements can be counted, so can each dimension.
pub proof fn dims_fit(dims: Seq<u64>, i: int)
    requires
        elem_count(dims) is Some,
        0 <= i < dims.len(),
    ensures
        dims[i] <= usize::MAX,
    decreases dims.len(),
{
    if i < dims.len() - 1 {
        dims_fit(dims.drop_last(), i);
    }
}

/// A model file in memory.
pub struct GgufMmap<'a> {
    pub content: GgufContent,
    pub mmap: &'a [u8],
}

impl<'a> GgufMmap<'a> {
    /// The contents are what the bytes say.
    pub open spec fn wf(&self) -> bool {
        &&& self.content.wf()
        &&& content_of(self.mmap@) == Ok::<ContentView, GgufErrorView>(self.content@)
    }

    /// Reads what the bytes of a file say.
    pub fn new(mmap: &'a [u8]) -> (r: Result<Self, GgufError>)
        requires
            mmap@.len() <= 0x7FFF_FFFF_FFFF_FFFF,
        ensures
            match r {
                Ok(g) => g.wf() && g.mmap@ == mmap@,
                Err(e) => content_of(mmap@) == Err::<ContentView, GgufErrorView>(e@),
            },
    {
        match GgufContent::parse(mmap) {
            Ok(content) => Ok(GgufMmap { content, mmap }),
            Err(e) => Err(e),
        }
    }

    /// The bytes of the tensor `name`.
    pub fn tensor_data(&self, name: &str) -> (r: Result<&'a [u8], TensorError>)
        ensures
            match r {
                Ok(b) => bytes_of(self.content@, self.mmap@, name@) == Ok::<
                    Seq<u8>,
                    TensorErrorKind,
                >(b@),
                Err(e) => e.name@ == name@ && bytes_of(self.content@, self.mmap@, name@) == Err::<
                    Seq<u8>,
                    TensorErrorKind,
                >(e.kind),
            },
    {
        match self.tensor_range(name) {
            Ok((start, end)) => Ok(vstd::slice::slice_subrange(self.mmap, start, end)),
            Err(kind) => Err(TensorError { name: name.to_owned(), kind }),
        }
    }

    fn tensor_range(&self, name: &str) -> (r: Result<(usize, usize), TensorErrorKind>)
        ensures
            match r {
                Ok((start, end)) => self.content@.tensors.contains_key(name@) && data_range(
                    self.content@.tensors[name@],
                    self.content@.data_offset,
                    self.mmap@.len() as int,
                ) == Ok::<(int, int), TensorErrorKind>((start as int, end as int)) && start <= end
                    <= self.mmap@.len(),
                Err(kind) => bytes_of(self.content@, self.mmap@, name@) == Err::<
                    Seq<u8>,
                    TensorErrorKind,
                >(kind),
            },
    {
        let info = match self.content.tensors.get(name) {
            Some(i) => i,
            None => return Err(TensorErrorKind::NotFound),
        };
        let start: u64 = match self.content.data_offset.checked_add(info.offset) {
            Some(x) => x,
            None => return Err(TensorErrorKind::OffsetOverflow),
        };
        if start > usize::MAX as u64 {
            return Err(TensorErrorKind::OffsetTooLarge);
        }
        let start: usize = start as usize;
        let n: usize = match count_elems(&info.dims) {
            Some(n) => n,
            None => return Err(TensorErrorKind::DimsOverflow),
        };
        let size: usize = match ggml_tensor_nbytes(n, info.dtype) {
            Some(s) => s,
            None => return Err(TensorErrorKind::SizeOverflow),
        };
        let end: usize = match start.checked_add(size) {
            Some(e) => e,
            None => return Err(TensorErrorKind::RangeOverflow),
        };
        if end > self.mmap.len() {
            return Err(TensorErrorKind::PastEnd);
        }
        Ok((start, end))
    }
}

/// The data of a tensor lie in the file, behind the descriptions, and have the
/// size that the dimensions and the type ask for.
pub proof fn data_lie_in_the_file(c: ContentView, file: Seq<u8>, name: Seq<char>)
    requires
        bytes_of(c, file, name) is Ok,
        c.data_offset >= 0,
    ensures
        ({
            let info = c.tensors[name];
            let n = elem_count(info.dims)->Some_0;
            let size = nbytes(n as nat, info.dtype) as int;
            &&& c.tensors.contains_key(name)
            &&& elem_count(info.dims) is Some
            &&& 0 <= c.data_offset + info.offset
            &&& c.data_offset + info.offset + size <= file.len()
            &&& bytes_of(c, file, name)->Ok_0 == file.subrange(
                c.data_offset + info.offset,
                c.data_offset + info.offset + size,
            )
            &&& bytes_of(c, file, name)->Ok_0.len() == size
        }),
{
}

/// A key that occurs again has its last value; other keys keep theirs.
pub proof fn a_repeated_key_has_its_last_value(s: Seq<u8>, pos: int, n: nat, other: Seq<char>)
    requires
        metadata_at(s, pos, n + 1) is Ok,
    ensures
        ({
            let (before, at) = metadata_at(s, pos, n)->Ok_0;
            let (key, p1) = string_at(s, at)->Ok_0;
            let (ty, p2) = u32_at(s, p1)->Ok_0;
            let after = metadata_at(s, pos, n + 1)->Ok_0.0;
            &&& after.contains_key(key)
            &&& after[key] == value_at(s, p2, ty, 0)->Ok_0.0
            &&& other != key ==> after.contains_key(other) == before.contains_key(other)
            &&& other != key && before.contains_key(other) ==> after[other] == before[other]
        }),
{
}

/// The numbers of the types in a file.
pub proof fn types_have_fixed_numbers(v: u32)
    ensures
        GgmlType::of_number(0) == Some(GgmlType::F32),
        GgmlType::of_number(1) == Some(GgmlType::F16),
        GgmlType::of_number(2) == Some(GgmlType::Q4_0),
        GgmlType::of_number(3) == Some(GgmlType::Q4_1),
        GgmlType::of_number(6) == Some(GgmlType::Q5_0),
        GgmlType::of_number(7) == Some(GgmlType::Q5_1),
        GgmlType::of_number(8) == Some(GgmlType::Q8_0),
        GgmlType::of_number(9) == Some(GgmlType::Q8_1),
        GgmlType::of_number(10) == Some(GgmlType::Q2_K),
        GgmlType::of_number(11) == Some(GgmlType::Q3_K),
        GgmlType::of_number(12) == Some(GgmlType::Q4_K),
        GgmlType::of_number(13) == Some(GgmlType::Q5_K),
        GgmlType::of_number(14) == Some(GgmlType::Q6_K),
        GgmlType::of_number(15) == Some(GgmlType::Q8_K),
        GgmlType::of_number(16) == Some(GgmlType::IQ2_XXS),
        GgmlType::of_number(17) == Some(GgmlType::IQ2_XS),
        GgmlType::of_number(18) == Some(GgmlType::IQ3_XXS),
        GgmlType::of_number(19) == Some(GgmlType::IQ1_S),
        GgmlType::of_number(20) == Some(GgmlType::IQ4_NL),
        GgmlType::of_number(21) == Some(GgmlType::IQ3_S),
        GgmlType::of_number(22) == Some(GgmlType::IQ2_S),
        GgmlType::of_number(23) == Some(GgmlType::IQ4_XS),
        GgmlType::of_number(24) == Some(GgmlType::I8),
        GgmlType::of_number(25) == Some(GgmlType::I16),
        GgmlType::of_number(26) == Some(GgmlType::I32),
        v == 4 || v == 5 || v > 26 ==> GgmlType::of_number(v) is None,
{
    assert(GgmlType::F32.number() == 0);
    number_is_unique(GgmlType::F32, GgmlType::of_number(0)->Some_0);
    assert(GgmlType::F16.number() == 1);
    number_is_unique(GgmlType::F16, GgmlType::of_number(1)->Some_0);
    assert(GgmlType::Q4_0.number() == 2);
    number_is_unique(GgmlType::Q4_0, GgmlType::of_number(2)->Some_0);
    assert(GgmlType::Q4_1.number() == 3);
    number_is_unique(GgmlType::Q4_1, GgmlType::of_number(3)->Some_0);
    assert(GgmlType::Q5_0.number() == 6);
    number_is_unique(GgmlType::Q5_0, GgmlType::of_number(6)->Some_0);
    assert(GgmlType::Q5_1.number() == 7);
    number_is_unique(GgmlType::Q5_1, GgmlType::of_number(7)->Some_0);
    assert(GgmlType::Q8_0.number() == 8);
    number_is_unique(GgmlType::Q8_0, GgmlType::of_number(8)->Some_0);
    assert(GgmlType::Q8_1.number() == 9);
    number_is_unique(GgmlType::Q8_1, GgmlType::of_number(9)->Some_0);
    assert(GgmlType::Q2_K.number() == 10);
    number_is_unique(GgmlType::Q2_K, GgmlType::of_number(10)->Some_0);
    assert(GgmlType::Q3_K.number() == 11);
    number_is_unique(GgmlType::Q3_K, GgmlType::of_number(11)->Some_0);
    assert(GgmlType::Q4_K.number() == 12);
    number_is_unique(GgmlType::Q4_K, GgmlType::of_number(12)->Some_0);
    assert(GgmlType::Q5_K.number() == 13);
    number_is_unique(GgmlType::Q5_K, GgmlType::of_number(13)->Some_0);
    assert(GgmlType::Q6_K.number() == 14);
    number_is_unique(GgmlType::Q6_K, GgmlType::of_number(14)->Some_0);
    assert(GgmlType::Q8_K.number() == 15);
    number_is_unique(GgmlType::Q8_K, GgmlType::of_number(15)->Some_0);
    assert(GgmlType::IQ2_XXS.number() == 16);
    number_is_unique(GgmlType::IQ2_XXS, GgmlType::of_number(16)->Some_0);
    assert(GgmlType::IQ2_XS.number() == 17);
    number_is_unique(GgmlType::IQ2_XS, GgmlType::of_number(17)->Some_0);
    assert(GgmlType::IQ3_XXS.number() == 18);
    number_is_unique(GgmlType::IQ3_XXS, GgmlType::of_number(18)->Some_0);
    assert(GgmlType::IQ1_S.number() == 19);
    number_is_unique(GgmlType::IQ1_S, GgmlType::of_number(19)->Some_0);
    assert(GgmlType::IQ4_NL.number() == 20);
    number_is_unique(GgmlType::IQ4_NL, GgmlType::of_number(20)->Some_0);
    assert(GgmlType::IQ3_S.number() == 21);
    number_is_unique(GgmlType::IQ3_S, GgmlType::of_number(21)->Some_0);
    assert(GgmlType::IQ2_S.number() == 22);
    number_is_unique(GgmlType::IQ2_S, GgmlType::of_number(22)->Some_0);
    assert(GgmlType::IQ4_XS.number() == 23);
    number_is_unique(GgmlType::IQ4_XS, GgmlType::of_number(23)->Some_0);
    assert(GgmlType::I8.number() == 24);
    number_is_unique(GgmlType::I8, GgmlType::of_number(24)->Some_0);
    assert(GgmlType::I16.number() == 25);
    number_is_unique(GgmlType::I16, GgmlType::of_number(25)->Some_0);
    assert(GgmlType::I32.number() == 26);
    number_is_unique(GgmlType::I32, GgmlType::of_number(26)->Some_0);
}

/// A block that the reader counts with is the block of its format: as many bytes
/// and elements as the module of the format unpacks.
pub proof fn blocks_are_those_of_their_formats()
    ensures
        type_size(GgmlType::Q8_0) == quant::q8_0::BYTES_PER_BLOCK,
        type_size(GgmlType::Q2_K) == quant::q2_k::BYTES_PER_BLOCK,
        type_size(GgmlType::Q4_K) == quant::q4_k::BYTES_PER_BLOCK,
        type_size(GgmlType::IQ2_XXS) == quant::iq2_xxs::BYTES_PER_BLOCK,
        type_size(GgmlType::IQ4_NL) == quant::iq4_nl::BYTES_PER_BLOCK,
        type_size(GgmlType::IQ4_XS) == quant::iq4_xs::BYTES_PER_BLOCK,
        type_size(GgmlType::Q8_K) == quant::q8_k::BYTES_PER_BLOCK,
        blck_size(GgmlType::Q8_0) == quant::q8_0::BLOCK_SIZE,
        blck_size(GgmlType::Q2_K) == quant::q2_k::BLOCK_SIZE,
        blck_size(GgmlType::Q4_K) == quant::q4_k::BLOCK_SIZE,
        blck_size(GgmlType::IQ2_XXS) == quant::iq2_xxs::BLOCK_SIZE,
        blck_size(GgmlType::IQ4_NL) == quant::iq4_nl::BLOCK_SIZE,
        blck_size(GgmlType::IQ4_XS) == quant::iq4_xs::BLOCK_SIZE,
        blck_size(GgmlType::Q8_K) == quant::q8_k::BLOCK_SIZE,
{
}

/// A block is its scales and the bits of its elements: for each type the bytes of
/// one block are those of `scales` and of `bits` for each of `elems` elements.
pub proof fn blocks_hold_scales_and_bits(t: GgmlType, elems: nat, scales: nat, bits: nat)
    requires
        t == GgmlType::F32 || t == GgmlType::I32 ==> elems == 1 && scales == 0 && bits == 32,
        t == GgmlType::F16 || t == GgmlType::I16 ==> elems == 1 && scales == 0 && bits == 16,
        t == GgmlType::I8 ==> elems == 1 && scales == 0 && bits == 8,
        t == GgmlType::Q4_0 || t == GgmlType::IQ4_NL ==> elems == 32 && scales == 2 && bits == 4,
        t == GgmlType::Q4_1 ==> elems == 32 && scales == 4 && bits == 4,
        t == GgmlType::Q5_0 ==> elems == 32 && scales == 2 && bits == 5,
        t == GgmlType::Q5_1 ==> elems == 32 && scales == 4 && bits == 5,
        t == GgmlType::Q8_0 ==> elems == 32 && scales == 2 && bits == 8,
        t == GgmlType::Q8_1 ==> elems == 32 && scales == 4 && bits == 8,
        t == GgmlType::Q2_K ==> elems == 256 && scales == 20 && bits == 2,
        t == GgmlType::Q3_K ==> elems == 256 && scales == 14 && bits == 3,
        t == GgmlType::Q4_K ==> elems == 256 && scales == 16 && bits == 4,
        t == GgmlType::Q5_K ==> elems == 256 && scales == 16 && bits == 5,
        t == GgmlType::Q6_K ==> elems == 256 && scales == 18 && bits == 6,
        t == GgmlType::Q8_K ==> elems == 256 && scales == 36 && bits == 8,
        t == GgmlType::IQ1_S ==> elems == 256 && scales == 2 && bits == 1,
        t == GgmlType::IQ2_XXS ==> elems == 256 && scales == 2 && bits == 2,
        t == GgmlType::IQ2_XS ==> elems == 256 && scales == 10 && bits == 2,
        t == GgmlType::IQ2_S ==> elems == 256 && scales == 18 && bits == 2,
        t == GgmlType::IQ3_XXS ==> elems == 256 && scales == 2 && bits == 3,
        t == GgmlType::IQ3_S ==> elems == 256 && scales == 14 && bits == 3,
        t == GgmlType::IQ4_XS ==> elems == 256 && scales == 8 && bits == 4,
    ensures
        blck_size(t) == elems,
        8 * type_size(t) == 8 * scales + elems * bits,
{
}

/// Elements that fill `k` blocks take the bytes of `k` blocks; others take as many
/// blocks as hold them, and no more.
pub proof fn elements_take_whole_blocks(n: nat, t: GgmlType, k: nat)
    ensures
        n == k * blck_size(t) ==> nbytes(n, t) == k * type_size(t),
        nbytes(n, t) == k * type_size(t) ==> n <= k * blck_size(t),
        nbytes(n, t) == k * type_size(t) && k > 0 ==> (k - 1) * blck_size(t) < n,
{
    let b = blck_size(t) as int;
    let size = type_size(t) as int;
    let m = n + b - 1;
    let q = m / b;
    assert(b > 0 && size > 0);
    assert(m == b * q + m % b && 0 <= m % b < b) by (nonlinear_arith)
        requires
            b > 0,
            q == m / b,
    ;
    assert(nbytes(n, t) == q * size);
    if n == k * b {
        assert(q == k) by (nonlinear_arith)
            requires
                b > 0,
                k * b + b - 1 == b * q + m % b,
                0 <= m % b < b,
        ;
    }
    if q * size == k * size {
        assert(q == k) by (nonlinear_arith)
            requires
                size > 0,
                q * size == k * size,
        ;
        assert(b * q == k * b && (k - 1) * b == k * b - b) by (nonlinear_arith)
            requires
                q == k,
        ;
    }
}

/// The number of elements is the product of the dimensions.
pub proof fn dimensions_multiply(dims: Seq<u64>, d: u64)
    ensures
        elem_count(Seq::empty()) == Some(1usize),
        elem_count(dims.push(d)) matches Some(n) ==> elem_count(dims) is Some && n == elem_count(
            dims,
        )->Some_0 * d,
        elem_count(dims) is Some && elem_count(dims)->Some_0 * d <= usize::MAX && d <= usize::MAX
            ==> elem_count(dims.push(d)) is Some,
{
    assert(dims.push(d).drop_last() =~= dims);
}

/// A file that can be read starts with the letters GGUF, its version, which is 2
/// or 3, the number of its tensors and the number of its metadata; the metadata
/// follow, and then the tensors. Its data start at a multiple of the alignment.
pub proof fn a_file_starts_with_its_counts(s: Seq<u8>)
    requires
        content_of(s) is Ok,
    ensures
        s.len() >= 24,
        s[0] == 0x47 && s[1] == 0x47 && s[2] == 0x55 && s[3] == 0x46,
        s[4] == 2 || s[4] == 3,
        s[5] == 0 && s[6] == 0 && s[7] == 0,
        ({
            let c = content_of(s)->Ok_0;
            let n_tensors = le::le64(s, 8) as nat;
            let n_meta = le::le64(s, 16) as nat;
            &&& n_tensors <= 1048576
            &&& n_meta <= 1048576
            &&& metadata_at(s, 24, n_meta) matches Ok((metadata, from)) && {
                &&& c.metadata == metadata
                &&& tensors_at(s, from, n_tensors) matches Ok((tensors, end)) && {
                    &&& c.tensors == tensors
                    &&& end <= c.data_offset
                    &&& c.data_offset - end < alignment_of(metadata)
                    &&& c.data_offset % alignment_of(metadata) as int == 0
                }
            }
            &&& c.file_len == s.len()
        }),
{
    le::later_bytes_weigh_more(s, 0);
    le::bytes32_of_le32(s, 0);
    le::bytes32_of_le32(s, 4);
    le::bytes64_of_le64(s, 8);
    le::bytes64_of_le64(s, 16);
    let n_meta = le::le64(s, 16) as nat;
    let n_tensors = le::le64(s, 8) as nat;
    let (metadata, from) = metadata_at(s, 24, n_meta)->Ok_0;
    let (tensors, end) = tensors_at(s, from, n_tensors)->Ok_0;
    metadata_go_forward(s, 24, n_meta);
    tensors_go_forward(s, from, n_tensors);
    data_start_is_aligned(end, alignment_of(metadata) as int);
}

proof fn value_goes_forward(s: Seq<u8>, pos: int, ty: u32, depth: nat)
    requires
        value_at(s, pos, ty, depth) is Ok,
    ensures
        value_at(s, pos, ty, depth)->Ok_0.1 >= pos,
    decreases 17 - depth, 0nat,
{
    if ty == 9 {
        let inner = u32_at(s, pos)->Ok_0.0;
        let len = u64_at(s, pos + 4)->Ok_0.0;
        values_go_forward(s, pos + 12, inner, depth + 1, len as nat);
    }
}

proof fn values_go_forward(s: Seq<u8>, pos: int, ty: u32, depth: nat, n: nat)
    requires
        values_at(s, pos, ty, depth, n) is Ok,
        depth <= 17,
    ensures
        values_at(s, pos, ty, depth, n)->Ok_0.1 >= pos,
    decreases 17 - depth, n + 1,
{
    if n > 0 {
        values_go_forward(s, pos, ty, depth, (n - 1) as nat);
        let at = values_at(s, pos, ty, depth, (n - 1) as nat)->Ok_0.1;
        value_goes_forward(s, at, ty, depth);
    }
}

proof fn metadata_go_forward(s: Seq<u8>, pos: int, n: nat)
    requires
        metadata_at(s, pos, n) is Ok,
    ensures
        metadata_at(s, pos, n)->Ok_0.1 >= pos,
    decreases n,
{
    if n > 0 {
        metadata_go_forward(s, pos, (n - 1) as nat);
        let at = metadata_at(s, pos, (n - 1) as nat)->Ok_0.1;
        let p1 = string_at(s, at)->Ok_0.1;
        let (ty, p2) = u32_at(s, p1)->Ok_0;
        value_goes_forward(s, p2, ty, 0);
    }
}

proof fn tensors_go_forward(s: Seq<u8>, pos: int, n: nat)
    requires
        tensors_at(s, pos, n) is Ok,
    ensures
        tensors_at(s, pos, n)->Ok_0.1 >= pos,
    decreases n,
{
    if n > 0 {
        tensors_go_forward(s, pos, (n - 1) as nat);
        let at = tensors_at(s, pos, (n - 1) as nat)->Ok_0.1;
        a_tensor_is_described_in_order(s, at, 0);
    }
}

/// A number or a truth value is read by the number of its type, lowest byte first;
/// signed ones take half of the patterns for negative numbers.
pub proof fn plain_values_by_their_type(s: Seq<u8>, pos: int, depth: nat)
    requires
        0 <= pos,
        pos + 8 <= s.len(),
        depth <= 16,
    ensures
        value_at(s, pos, 0, depth) == Ok::<_, GgufErrorView>((ValueView::U8(s[pos]), pos + 1)),
        value_at(s, pos, 1, depth) matches Ok((ValueView::I8(v), end)) && end == pos + 1 && (v
            == s[pos] || v == s[pos] - 256),
        value_at(s, pos, 2, depth) matches Ok((ValueView::U16(v), end)) && end == pos + 2 && v
            == s[pos] + 256 * s[pos + 1],
        value_at(s, pos, 3, depth) matches Ok((ValueView::I16(v), end)) && end == pos + 2 && (v
            == s[pos] + 256 * s[pos + 1] || v == s[pos] + 256 * s[pos + 1] - 65536),
        value_at(s, pos, 4, depth) matches Ok((ValueView::U32(v), end)) && end == pos + 4 && v
            == le::le32(s, pos),
        value_at(s, pos, 5, depth) matches Ok((ValueView::I32(v), end)) && end == pos + 4 && (v
            == le::le32(s, pos) || v == le::le32(s, pos) - 0x1_0000_0000),
        value_at(s, pos, 6, depth) matches Ok((ValueView::F32(v), end)) && end == pos + 4 && v
            == le::le32(s, pos),
        value_at(s, pos, 7, depth) == Ok::<_, GgufErrorView>(
            (ValueView::Bool(s[pos] != 0), pos + 1),
        ),
        value_at(s, pos, 10, depth) matches Ok((ValueView::U64(v), end)) && end == pos + 8 && v
            == le::le64(s, pos),
        value_at(s, pos, 11, depth) matches Ok((ValueView::I64(v), end)) && end == pos + 8 && (v
            == le::le64(s, pos) || v == le::le64(s, pos) - 0x1_0000_0000_0000_0000),
        value_at(s, pos, 12, depth) matches Ok((ValueView::F64(v), end)) && end == pos + 8 && v
            == le::le64(s, pos),
        forall|ty: u32| ty > 12 ==> #[trigger] value_at(s, pos, ty, depth) == Err::<
            (ValueView, int),
            GgufErrorView,
        >(GgufErrorView::ValueType(ty)),
{
    le::bytes32_of_le32(s, pos);
    le::bytes64_of_le64(s, pos);
}

/// A string is its length in bytes, as a 64-bit number, and its bytes. It is read
/// if it is no longer than a mebibyte and lies within the file.
pub proof fn a_string_is_its_length_and_its_bytes(s: Seq<u8>, pos: int)
    requires
        0 <= pos,
        pos + 8 <= s.len(),
    ensures
        ({
            let n = le::le64(s, pos);
            &&& string_at(s, pos) is Ok <==> n <= 1048576 && pos + 8 + n <= s.len()
            &&& string_at(s, pos) matches Ok((t, end)) ==> end == pos + 8 + n && t == utf8::lossy(
                s.subrange(pos + 8, end),
            )
        }),
{
    le::bytes64_of_le64(s, pos);
}

/// A value of type 8 is a string. One of type 9 is an array: the type of its
/// entries, their number, and the entries.
pub proof fn texts_and_arrays(s: Seq<u8>, pos: int, depth: nat)
    requires
        0 <= pos,
        pos + 12 <= s.len(),
        depth <= 16,
    ensures
        value_at(s, pos, 8, depth) matches Ok((v, end)) ==> string_at(s, pos) matches Ok((t, at))
            && v == ValueView::Text(t) && end == at,
        value_at(s, pos, 9, depth) matches Ok((v, end)) ==> {
            let n = le::le64(s, pos + 4);
            &&& n <= 1048576
            &&& values_at(s, pos + 12, le::le32(s, pos) as u32, depth + 1, n as nat) == Ok::<
                (Seq<ValueView>, int),
                GgufErrorView,
            >((v->Array_0, end))
            &&& v is Array
        },
        value_at(s, pos, 9, 17) is Err,
{
    le::bytes32_of_le32(s, pos);
    le::bytes64_of_le64(s, pos + 4);
}

/// The entries of an array follow each other.
pub proof fn entries_follow_each_other(s: Seq<u8>, pos: int, ty: u32, depth: nat, n: nat)
    requires
        values_at(s, pos, ty, depth, n + 1) is Ok,
        depth <= 17,
    ensures
        values_at(s, pos, ty, depth, 0) == Ok::<_, GgufErrorView>(
            (Seq::<ValueView>::empty(), pos),
        ),
        ({
            let (a, end) = values_at(s, pos, ty, depth, n + 1)->Ok_0;
            &&& a.len() == n + 1
            &&& values_at(s, pos, ty, depth, n) matches Ok((b, at)) && b == a.drop_last()
                && value_at(s, at, ty, depth) == Ok::<_, GgufErrorView>((a.last(), end))
        }),
    decreases n,
{
    if n > 0 {
        entries_follow_each_other(s, pos, ty, depth, (n - 1) as nat);
    }
    let (b, at) = values_at(s, pos, ty, depth, n)->Ok_0;
    let (v, end) = value_at(s, at, ty, depth)->Ok_0;
    assert(b.push(v).drop_last() =~= b);
}

/// The description of a tensor is its name, the number of its dimensions, at most
/// eight, the dimensions, its type, and where its data start, in this order.
pub proof fn a_tensor_is_described_in_order(s: Seq<u8>, pos: int, k: int)
    requires
        info_at(s, pos) is Ok,
    ensures
        ({
            let (info, end) = info_at(s, pos)->Ok_0;
            let (name, at) = string_at(s, pos)->Ok_0;
            let n = le::le32(s, at);
            &&& string_at(s, pos) is Ok
            &&& at >= pos
            &&& info.name == name
            &&& n <= 8
            &&& info.dims.len() == n
            &&& 0 <= k < n ==> info.dims[k] == le::le64(s, at + 4 + 8 * k) as u64
            &&& info.dtype.number() == le::le32(s, at + 4 + 8 * n) as u32
            &&& info.offset == le::le64(s, at + 8 + 8 * n) as u64
            &&& end == at + 16 + 8 * n
            &&& end <= s.len()
        }),
{
    let at = string_at(s, pos)->Ok_0.1;
    let n = u32_at(s, at)->Ok_0.0;
    dims_follow_each_other(s, at + 4, n as nat, k);
    if at >= 0 {
        le::bytes32_of_le32(s, at);
    }
}

proof fn dims_follow_each_other(s: Seq<u8>, pos: int, n: nat, k: int)
    requires
        dims_at(s, pos, n) is Ok,
    ensures
        dims_at(s, pos, n)->Ok_0.0.len() == n,
        dims_at(s, pos, n)->Ok_0.1 == pos + 8 * n,
        0 <= k < n ==> dims_at(s, pos, n)->Ok_0.0[k] == le::le64(s, pos + 8 * k) as u64,
    decreases n,
{
    if n > 0 {
        dims_follow_each_other(s, pos, (n - 1) as nat, k);
    }
}

/// Tensors are found by their names; of two with the same name the last one
/// counts, and the others stay as they were.
pub proof fn a_repeated_tensor_is_the_last(s: Seq<u8>, pos: int, n: nat, other: Seq<char>)
    requires
        tensors_at(s, pos, n + 1) is Ok,
    ensures
        tensors_at(s, pos, 0) == Ok::<_, GgufErrorView>(
            (Map::<Seq<char>, InfoView>::empty(), pos),
        ),
        ({
            let (before, at) = tensors_at(s, pos, n)->Ok_0;
            let (after, end) = tensors_at(s, pos, n + 1)->Ok_0;
            &&& tensors_at(s, pos, n) is Ok
            &&& info_at(s, at) matches Ok((info, to)) && to == end && after.contains_key(info.name)
                && after[info.name] == info && (other != info.name ==> {
                &&& after.contains_key(other) == before.contains_key(other)
                &&& before.contains_key(other) ==> after[other] == before[other]
            })
        }),
{
}

/// Without a usable entry the alignment is 32, and otherwise what the entry says.
pub proof fn alignment_is_what_the_file_says(m: Map<Seq<char>, ValueView>, a: u64)
    ensures
        !m.contains_key("general.alignment"@) ==> alignment_of(m) == 32,
        m.contains_key("general.alignment"@) && m["general.alignment"@] == ValueView::U64(a)
            ==> alignment_of(m) == a,
        m.contains_key("general.alignment"@) && a <= u32::MAX && m["general.alignment"@]
            == ValueView::U32(a as u32) ==> alignment_of(m) == a,
        m.contains_key("general.alignment"@) && m["general.alignment"@] is Text ==> alignment_of(m)
            == 32,
{
}

/// Whole numbers are taken for each other where they fit, and numbers with a
/// fraction for nothing else.
pub proof fn numbers_are_taken_where_they_fit(v: ValueView, x: u32, y: u64)
    ensures
        ValueView::U32(x).as_u32() == Some(x),
        ValueView::U32(x).as_u64() == Some(x as u64),
        ValueView::U64(y).as_u64() == Some(y),
        y <= u32::MAX ==> ValueView::U64(y).as_u32() == Some(y as u32),
        y > u32::MAX ==> ValueView::U64(y).as_u32() is None,
        ValueView::F32(x).as_f32() == Some(x),
        v.as_f32() is Some <==> v is F32 || v is F64,
        v.as_u64() is Some <==> v is U32 || v is U64,
        v.as_u32() is Some ==> v is U32 || v is U64,
        v.as_u32() is Some ==> v.as_u64() == Some(v.as_u32()->Some_0 as u64),
{
}

/// One, two or three dimensions multiply to the number of elements.
pub proof fn few_dimensions_multiply(dims: Seq<u64>)
    requires
        elem_count(dims) is Some,
    ensures
        dims.len() == 1 ==> elem_count(dims)->Some_0 == dims[0],
        dims.len() == 2 ==> elem_count(dims)->Some_0 == dims[0] * dims[1],
        dims.len() == 3 ==> elem_count(dims)->Some_0 == dims[0] * dims[1] * dims[2],
    decreases dims.len(),
{
    if dims.len() == 1 {
        let p = elem_count(dims.drop_last())->Some_0;
        assert(p * dims.last() == dims.last()) by (nonlinear_arith)
            requires
                p == 1,
        ;
    } else if dims.len() == 2 || dims.len() == 3 {
        few_dimensions_multiply(dims.drop_last());
    }
}

/// A file whose counts, metadata and tensors can be read is read, unless it asks
/// for an alignment of zero.
pub proof fn a_file_that_can_be_read_is_read(s: Seq<u8>)
    requires
        s.len() >= 24,
        s[0] == 0x47 && s[1] == 0x47 && s[2] == 0x55 && s[3] == 0x46,
        s[4] == 2 || s[4] == 3,
        s[5] == 0 && s[6] == 0 && s[7] == 0,
        le::le64(s, 8) <= 1048576,
        le::le64(s, 16) <= 1048576,
        metadata_at(s, 24, le::le64(s, 16) as nat) matches Ok((m, from)) && alignment_of(m) > 0
            && tensors_at(s, from, le::le64(s, 8) as nat) is Ok,
    ensures
        content_of(s) is Ok,
{
    le::later_bytes_weigh_more(s, 0);
    le::bytes32_of_le32(s, 0);
    le::bytes32_of_le32(s, 4);
    le::bytes64_of_le64(s, 8);
    le::bytes64_of_le64(s, 16);
}

/// The data of a tensor are found wherever the file has room for them.
pub proof fn data_that_fit_are_found(c: ContentView, file: Seq<u8>, name: Seq<char>, n: usize)
    requires
        c.tensors.contains_key(name),
        c.data_offset >= 0,
        elem_count(c.tensors[name].dims) == Some(n),
        file.len() <= usize::MAX,
        c.data_offset + c.tensors[name].offset + nbytes(n as nat, c.tensors[name].dtype)
            <= file.len(),
    ensures
        bytes_of(c, file, name) is Ok,
{
}

/// A value of fixed size is read exactly if all of its bytes are there.
pub proof fn values_must_be_complete(s: Seq<u8>, pos: int, ty: u32, depth: nat, size: int)
    requires
        0 <= pos <= s.len(),
        depth <= 16,
        ty == 0 || ty == 1 || ty == 7 ==> size == 1,
        ty == 2 || ty == 3 ==> size == 2,
        ty == 4 || ty == 5 || ty == 6 ==> size == 4,
        ty == 10 || ty == 11 || ty == 12 ==> size == 8,
        ty <= 12 && ty != 8 && ty != 9,
    ensures
        pos + size <= s.len() ==> (value_at(s, pos, ty, depth) matches Ok((_, end)) && end == pos
            + size),
        pos + size > s.len() ==> value_at(s, pos, ty, depth) == Err::<
            (ValueView, int),
            GgufErrorView,
        >(GgufErrorView::Truncated),
{
}

/// A string that is too long or reaches beyond the file is refused, and so is an
/// array with too many entries or inside too many others.
pub proof fn sizes_are_limited(s: Seq<u8>, pos: int, ty: u32, depth: nat)
    requires
        0 <= pos,
        pos + 12 <= s.len(),
    ensures
        ({
            let n = le::le64(s, pos);
            let m = le::le64(s, pos + 4);
            &&& n > 1048576 ==> string_at(s, pos) == Err::<(Seq<char>, int), GgufErrorView>(
                GgufErrorView::StringLen(n as u64),
            )
            &&& n <= 1048576 && pos + 8 + n > s.len() ==> string_at(s, pos) == Err::<
                (Seq<char>, int),
                GgufErrorView,
            >(GgufErrorView::StringPastEnd)
            &&& depth <= 16 && m > 1048576 ==> value_at(s, pos, 9, depth) == Err::<
                (ValueView, int),
                GgufErrorView,
            >(GgufErrorView::ArrayLen(m as u64))
            &&& depth > 16 ==> value_at(s, pos, ty, depth) == Err::<
                (ValueView, int),
                GgufErrorView,
            >(GgufErrorView::ArrayDepth)
        }),
{
    le::bytes64_of_le64(s, pos);
    le::bytes64_of_le64(s, pos + 4);
}

/// What is wrong first with the start of a file is reported, as it was found.
pub proof fn a_wrong_start_is_reported(s: Seq<u8>)
    requires
        s.len() >= 24,
    ensures
        ({
            let magic = le::le32(s, 0);
            let version = le::le32(s, 4);
            let n_tensors = le::le64(s, 8);
            let n_meta = le::le64(s, 16);
            let right = 0x47 + 256 * 0x47 + 65536 * 0x55 + 16777216 * 0x46;
            &&& magic != right ==> content_of(s) == Err::<ContentView, GgufErrorView>(
                GgufErrorView::Magic(magic as u32),
            )
            &&& magic == right && !(2 <= version <= 3) ==> content_of(s) == Err::<
                ContentView,
                GgufErrorView,
            >(GgufErrorView::Version(version as u32))
            &&& magic == right && 2 <= version <= 3 && n_tensors > 1048576 ==> content_of(s)
                == Err::<ContentView, GgufErrorView>(
                GgufErrorView::TensorCount(n_tensors as u64),
            )
            &&& magic == right && 2 <= version <= 3 && n_tensors <= 1048576 && n_meta > 1048576
                ==> content_of(s) == Err::<ContentView, GgufErrorView>(
                GgufErrorView::MetadataCount(n_meta as u64),
            )
        }),
{
    le::bytes32_of_le32(s, 0);
    le::bytes32_of_le32(s, 4);
    le::bytes64_of_le64(s, 8);
    le::bytes64_of_le64(s, 16);
}

/// A tensor with more than eight dimensions, or of a type without a name, is
/// refused, with what was found.
pub proof fn odd_tensors_are_refused(s: Seq<u8>, pos: int)
    requires
        0 <= pos,
        string_at(s, pos) is Ok,
    ensures
        ({
            let (name, at) = string_at(s, pos)->Ok_0;
            let n = le::le32(s, at);
            let t = le::le32(s, at + 4 + 8 * n);
            &&& at + 4 <= s.len() && n > 8 ==> info_at(s, pos) == Err::<
                (InfoView, int),
                GgufErrorView,
            >(GgufErrorView::Dims { name, n: n as u32 })
            &&& n <= 8 && at + 8 + 8 * n <= s.len() && (t == 4 || t == 5 || t > 26) ==> info_at(
                s,
                pos,
            ) == Err::<(InfoView, int), GgufErrorView>(GgufErrorView::TensorType(t as u32))
        }),
{
    let (name, at) = string_at(s, pos)->Ok_0;
    if at + 4 <= s.len() {
        le::bytes32_of_le32(s, at);
        let n = le::le32(s, at);
        if n <= 8 && at + 8 + 8 * n <= s.len() {
            dims_can_be_read(s, at + 4, n as nat);
            dims_follow_each_other(s, at + 4, n as nat, 0);
            le::bytes32_of_le32(s, at + 4 + 8 * n);
            types_have_fixed_numbers(le::le32(s, at + 4 + 8 * n) as u32);
        }
    }
}

proof fn dims_can_be_read(s: Seq<u8>, pos: int, n: nat)
    requires
        pos + 8 * n <= s.len(),
    ensures
        dims_at(s, pos, n) is Ok,
    decreases n,
{
    if n > 0 {
        dims_can_be_read(s, pos, (n - 1) as nat);
        dims_follow_each_other(s, pos, (n - 1) as nat, 0);
    }
}

/// Data that reach beyond the file are refused, and so is a name without a tensor.
pub proof fn data_beyond_the_file_are_refused(
    c: ContentView,
    file: Seq<u8>,
    name: Seq<char>,
    n: usize,
)
    requires
        c.data_offset >= 0,
    ensures
        !c.tensors.contains_key(name) ==> bytes_of(c, file, name) == Err::<
            Seq<u8>,
            TensorErrorKind,
        >(TensorErrorKind::NotFound),
        c.tensors.contains_key(name) && elem_count(c.tensors[name].dims) == Some(n) && ({
            let end = c.data_offset + c.tensors[name].offset + nbytes(
                n as nat,
                c.tensors[name].dtype,
            );
            file.len() < end <= usize::MAX
        }) ==> bytes_of(c, file, name) == Err::<Seq<u8>, TensorErrorKind>(
            TensorErrorKind::PastEnd,
        ),
        c.tensors.contains_key(name) && c.data_offset + c.tensors[name].offset <= usize::MAX
            && elem_count(c.tensors[name].dims) is None ==> bytes_of(c, file, name) == Err::<
            Seq<u8>,
            TensorErrorKind,
        >(TensorErrorKind::DimsOverflow),
{
}

/// A double-precision number is taken as the nearest single-precision one.
pub proof fn double_precision_is_narrowed(y: u64)
    ensures
        ValueView::F64(y).as_f32() == Some(float::narrowed(y) as u32),
{
}

/// The names of the types.
pub proof fn types_have_these_names()
    ensures
        GgmlType::F32.name_text() == "F32"@,
        GgmlType::F16.name_text() == "F16"@,
        GgmlType::Q4_0.name_text() == "Q4_0"@,
        GgmlType::Q4_1.name_text() == "Q4_1"@,
        GgmlType::Q5_0.name_text() == "Q5_0"@,
        GgmlType::Q5_1.name_text() == "Q5_1"@,
        GgmlType::Q8_0.name_text() == "Q8_0"@,
        GgmlType::Q8_1.name_text() == "Q8_1"@,
        GgmlType::Q2_K.name_text() == "Q2_K"@,
        GgmlType::Q3_K.name_text() == "Q3_K"@,
        GgmlType::Q4_K.name_text() == "Q4_K"@,
        GgmlType::Q5_K.name_text() == "Q5_K"@,
        GgmlType::Q6_K.name_text() == "Q6_K"@,
        GgmlType::Q8_K.name_text() == "Q8_K"@,
        GgmlType::IQ2_XXS.name_text() == "IQ2_XXS"@,
        GgmlType::IQ2_XS.name_text() == "IQ2_XS"@,
        GgmlType::IQ3_XXS.name_text() == "IQ3_XXS"@,
        GgmlType::IQ1_S.name_text() == "IQ1_S"@,
        GgmlType::IQ4_NL.name_text() == "IQ4_NL"@,
        GgmlType::IQ3_S.name_text() == "IQ3_S"@,
        GgmlType::IQ2_S.name_text() == "IQ2_S"@,
        GgmlType::IQ4_XS.name_text() == "IQ4_XS"@,
        GgmlType::I8.name_text() == "I8"@,
        GgmlType::I16.name_text() == "I16"@,
        GgmlType::I32.name_text() == "I32"@,
{
}

/// The numbers with a fraction in an array are those of its entries, in their order.
pub proof fn fractions_come_in_order(a: Seq<ValueView>, n: nat, v: Bits32, w: u64)
    requires
        n < a.len(),
    ensures
        ValueView::F32(v).fractions() == seq![Fraction::Single(v)],
        ValueView::F64(w).fractions() == seq![Fraction::Double(w)],
        fractions_of(a, 0).len() == 0,
        fractions_of(a, n + 1) == fractions_of(a, n) + a[n as int].fractions(),
        ValueView::Array(a).fractions() == fractions_of(a, a.len()),
        a[n as int] is U32 || a[n as int] is Text || a[n as int] is Bool ==> a[n as int].fractions(
        ).len() == 0,
{
}

/// A value is written as its type and the value in brackets; the entries of an array
/// stand between commas.
pub proof fn values_are_written_with_their_type(
    a: Seq<ValueView>,
    spelled: Seq<Seq<char>>,
    k: int,
    n: nat,
    x: u32,
    y: u64,
    z: i32,
    t: Seq<char>,
)
    requires
        0 < n < a.len(),
    ensures
        ValueView::U32(x).form(spelled, k) == "U32("@ + text::decimal(x as nat) + ")"@,
        ValueView::U64(y).form(spelled, k) == "U64("@ + text::decimal(y as nat) + ")"@,
        ValueView::I32(z).form(spelled, k) == "I32("@ + text::signed_decimal(z as int) + ")"@,
        ValueView::F32(x).form(spelled, k) == "F32("@ + spelled[k] + ")"@,
        ValueView::F64(y).form(spelled, k) == "F64("@ + spelled[k] + ")"@,
        ValueView::Bool(true).form(spelled, k) == "Bool(true)"@,
        ValueView::Bool(false).form(spelled, k) == "Bool(false)"@,
        ValueView::Text(t).form(spelled, k) == "String("@ + text::quoted_form(t) + ")"@,
        ValueView::Array(a).form(spelled, k) == "Array(["@ + forms(a, a.len(), spelled, k) + "])"@,
        forms(a, 1, spelled, k) == a[0].form(spelled, k),
        forms(a, n + 1, spelled, k) == forms(a, n, spelled, k) + ", "@ + a[n as int].form(
            spelled,
            k + fractions_of(a, n).len(),
        ),
{
    reveal_with_fuel(forms, 2);
    reveal_with_fuel(fractions_of, 2);
}

} // verus!
