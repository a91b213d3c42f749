use ds4::gguf::{
    ggml_blck_size, ggml_tensor_nbytes, ggml_type_size, GgmlType, GgufContent, GgufMmap,
    TensorErrorKind, Value, DEFAULT_ALIGNMENT, GGUF_MAGIC, MAX_GGUF_ARRAY_LEN,
    MAX_GGUF_METADATA_KV_COUNT, MAX_GGUF_STRING_LEN, MAX_GGUF_TENSOR_COUNT,
};

// A file under construction.
struct GgufBuilder {
    buf: Vec<u8>,
}

impl GgufBuilder {
    fn new() -> Self {
        Self { buf: Vec::new() }
    }

    fn raw_u32(&mut self, v: u32) -> &mut Self {
        self.buf.extend_from_slice(&v.to_le_bytes());
        self
    }

    fn raw_u64(&mut self, v: u64) -> &mut Self {
        self.buf.extend_from_slice(&v.to_le_bytes());
        self
    }

    fn raw_str(&mut self, s: &str) -> &mut Self {
        self.raw_u64(s.len() as u64);
        self.buf.extend_from_slice(s.as_bytes());
        self
    }

    fn header(&mut self, tensor_count: u64, kv_count: u64) -> &mut Self {
        self.raw_u32(GGUF_MAGIC);
        self.raw_u32(3);
        self.raw_u64(tensor_count);
        self.raw_u64(kv_count);
        self
    }

    fn kv_u32(&mut self, key: &str, value: u32) -> &mut Self {
        self.raw_str(key);
        self.raw_u32(4); // type U32
        self.raw_u32(value);
        self
    }

    fn kv_u64(&mut self, key: &str, value: u64) -> &mut Self {
        self.raw_str(key);
        self.raw_u32(10); // type U64
        self.raw_u64(value);
        self
    }

    fn kv_string(&mut self, key: &str, value: &str) -> &mut Self {
        self.raw_str(key);
        self.raw_u32(8); // type String
        self.raw_str(value);
        self
    }

    fn kv_bool(&mut self, key: &str, value: bool) -> &mut Self {
        self.raw_str(key);
        self.raw_u32(7); // type Bool
        self.buf.push(u8::from(value));
        self
    }

    fn tensor_info(&mut self, name: &str, dtype: u32, dims: &[u64], offset: u64) -> &mut Self {
        self.raw_str(name);
        self.raw_u32(dims.len() as u32);
        for d in dims {
            self.raw_u64(*d);
        }
        self.raw_u32(dtype);
        self.raw_u64(offset);
        self
    }

    fn align_to(&mut self, alignment: u64) -> &mut Self {
        let pos = self.buf.len() as u64;
        let padded = if pos == 0 {
            0
        } else {
            ((pos - 1) / alignment + 1) * alignment
        };
        self.buf.resize(padded as usize, 0);
        self
    }

    fn raw_bytes(&mut self, b: &[u8]) -> &mut Self {
        self.buf.extend_from_slice(b);
        self
    }

    fn build(self) -> Vec<u8> {
        self.buf
    }
}

#[test]
fn parse_rejects_bad_magic() {
    let mut b = GgufBuilder::new();
    b.raw_u32(0xDEADBEEF).raw_u32(3).raw_u64(0).raw_u64(0);
    let err = GgufContent::parse(&b.build()).err().unwrap();
    assert!(err.message().contains("Invalid GGUF magic"));
}

#[test]
fn parse_rejects_unsupported_version() {
    let mut b = GgufBuilder::new();
    b.raw_u32(GGUF_MAGIC).raw_u32(1).raw_u64(0).raw_u64(0);
    let err = GgufContent::parse(&b.build()).err().unwrap();
    assert!(err.message().contains("Unsupported GGUF version"));
}

#[test]
fn parse_rejects_too_many_tensors() {
    let mut b = GgufBuilder::new();
    b.header((MAX_GGUF_TENSOR_COUNT + 1), 0);
    let err = GgufContent::parse(&b.build()).err().unwrap();
    assert!(err.message().contains("Tensor count too large"));
}

#[test]
fn parse_rejects_too_many_kv() {
    let mut b = GgufBuilder::new();
    b.header(0, (MAX_GGUF_METADATA_KV_COUNT + 1));
    let err = GgufContent::parse(&b.build()).err().unwrap();
    assert!(err.message().contains("Metadata KV count too large"));
}

#[test]
fn parse_rejects_zero_alignment() {
    let mut b = GgufBuilder::new();
    b.header(0, 1).kv_u64("general.alignment", 0);
    let err = GgufContent::parse(&b.build()).err().unwrap();
    assert!(err.message().contains("Invalid alignment"));
}

#[test]
fn parse_rejects_bad_dtype() {
    let mut b = GgufBuilder::new();
    b.header(1, 0).tensor_info("bad", 9999, &[4], 0);
    let err = GgufContent::parse(&b.build()).err().unwrap();
    assert!(err.message().contains("Unknown GGML type"));
}

#[test]
fn parse_rejects_too_many_dims() {
    let mut b = GgufBuilder::new();
    b.raw_u32(GGUF_MAGIC).raw_u32(3).raw_u64(1).raw_u64(0);
    b.raw_str("t").raw_u32(9); // 9 dims — over the 8 limit
    let err = GgufContent::parse(&b.build()).err().unwrap();
    assert!(err.message().contains("dims, expected <=8"));
}

#[test]
fn parse_rejects_oversized_string() {
    let mut b = GgufBuilder::new();
    b.raw_u32(GGUF_MAGIC).raw_u32(3).raw_u64(0).raw_u64(1);
    b.raw_u64((MAX_GGUF_STRING_LEN + 1) ); // key length
    let err = GgufContent::parse(&b.build()).err().unwrap();
    assert!(err.message().contains("String too long"));
}

#[test]
fn parse_rejects_string_past_eof() {
    let mut b = GgufBuilder::new();
    b.raw_u32(GGUF_MAGIC).raw_u32(3).raw_u64(0).raw_u64(1);
    b.raw_u64(100); // claim 100 bytes for the key, but only a few follow
    b.raw_bytes(b"abc");
    let err = GgufContent::parse(&b.build()).err().unwrap();
    // Either the range check or read_exact can fire depending on whether
    // enough bytes are present to even try the slice. Accept both.
    let msg = err.message();
    assert!(
        msg.contains("extends past end of file") || msg.contains("failed to fill whole buffer")
    );
}

#[test]
fn parse_reads_all_value_types() {
    let mut b = GgufBuilder::new();
    b.header(0, 4)
        .kv_u32("u32", 42)
        .kv_u64("u64", 0xFFFF_FFFF_FFFF)
        .kv_string("str", "hello")
        .kv_bool("flag", true);

    let c = GgufContent::parse(&b.build()).unwrap();
    assert_eq!(c.metadata.get("u32").unwrap().to_u32(), Some(42));
    assert_eq!(
        c.metadata.get("u64").unwrap().to_u64(),
        Some(0xFFFF_FFFF_FFFF)
    );
    assert_eq!(
        c.metadata.get("str").unwrap().to_string_val(),
        Some("hello")
    );
    assert_eq!(c.metadata.get("flag").unwrap().to_bool(), Some(true));
}

#[test]
fn parse_with_tensor_and_read_data() {
    // Build a GGUF with one F32 tensor of shape [4] = 16 bytes.
    let mut b = GgufBuilder::new();
    b.header(1, 1)
        .kv_u32("general.alignment", 32)
        .tensor_info("t", 0, &[4], 0);
    b.align_to(32);
    // 4 × f32 values
    for v in [1.0f32, 2.0, 3.0, 4.0] {
        b.raw_bytes(&v.to_le_bytes());
    }
    let bytes = b.build();

    let c = GgufContent::parse(&bytes).unwrap();
    assert_eq!(c.tensors.names().len(), 1);
    let info = c.tensors.get("t").unwrap();
    assert_eq!(info.dtype, GgmlType::F32);
    assert_eq!(info.dims, vec![4]);
    assert_eq!(info.offset, 0);

    // Wire up a fake GgufMmap via the public tensor_data path.
    // GgufMmap wraps an owned Mmap; to test tensor_data we need a real file.
    // Easier: validate data_offset + range math manually.
    let start = c.data_offset as usize;
    let slice = &bytes[start..start + 16];
    let mut vs = [0f32; 4];
    for (i, v) in vs.iter_mut().enumerate() {
        *v = f32::from_le_bytes(slice[i * 4..(i + 1) * 4].try_into().unwrap());
    }
    assert_eq!(vs, [1.0, 2.0, 3.0, 4.0]);
}

#[test]
fn parse_respects_custom_alignment() {
    let mut b = GgufBuilder::new();
    b.header(0, 1).kv_u64("general.alignment", 64);
    let bytes = b.build();
    let c = GgufContent::parse(&bytes).unwrap();
    assert_eq!(c.data_offset % 64, 0);
    assert!(c.data_offset >= bytes.len() as u64);
    assert!(c.data_offset < bytes.len() as u64 + 64);
}

#[test]
fn value_accessors() {
    assert_eq!(Value::U32(7).to_u32(), Some(7));
    assert_eq!(Value::U64(7).to_u32(), Some(7));
    assert_eq!(Value::U64(u64::MAX).to_u32(), None); // truncation rejected
    assert_eq!(Value::U32(7).to_u64(), Some(7));
    assert_eq!(Value::U64(9).to_u64(), Some(9));
    assert_eq!(Value::F32(1.5f32.to_bits()).to_f32(), Some(1.5f32.to_bits()));
    assert_eq!(Value::F64(1.5f64.to_bits()).to_f32(), Some(1.5f32.to_bits()));
    assert_eq!(Value::String("x".into()).to_string_val(), Some("x"));
    assert_eq!(Value::Bool(false).to_bool(), Some(false));
    assert!(Value::Array(vec![Value::U32(1)]).to_array().is_some());
    // Mismatched types return None.
    assert_eq!(Value::String("x".into()).to_u32(), None);
    assert_eq!(Value::U32(1).to_string_val(), None);
    assert_eq!(Value::U32(1).to_bool(), None);
    assert!(Value::U32(1).to_array().is_none());
}

#[test]
fn ggml_type_roundtrip() {
    for v in 0..=26u32 {
        if let Some(t) = GgmlType::from_u32(v) {
            assert_eq!(t.to_u32(), v);
        }
    }
    assert!(GgmlType::from_u32(4).is_none()); // unused slot
    assert!(GgmlType::from_u32(999).is_none());
}

#[test]
fn ggml_tensor_nbytes_block_math() {
    // F32: 1 byte/elem * 4 bytes/block = 4 bytes/elem effectively.
    assert_eq!(ggml_tensor_nbytes(4, GgmlType::F32), Some(16));
    // Q8_0: 34 bytes per 32-element block.
    assert_eq!(ggml_tensor_nbytes(32, GgmlType::Q8_0), Some(34));
    assert_eq!(ggml_tensor_nbytes(64, GgmlType::Q8_0), Some(68));
    // Partial block rounds up.
    assert_eq!(ggml_tensor_nbytes(33, GgmlType::Q8_0), Some(68));
    // Zero stays zero.
    assert_eq!(ggml_tensor_nbytes(0, GgmlType::Q8_0), Some(0));
    // Q8_K block is 256 elements × 292 bytes.
    assert_eq!(ggml_tensor_nbytes(256, GgmlType::Q8_K), Some(292));
}

#[test]
fn ggufmmap_open_and_tensor_data_roundtrip() {
    // Build a GGUF with two F32 tensors back-to-back.
    let mut b = GgufBuilder::new();
    b.header(2, 0)
        .tensor_info("a", 0, &[2], 0)
        .tensor_info("b", 0, &[3], 8); // a is 8 bytes, so b starts at offset 8
    b.align_to(DEFAULT_ALIGNMENT);
    for v in [10.0f32, 20.0] {
        b.raw_bytes(&v.to_le_bytes());
    }
    for v in [1.5f32, 2.5, 3.5] {
        b.raw_bytes(&v.to_le_bytes());
    }
    let bytes = b.build();

    let gguf = GgufMmap::new(&bytes).unwrap();
    assert_eq!(gguf.content.tensors.names().len(), 2);

    let a = gguf.tensor_data("a").unwrap();
    assert_eq!(a.len(), 8);
    let a0 = f32::from_le_bytes(a[0..4].try_into().unwrap());
    assert_eq!(a0, 10.0);

    let b_bytes = gguf.tensor_data("b").unwrap();
    assert_eq!(b_bytes.len(), 12);

    // Unknown tensor should error.
    assert!(gguf.tensor_data("missing").is_err());
}

#[test]
fn parse_rejects_truncated_header() {
    // Only magic, no version/counts.
    let mut b = GgufBuilder::new();
    b.raw_u32(GGUF_MAGIC);
    assert!(GgufContent::parse(&b.build()).is_err());
}

#[test]
fn parse_rejects_empty_buffer() {
    assert!(GgufContent::parse(&[]).is_err());
}

#[test]
fn parse_rejects_truncated_metadata_value() {
    // Header claims 1 KV pair, but the file ends mid-value (key + type only).
    let mut b = GgufBuilder::new();
    b.raw_u32(GGUF_MAGIC).raw_u32(3).raw_u64(0).raw_u64(1);
    b.raw_str("k").raw_u32(4); // type U32, no payload
    assert!(GgufContent::parse(&b.build()).is_err());
}

#[test]
fn parse_rejects_unknown_value_type() {
    let mut b = GgufBuilder::new();
    b.raw_u32(GGUF_MAGIC).raw_u32(3).raw_u64(0).raw_u64(1);
    b.raw_str("k").raw_u32(99); // bogus value type
    b.raw_u32(0); // some payload
    let err = GgufContent::parse(&b.build()).err().unwrap();
    assert!(err.message().contains("Unknown GGUF value type"));
}

#[test]
fn parse_rejects_oversized_array() {
    let mut b = GgufBuilder::new();
    b.raw_u32(GGUF_MAGIC).raw_u32(3).raw_u64(0).raw_u64(1);
    b.raw_str("k").raw_u32(9); // Array
    b.raw_u32(4); // inner type U32
    b.raw_u64((MAX_GGUF_ARRAY_LEN + 1));
    let err = GgufContent::parse(&b.build()).err().unwrap();
    assert!(err.message().contains("Array too long"));
}

#[test]
fn parse_rejects_deeply_nested_arrays() {
    let mut b = GgufBuilder::new();
    b.raw_u32(GGUF_MAGIC).raw_u32(3).raw_u64(0).raw_u64(1);
    b.raw_str("k").raw_u32(9); // Array (outer)
    // 17 levels of nested arrays each of length 1, exceeding MAX_ARRAY_DEPTH=16.
    for _ in 0..17 {
        b.raw_u32(9); // inner type Array
        b.raw_u64(1); // length
    }
    b.raw_u32(4); // innermost type U32
    b.raw_u64(1);
    b.raw_u32(0);
    let err = GgufContent::parse(&b.build()).err().unwrap();
    assert!(err.message().contains("Array nesting too deep"));
}

#[test]
fn parse_duplicate_keys_keeps_last() {
    let mut b = GgufBuilder::new();
    b.header(0, 2).kv_u32("dup", 1).kv_u32("dup", 2);
    let c = GgufContent::parse(&b.build()).unwrap();
    assert_eq!(c.metadata.get("dup").unwrap().to_u32(), Some(2));
}

#[test]
fn parse_empty_string_value() {
    let mut b = GgufBuilder::new();
    b.header(0, 1).kv_string("k", "");
    let c = GgufContent::parse(&b.build()).unwrap();
    assert_eq!(c.metadata.get("k").unwrap().to_string_val(), Some(""));
}

#[test]
fn parse_empty_array() {
    let mut b = GgufBuilder::new();
    b.header(0, 1);
    b.raw_str("a").raw_u32(9); // Array
    b.raw_u32(4); // inner U32
    b.raw_u64(0); // length 0
    let c = GgufContent::parse(&b.build()).unwrap();
    let arr = c.metadata.get("a").unwrap().to_array().unwrap();
    assert!(arr.is_empty());
}

#[test]
fn parse_array_of_strings() {
    let mut b = GgufBuilder::new();
    b.header(0, 1);
    b.raw_str("toks").raw_u32(9);
    b.raw_u32(8); // inner String
    b.raw_u64(3);
    b.raw_str("a").raw_str("bb").raw_str("ccc");
    let c = GgufContent::parse(&b.build()).unwrap();
    let arr = c.metadata.get("toks").unwrap().to_array().unwrap();
    assert_eq!(arr.len(), 3);
    assert_eq!(arr[0].to_string_val(), Some("a"));
    assert_eq!(arr[2].to_string_val(), Some("ccc"));
}

#[test]
fn parse_all_scalar_value_types() {
    let mut b = GgufBuilder::new();
    b.header(0, 10);
    // U8
    b.raw_str("u8").raw_u32(0).buf.push(7);
    // I8
    b.raw_str("i8").raw_u32(1).buf.push((-3i8) as u8);
    // U16
    b.raw_str("u16").raw_u32(2);
    b.buf.extend_from_slice(&12345u16.to_le_bytes());
    // I16
    b.raw_str("i16").raw_u32(3);
    b.buf.extend_from_slice(&(-1234i16).to_le_bytes());
    // I32
    b.raw_str("i32").raw_u32(5);
    b.buf.extend_from_slice(&(-42i32).to_le_bytes());
    // F32
    b.raw_str("f32").raw_u32(6);
    b.buf.extend_from_slice(&1.5f32.to_le_bytes());
    // I64
    b.raw_str("i64").raw_u32(11);
    b.buf.extend_from_slice(&(-99i64).to_le_bytes());
    // F64
    b.raw_str("f64").raw_u32(12);
    b.buf.extend_from_slice(&2.5f64.to_le_bytes());
    // U32 (already covered, but for sanity)
    b.kv_u32("u32", 100);
    // U64
    b.kv_u64("u64", 1234567890);

    let c = GgufContent::parse(&b.build()).unwrap();
    assert!(matches!(*c.metadata.get("u8").unwrap(), Value::U8(7)));
    assert!(matches!(*c.metadata.get("i8").unwrap(), Value::I8(-3)));
    assert!(matches!(*c.metadata.get("u16").unwrap(), Value::U16(12345)));
    assert!(matches!(*c.metadata.get("i16").unwrap(), Value::I16(-1234)));
    assert!(matches!(*c.metadata.get("i32").unwrap(), Value::I32(-42)));
    assert!(matches!(*c.metadata.get("f32").unwrap(), Value::F32(v) if (f32::from_bits(v) - 1.5).abs() < 1e-6));
    assert!(matches!(*c.metadata.get("i64").unwrap(), Value::I64(-99)));
    assert!(matches!(*c.metadata.get("f64").unwrap(), Value::F64(v) if (f64::from_bits(v) - 2.5).abs() < 1e-9));
    assert_eq!(c.metadata.get("u32").unwrap().to_u32(), Some(100));
    assert_eq!(c.metadata.get("u64").unwrap().to_u64(), Some(1234567890));
}

#[test]
fn parse_default_alignment_when_metadata_absent() {
    let mut b = GgufBuilder::new();
    b.header(0, 0);
    let bytes = b.build();
    let c = GgufContent::parse(&bytes).unwrap();
    assert_eq!(c.data_offset % DEFAULT_ALIGNMENT, 0);
    assert!(c.data_offset >= bytes.len() as u64);
}

#[test]
fn parse_zero_position_yields_zero_data_offset() {
    // The cursor-position-zero branch is unreachable in normal parsing
    // (header always advances), but exercise the math via an exact-aligned
    // header whose end is at a multiple of alignment.
    let mut b = GgufBuilder::new();
    b.header(0, 1).kv_u64("general.alignment", 8);
    let bytes = b.build();
    let c = GgufContent::parse(&bytes).unwrap();
    assert_eq!(c.data_offset % 8, 0);
}

#[test]
fn parse_tensor_with_multiple_dims() {
    let mut b = GgufBuilder::new();
    b.header(1, 0).tensor_info("m", 0, &[2, 3], 0);
    b.align_to(DEFAULT_ALIGNMENT);
    for v in 0..6 {
        b.raw_bytes(&(v as f32).to_le_bytes());
    }
    let c = GgufContent::parse(&b.build()).unwrap();
    let info = c.tensors.get("m").unwrap();
    assert_eq!(info.dims, vec![2, 3]);
    assert_eq!(info.dtype, GgmlType::F32);
}

#[test]
fn parse_tensor_zero_dims_is_accepted() {
    // A 0-dim tensor (scalar) — n_dims=0 and offset=0.
    let mut b = GgufBuilder::new();
    b.header(1, 0).tensor_info("scalar", 0, &[], 0);
    b.align_to(DEFAULT_ALIGNMENT);
    let c = GgufContent::parse(&b.build()).unwrap();
    let info = c.tensors.get("scalar").unwrap();
    assert!(info.dims.is_empty());
}

#[test]
fn ggufmmap_tensor_data_rejects_past_eof() {
    // Tensor claims 16 bytes of F32 data but we write only 8.
    let mut b = GgufBuilder::new();
    b.header(1, 0).tensor_info("t", 0, &[4], 0);
    b.align_to(DEFAULT_ALIGNMENT);
    b.raw_bytes(&1.0f32.to_le_bytes());
    b.raw_bytes(&2.0f32.to_le_bytes());
    let bytes = b.build();

    let gguf = GgufMmap::new(&bytes).unwrap();
    let err = gguf.tensor_data("t").err().unwrap();
    assert!(err.message().contains("extends past end of file"));
}

#[test]
fn ggml_tensor_nbytes_for_k_quants() {
    // Q4_K is 144 bytes per 256-element block.
    assert_eq!(ggml_tensor_nbytes(256, GgmlType::Q4_K), Some(144));
    assert_eq!(ggml_tensor_nbytes(512, GgmlType::Q4_K), Some(288));
    // Partial block rounds up.
    assert_eq!(ggml_tensor_nbytes(257, GgmlType::Q4_K), Some(288));
    // F16 is 2 bytes per element.
    assert_eq!(ggml_tensor_nbytes(10, GgmlType::F16), Some(20));
}

#[test]
fn messages_of_each_parse_error() {
    let message = |b: GgufBuilder| GgufContent::parse(&b.build()).err().unwrap().message();
    let one_key = |value_type: u32| {
        let mut b = GgufBuilder::new();
        b.header(0, 1).raw_str("k").raw_u32(value_type);
        b
    };

    let mut b = GgufBuilder::new();
    b.raw_u32(GGUF_MAGIC);
    assert_eq!(message(b), "failed to fill whole buffer");
    let mut b = GgufBuilder::new();
    b.raw_u32(0xBEEF).raw_u32(3).raw_u64(0).raw_u64(0);
    assert_eq!(message(b), "Invalid GGUF magic: 0x0000beef");
    let mut b = GgufBuilder::new();
    b.raw_u32(GGUF_MAGIC).raw_u32(7).raw_u64(0).raw_u64(0);
    assert_eq!(message(b), "Unsupported GGUF version: 7");
    let mut b = GgufBuilder::new();
    b.header(1_048_577, 0);
    assert_eq!(message(b), "Tensor count too large: 1048577");
    let mut b = GgufBuilder::new();
    b.header(0, 1_048_577);
    assert_eq!(message(b), "Metadata KV count too large: 1048577");
    let mut b = GgufBuilder::new();
    b.header(0, 1).raw_u64(1_048_577);
    assert_eq!(message(b), "String too long: 1048577 bytes");
    let mut b = GgufBuilder::new();
    b.header(0, 1).raw_u64(4).raw_bytes(b"abc");
    assert_eq!(message(b), "String extends past end of file");
    let mut b = one_key(9);
    b.raw_u32(4).raw_u64(1_048_577);
    assert_eq!(message(b), "Array too long: 1048577 elements");
    let mut b = one_key(13);
    b.raw_u32(0);
    assert_eq!(message(b), "Unknown GGUF value type: 13");
    let mut b = GgufBuilder::new();
    b.header(0, 1).kv_u32("general.alignment", 0);
    assert_eq!(message(b), "Invalid alignment: 0");
    let mut b = GgufBuilder::new();
    b.header(1, 0).raw_str("wide").raw_u32(9);
    assert_eq!(message(b), "Tensor 'wide' has 9 dims, expected <=8");
    let mut b = GgufBuilder::new();
    b.header(1, 0).tensor_info("t", 5, &[1], 0);
    assert_eq!(message(b), "Unknown GGML type: 5");
}

#[test]
fn arrays_may_nest_to_the_limit() {
    let mut b = GgufBuilder::new();
    b.header(0, 1).raw_str("k").raw_u32(9);
    for _ in 0..15 {
        b.raw_u32(9).raw_u64(1);
    }
    b.raw_u32(4).raw_u64(1).raw_u32(42);
    let c = GgufContent::parse(&b.build()).unwrap();
    let mut v = c.metadata.get("k").unwrap();
    for _ in 0..16 {
        v = &v.to_array().unwrap()[0];
    }
    assert_eq!(v.to_u32(), Some(42));
}

#[test]
fn tensors_are_looked_up_by_name() {
    let mut b = GgufBuilder::new();
    b.header(3, 0)
        .tensor_info("a", 0, &[1], 0)
        .tensor_info("b", 0, &[2], 4)
        .tensor_info("a", 1, &[3], 12);
    let c = GgufContent::parse(&b.build()).unwrap();
    // The last description of a name counts.
    assert_eq!(c.tensors.names().len(), 2);
    assert_eq!(c.tensors.get("a").unwrap().dtype, GgmlType::F16);
    assert_eq!(c.tensors.get("b").unwrap().offset, 4);
    assert!(c.tensors.get("c").is_none());
}

#[test]
fn messages_of_each_tensor_error() {
    let mut b = GgufBuilder::new();
    b.header(5, 0)
        .tensor_info("far", 0, &[1], u64::MAX)
        .tensor_info("dims", 0, &[u64::MAX, 2], 0)
        .tensor_info("size", 0, &[u64::MAX / 2], 0)
        .tensor_info("range", 24, &[u64::MAX], 0)
        .tensor_info("end", 24, &[64], 0);
    b.align_to(DEFAULT_ALIGNMENT);
    let bytes = b.build();
    let gguf = GgufMmap::new(&bytes).unwrap();
    let kind = |name: &str| gguf.tensor_data(name).err().unwrap().kind;
    assert_eq!(kind("none"), TensorErrorKind::NotFound);
    assert_eq!(kind("far"), TensorErrorKind::OffsetOverflow);
    assert_eq!(kind("dims"), TensorErrorKind::DimsOverflow);
    assert_eq!(kind("size"), TensorErrorKind::SizeOverflow);
    assert_eq!(kind("range"), TensorErrorKind::RangeOverflow);
    assert_eq!(kind("end"), TensorErrorKind::PastEnd);
    let message = gguf.tensor_data("end").err().unwrap().message();
    assert!(message.contains("end") && message.contains("extends past end of file"));
}

#[test]
fn type_names_and_sizes() {
    assert_eq!(GgmlType::IQ2_XXS.name(), "IQ2_XXS");
    assert_eq!(GgmlType::from_u32(26), Some(GgmlType::I32));
    let mut seen = 0;
    for v in 0..=26u32 {
        if let Some(t) = GgmlType::from_u32(v) {
            seen += 1;
            assert!(ggml_type_size(t) > 0);
            assert_eq!(
                ggml_tensor_nbytes(ggml_blck_size(t) * 3, t),
                Some(ggml_type_size(t) * 3)
            );
        }
    }
    assert_eq!(seen, 25);
    assert_eq!(ggml_tensor_nbytes(usize::MAX, GgmlType::F32), None);
}

#[test]
fn strings_are_read_lossily() {
    let mut b = GgufBuilder::new();
    b.header(0, 1).raw_str("k").raw_u32(8).raw_u64(3);
    b.raw_bytes(&[b'a', 0xFF, b'b']);
    let c = GgufContent::parse(&b.build()).unwrap();
    assert_eq!(c.metadata.get("k").unwrap().to_string_val(), Some("a\u{FFFD}b"));
    assert_eq!(c.metadata.len(), 1);
}
