use ds4::gguf::{ggml_tensor_nbytes, GgmlType, TensorErrorKind, TensorInfo, GGUF_MAGIC};
use ds4::model::layer::LayerWeights;
use ds4::model::weights::{check_dtype, WeightErrorKind};
use ds4::model::{LoadError, WeightMap};

// A model file with the given tensors: name, type, dimensions and data.
fn model_file(tensors: &[(String, u32, Vec<u64>, Vec<u8>)]) -> Vec<u8> {
    let mut buf: Vec<u8> = Vec::new();
    let u32le = |buf: &mut Vec<u8>, v: u32| buf.extend_from_slice(&v.to_le_bytes());
    let u64le = |buf: &mut Vec<u8>, v: u64| buf.extend_from_slice(&v.to_le_bytes());
    let strle = |buf: &mut Vec<u8>, s: &str| {
        buf.extend_from_slice(&(s.len() as u64).to_le_bytes());
        buf.extend_from_slice(s.as_bytes());
    };
    u32le(&mut buf, GGUF_MAGIC);
    u32le(&mut buf, 3);
    u64le(&mut buf, tensors.len() as u64);
    let numbers = [
        ("deepseek4.vocab_size", 256),
        ("deepseek4.embedding_length", 16),
        ("deepseek4.attention.head_count", 4),
        ("deepseek4.attention.head_count_kv", 4),
        ("deepseek4.block_count", 2),
        ("deepseek4.expert_feed_forward_length", 32),
        ("deepseek4.attention.q_lora_rank", 8),
        ("deepseek4.expert_count", 4),
        ("deepseek4.expert_used_count", 2),
    ];
    u64le(&mut buf, numbers.len() as u64);
    for (key, value) in numbers {
        strle(&mut buf, key);
        u32le(&mut buf, 4);
        u32le(&mut buf, value);
    }
    let mut offset = 0;
    for (name, dtype, dims, data) in tensors {
        strle(&mut buf, name);
        u32le(&mut buf, dims.len() as u32);
        for d in dims {
            u64le(&mut buf, *d);
        }
        u32le(&mut buf, *dtype);
        u64le(&mut buf, offset);
        offset += (data.len() as u64 + 31) / 32 * 32;
    }
    while buf.len() % 32 != 0 {
        buf.push(0);
    }
    for (_, _, _, data) in tensors {
        buf.extend_from_slice(data);
        while buf.len() % 32 != 0 {
            buf.push(0);
        }
    }
    buf
}

fn tensor(name: &str, dtype: GgmlType, dims: &[u64]) -> (String, u32, Vec<u64>, Vec<u8>) {
    let elems: u64 = dims.iter().product();
    let size = ggml_tensor_nbytes(elems as usize, dtype).unwrap();
    let data = (0..size).map(|i| i as u8).collect();
    (name.to_string(), dtype.to_u32(), dims.to_vec(), data)
}

fn make_info(dtype: GgmlType) -> TensorInfo {
    TensorInfo {
        name: "x".to_string(),
        dtype,
        dims: vec![4, 1],
        offset: 0,
    }
}

#[test]
fn check_dtype_matches() {
    let info = make_info(GgmlType::F32);
    assert!(check_dtype(&info, "x", GgmlType::F32).is_ok());
}

#[test]
fn check_dtype_mismatch_errors_with_name_and_types() {
    let info = make_info(GgmlType::F16);
    let err = check_dtype(&info, "blk.0.foo", GgmlType::Q8_0).unwrap_err();
    let msg = err.message();
    assert!(msg.contains("blk.0.foo"));
    assert!(msg.contains("Q8_0"));
    assert!(msg.contains("F16"));
}

#[test]
fn missing_tensor_q8_0_errors() {
    let bytes = model_file(&[]);
    let m = WeightMap::new(&bytes, 0).unwrap();
    let err = m.q8_0("does.not.exist").err().unwrap();
    assert!(err.message().contains("does.not.exist"));
}

#[test]
fn missing_tensor_f16_errors() {
    let bytes = model_file(&[]);
    let m = WeightMap::new(&bytes, 0).unwrap();
    let err = m.f16_weight("missing.f16").err().unwrap();
    assert!(err.message().contains("missing.f16"));
}

#[test]
fn missing_tensor_f32_1d_errors() {
    let bytes = model_file(&[]);
    let m = WeightMap::new(&bytes, 0).unwrap();
    let err = m.f32_1d("missing.f32", 4).err().unwrap();
    assert!(err.message().contains("missing.f32"));
}

#[test]
fn missing_tensor_i32_1d_errors() {
    let bytes = model_file(&[]);
    let m = WeightMap::new(&bytes, 0).unwrap();
    let err = m.i32_1d("missing.i32", 4).err().unwrap();
    assert!(err.message().contains("missing.i32"));
}

#[test]
fn missing_tensor_f32_slice_errors() {
    let bytes = model_file(&[]);
    let m = WeightMap::new(&bytes, 0).unwrap();
    let err = m.f32_slice("missing.f32s").err().unwrap();
    assert!(err.message().contains("missing.f32s"));
}

#[test]
fn tensor_info_returns_none_for_missing() {
    let bytes = model_file(&[]);
    let m = WeightMap::new(&bytes, 0).unwrap();
    assert!(m.tensor_info("nope").is_none());
}

#[test]
fn tensor_names_empty_for_minimal_gguf() {
    let bytes = model_file(&[]);
    let m = WeightMap::new(&bytes, 0).unwrap();
    assert_eq!(m.tensor_names().len(), 0);
}

#[test]
fn from_map_missing_tensors_errors() {
    let bytes = model_file(&[]);
    let m = WeightMap::new(&bytes, 0).unwrap();
    assert!(m.all_have_shapes());
    let err = LayerWeights::from_map(&m, 0).err().unwrap();
    let msg = err.message();
    assert!(!msg.is_empty());
    assert_eq!(msg, "blk.0.attn_q_a.weight");
}

#[test]
fn from_map_higher_layer_also_errors() {
    let bytes = model_file(&[]);
    let m = WeightMap::new(&bytes, 0).unwrap();
    assert!(LayerWeights::from_map(&m, 7).is_err());
}

#[test]
fn matrices_are_looked_up_by_type() {
    let bytes = model_file(&[
        tensor("half", GgmlType::F16, &[3, 2]),
        tensor("q8", GgmlType::Q8_0, &[32, 2]),
        tensor("q2", GgmlType::Q2_K, &[256]),
        tensor("iq2", GgmlType::IQ2_XXS, &[256, 1]),
        tensor("single", GgmlType::F32, &[2]),
    ]);
    let m = WeightMap::new(&bytes, 0).unwrap();
    let half = m.f16_weight("half").unwrap();
    assert_eq!((half.in_features(), half.out_features()), (3, 2));
    let q8 = m.q8_0("q8").unwrap();
    assert_eq!((q8.in_features(), q8.out_features()), (32, 2));
    let q2 = m.q2_k("q2").unwrap();
    assert_eq!((q2.in_features(), q2.out_features()), (256, 1));
    let iq2 = m.iq2_xxs("iq2").unwrap();
    assert_eq!((iq2.in_features(), iq2.out_features()), (256, 1));
    for name in ["half", "q8", "q2", "iq2"] {
        assert!(m.quant_weight(name).is_ok());
    }
    assert_eq!(
        m.quant_weight("single").err().unwrap().kind,
        WeightErrorKind::Unsupported(GgmlType::F32)
    );
    assert_eq!(
        m.q8_0("half").err().unwrap().message(),
        "half: expected GGML type Q8_0, got F16"
    );
}

#[test]
fn numbers_are_read_one_by_one() {
    let floats: Vec<u8> = [1.5f32, -2.0].iter().flat_map(|x| x.to_le_bytes()).collect();
    let ints: Vec<u8> = [7i32, -9, i32::MIN].iter().flat_map(|x| x.to_le_bytes()).collect();
    let bytes = model_file(&[
        ("f".to_string(), 0, vec![2], floats),
        ("i".to_string(), 26, vec![3], ints),
    ]);
    let m = WeightMap::new(&bytes, 0).unwrap();
    let f = m.f32_1d("f", 2).unwrap();
    assert_eq!(f.len(), 2);
    assert_eq!(f32::from_bits(f.get(0)), 1.5);
    assert_eq!(f32::from_bits(f.get(1)), -2.0);
    let i = m.i32_1d("i", 3).unwrap();
    assert_eq!((i.get(0), i.get(1), i.get(2)), (7, -9, i32::MIN));
    assert_eq!(m.f32_slice("f").unwrap().len(), 2);
}

#[test]
fn kinds_of_wrong_tensors() {
    let mut short = tensor("short", GgmlType::F32, &[64]);
    short.3.truncate(8);
    let bytes = model_file(&[tensor("f", GgmlType::F32, &[2]), short]);
    let m = WeightMap::new(&bytes, 0).unwrap();
    assert_eq!(
        m.f32_1d("f", 3).err().unwrap().message(),
        "f: expected 3 F32 elems (12 B), got 8 B"
    );
    assert_eq!(
        m.f32_1d("f", usize::MAX).err().unwrap().kind,
        WeightErrorKind::CountOverflow(GgmlType::F32)
    );
    assert_eq!(
        m.f32_1d("short", 64).err().unwrap().kind,
        WeightErrorKind::Data(TensorErrorKind::PastEnd)
    );
    assert_eq!(m.i32_1d("f", 2).err().unwrap().kind, WeightErrorKind::Dtype {
        expected: GgmlType::I32,
        got: GgmlType::F32,
    });
    // An address that is no multiple of four.
    let odd = WeightMap::new(&bytes, 2).unwrap();
    assert_eq!(
        odd.f32_1d("f", 2).err().unwrap().message(),
        "f: F32 data is not 4-byte aligned"
    );
    assert_eq!(
        odd.f32_slice("f").err().unwrap().kind,
        WeightErrorKind::Unaligned(GgmlType::F32)
    );
}

#[test]
fn tensors_without_dimensions_are_found() {
    let bytes = model_file(&[("s".to_string(), 1, vec![], vec![0, 0])]);
    let m = WeightMap::new(&bytes, 0).unwrap();
    assert!(!m.all_have_shapes());
}

#[test]
fn files_that_are_no_models_are_refused() {
    assert!(matches!(WeightMap::new(&[], 0), Err(LoadError::Gguf(_))));
    let mut empty = Vec::new();
    empty.extend_from_slice(&GGUF_MAGIC.to_le_bytes());
    empty.extend_from_slice(&3u32.to_le_bytes());
    empty.extend_from_slice(&[0; 16]);
    let err = WeightMap::new(&empty, 0).err().unwrap();
    assert!(matches!(err, LoadError::Config(_)));
    assert!(err.fractions().is_empty());
    assert_eq!(err.message(&[]), "Missing metadata key: deepseek4.vocab_size");
}

fn layer_tensors(prefix: &str) -> Vec<(String, u32, Vec<u64>, Vec<u8>)> {
    let t = |name: &str, dtype: GgmlType, dims: &[u64]| {
        tensor(&format!("{prefix}{name}"), dtype, dims)
    };
    let (f, h, q) = (GgmlType::F32, GgmlType::F16, GgmlType::Q8_0);
    vec![
        t("attn_norm.weight", f, &[16]),
        t("attn_q_a.weight", q, &[32, 8]),
        t("attn_q_a_norm.weight", f, &[8]),
        t("attn_q_b.weight", q, &[32, 2]),
        t("attn_kv.weight", q, &[32, 4]),
        t("attn_kv_a_norm.weight", f, &[512]),
        t("attn_sinks.weight", f, &[4]),
        t("attn_output_a.weight", q, &[32, 8]),
        t("attn_output_b.weight", q, &[32, 16]),
        t("hc_attn_fn.weight", h, &[64, 24]),
        t("hc_attn_scale.weight", f, &[3]),
        t("hc_attn_base.weight", f, &[24]),
        t("hc_ffn_fn.weight", h, &[64, 24]),
        t("hc_ffn_scale.weight", f, &[3]),
        t("hc_ffn_base.weight", f, &[24]),
        t("ffn_norm.weight", f, &[16]),
        t("ffn_gate_inp.weight", h, &[16, 4]),
        t("ffn_gate_shexp.weight", q, &[32, 2]),
        t("ffn_up_shexp.weight", q, &[32, 2]),
        t("ffn_down_shexp.weight", q, &[32, 2]),
        t("ffn_gate_exps.weight", GgmlType::IQ2_XXS, &[256, 2, 4]),
        t("ffn_up_exps.weight", GgmlType::IQ2_XXS, &[256, 2, 4]),
        t("ffn_down_exps.weight", GgmlType::Q2_K, &[256, 2, 4]),
    ]
}

#[test]
fn a_dense_layer_is_loaded() {
    let bytes = model_file(&layer_tensors("blk.0."));
    let m = WeightMap::new(&bytes, 0).unwrap();
    let l = LayerWeights::from_map(&m, 0).unwrap();
    assert_eq!(l.attn_norm.len(), 16);
    assert_eq!(l.attn_q_a.out_features(), 8);
    assert_eq!(l.hc_ffn_base.len(), 24);
    assert_eq!(l.ffn_down_exps.in_features(), 256);
    assert!(l.ffn_gate_tid2eid.is_none());
    assert!(l.ffn_exp_probs_b.is_none());
    assert!(l.compressor.is_none());
    assert!(l.indexer.is_none());
    // The same tensors under another prefix.
    assert!(LayerWeights::from_prefix(&m, "blk.0.", 1).is_ok());
    assert_eq!(
        LayerWeights::from_map(&m, 1).err().unwrap().name,
        "blk.1.attn_q_a.weight"
    );
}

#[test]
fn a_layer_with_a_routing_table_is_loaded() {
    let mut tensors = layer_tensors("blk.0.");
    tensors.push(tensor("blk.0.ffn_gate_tid2eid.weight", GgmlType::I32, &[2, 256]));
    tensors.push(tensor("blk.0.exp_probs_b.bias", GgmlType::F32, &[4]));
    let bytes = model_file(&tensors);
    let m = WeightMap::new(&bytes, 0).unwrap();
    let l = LayerWeights::from_map(&m, 0).unwrap();
    assert_eq!(l.ffn_gate_tid2eid.unwrap().len(), 512);
    assert_eq!(l.ffn_exp_probs_b.unwrap().len(), 4);
}

#[test]
fn a_compressed_layer_has_compressor_and_indexer() {
    let (f, h) = (GgmlType::F32, GgmlType::F16);
    let mut tensors = layer_tensors("blk.2.");
    let compressor = [
        tensor("blk.2.attn_compressor_kv.weight", h, &[16, 1024]),
        tensor("blk.2.attn_compressor_gate.weight", h, &[16, 1024]),
        tensor("blk.2.attn_compressor_ape.weight", h, &[1024, 4]),
        tensor("blk.2.attn_compressor_norm.weight", f, &[512]),
    ];
    let indexer = [
        tensor("blk.2.indexer.attn_q_b.weight", h, &[8, 8192]),
        tensor("blk.2.indexer.proj.weight", h, &[16, 64]),
        tensor("blk.2.indexer_compressor_kv.weight", h, &[16, 256]),
        tensor("blk.2.indexer_compressor_gate.weight", h, &[16, 256]),
        tensor("blk.2.indexer_compressor_ape.weight", h, &[256, 4]),
        tensor("blk.2.indexer_compressor_norm.weight", f, &[128]),
    ];
    tensors.extend(compressor);
    let bytes = model_file(&tensors);
    let m = WeightMap::new(&bytes, 0).unwrap();
    assert_eq!(
        LayerWeights::from_map(&m, 2).err().unwrap().name,
        "blk.2.indexer.attn_q_b.weight"
    );
    tensors.extend(indexer);
    let bytes = model_file(&tensors);
    let m = WeightMap::new(&bytes, 0).unwrap();
    let l = LayerWeights::from_map(&m, 2).unwrap();
    assert_eq!(l.compressor.unwrap().kv.out_features(), 1024);
    assert_eq!(l.indexer.unwrap().proj.out_features(), 64);
    // On an odd layer the compressor has another width.
    let err = LayerWeights::from_prefix(&m, "blk.2.", 3).err().unwrap();
    assert_eq!(
        err.message(),
        "blk.2.attn_compressor_kv.weight: expected [16, 512], got [16, 1024]"
    );
}
