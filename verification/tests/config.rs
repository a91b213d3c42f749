use ds4::config::{
    layer_compress_ratio, ConfigError, ModelConfig, COMPRESS_RATIOS_KEY, INDEXER_HEAD, INDEXER_HEAD_DIM,
    INDEXER_HEAD_DIM_KEY, INDEXER_HEAD_KEY, INDEXER_TOP_K, INDEXER_TOP_K_KEY,
};
use ds4::gguf::{Fraction, Metadata, Value};

fn metadata_without(left_out: &str) -> Metadata {
    let mut m = Metadata::new();
    for (key, value) in [
        ("deepseek4.vocab_size", 32000),
        ("deepseek4.embedding_length", 4096),
        ("deepseek4.attention.head_count", 32),
        ("deepseek4.attention.head_count_kv", 8),
        ("deepseek4.block_count", 32),
        ("deepseek4.expert_feed_forward_length", 14336),
        ("deepseek4.attention.q_lora_rank", 1024),
    ] {
        if key != left_out {
            m.insert(key.to_string(), Value::U32(value));
        }
    }
    m
}

fn base_metadata() -> Metadata {
    metadata_without("")
}

#[test]
fn mandatory_fields_parsed() {
    let cfg = ModelConfig::from_metadata(&base_metadata()).unwrap();
    assert_eq!(cfg.n_vocab, 32000);
    assert_eq!(cfg.n_embd, 4096);
    assert_eq!(cfg.n_head, 32);
    assert_eq!(cfg.n_kv_head, 8);
    assert_eq!(cfg.n_layer, 32);
    assert_eq!(cfg.n_ff, 14336);
    assert_eq!(cfg.q_lora_rank, 1024);
}

#[test]
fn optional_fields_have_defaults() {
    let cfg = ModelConfig::from_metadata(&base_metadata()).unwrap();
    assert_eq!(cfg.n_expert, 0);
    assert_eq!(cfg.n_expert_used, 0);
    assert_eq!(cfg.n_hc, 4);
    assert_eq!(f32::from_bits(cfg.rope_theta), 10000.0);
    assert_eq!(cfg.ctx_size, 32768);
}

#[test]
fn head_dim_derived_from_n_embd_over_n_head() {
    // 4096 / 32 = 128
    let cfg = ModelConfig::from_metadata(&base_metadata()).unwrap();
    assert_eq!(cfg.head_dim, 128);
}

#[test]
fn head_dim_uses_key_length_when_present() {
    let mut m = base_metadata();
    m.insert(
        "deepseek4.attention.key_length".to_string(),
        Value::U32(256),
    );
    let cfg = ModelConfig::from_metadata(&m).unwrap();
    assert_eq!(cfg.head_dim, 256);
}

#[test]
fn head_count_zero_errors() {
    let mut m = base_metadata();
    m.insert("deepseek4.attention.head_count".to_string(), Value::U32(0));
    let err = ModelConfig::from_metadata(&m).unwrap_err();
    assert!(
        err.message(&[]).contains("head_count"),
        "expected head_count error, got: {err:?}"
    );
}

#[test]
fn q_lora_rank_zero_errors() {
    let mut m = base_metadata();
    m.insert("deepseek4.attention.q_lora_rank".to_string(), Value::U32(0));
    let err = ModelConfig::from_metadata(&m).unwrap_err();
    assert!(
        err.message(&[]).contains("q_lora_rank"),
        "expected q_lora_rank error, got: {err:?}"
    );
}

#[test]
fn optional_overrides_take_effect() {
    let mut m = base_metadata();
    m.insert("deepseek4.expert_count".to_string(), Value::U32(64));
    m.insert("deepseek4.expert_used_count".to_string(), Value::U32(2));
    m.insert(
        "deepseek4.hyper_connection.count".to_string(),
        Value::U32(8),
    );
    m.insert("deepseek4.rope.freq_base".to_string(), Value::F32(500000.0f32.to_bits()));
    m.insert("deepseek4.context_length".to_string(), Value::U32(16384));
    let cfg = ModelConfig::from_metadata(&m).unwrap();
    assert_eq!(cfg.n_expert, 64);
    assert_eq!(cfg.n_expert_used, 2);
    assert_eq!(cfg.n_hc, 8);
    assert_eq!(f32::from_bits(cfg.rope_theta), 500000.0);
    assert_eq!(cfg.ctx_size, 16384);
}

#[test]
fn missing_mandatory_field_errors() {
    let m = metadata_without("deepseek4.vocab_size");
    assert!(ModelConfig::from_metadata(&m).is_err());
}

#[test]
fn type_mismatch_for_u32_errors() {
    let mut m = base_metadata();
    m.insert(
        "deepseek4.vocab_size".to_string(),
        Value::String("not a number".to_string()),
    );
    let err = ModelConfig::from_metadata(&m).unwrap_err();
    let msg = err.message(&[]);
    assert!(
        msg.contains("Type mismatch") && msg.contains("deepseek4.vocab_size"),
        "expected type-mismatch error mentioning the key, got: {msg}"
    );
}

#[test]
fn u32_field_accepts_u64_in_range() {
    let mut m = base_metadata();
    m.insert("deepseek4.vocab_size".to_string(), Value::U64(50000));
    let cfg = ModelConfig::from_metadata(&m).unwrap();
    assert_eq!(cfg.n_vocab, 50000);
}

#[test]
fn u32_field_rejects_u64_overflow() {
    let mut m = base_metadata();
    m.insert("deepseek4.vocab_size".to_string(), Value::U64(u64::MAX));
    assert!(ModelConfig::from_metadata(&m).is_err());
}

#[test]
fn head_dim_falls_back_to_head_dim_key() {
    let mut m = base_metadata();
    m.insert("deepseek4.attention.head_dim".to_string(), Value::U32(192));
    let cfg = ModelConfig::from_metadata(&m).unwrap();
    assert_eq!(cfg.head_dim, 192);
}

#[test]
fn key_length_takes_precedence_over_head_dim() {
    let mut m = base_metadata();
    m.insert(
        "deepseek4.attention.key_length".to_string(),
        Value::U32(160),
    );
    m.insert("deepseek4.attention.head_dim".to_string(), Value::U32(192));
    let cfg = ModelConfig::from_metadata(&m).unwrap();
    assert_eq!(cfg.head_dim, 160);
}

#[test]
fn rope_theta_widens_from_f64() {
    let mut m = base_metadata();
    m.insert(
        "deepseek4.rope.freq_base".to_string(),
        Value::F64(123_456.789f64.to_bits()),
    );
    let cfg = ModelConfig::from_metadata(&m).unwrap();
    assert!((f32::from_bits(cfg.rope_theta) - 123_456.79_f32).abs() < 1.0);
}

#[test]
fn rope_theta_type_mismatch_falls_back_to_default() {
    let mut m = base_metadata();
    m.insert(
        "deepseek4.rope.freq_base".to_string(),
        Value::String("abc".to_string()),
    );
    let cfg = ModelConfig::from_metadata(&m).unwrap();
    assert_eq!(f32::from_bits(cfg.rope_theta), 10000.0);
}

#[test]
fn each_mandatory_field_individually_required() {
    let keys = [
        "deepseek4.vocab_size",
        "deepseek4.embedding_length",
        "deepseek4.attention.head_count",
        "deepseek4.attention.head_count_kv",
        "deepseek4.block_count",
        "deepseek4.expert_feed_forward_length",
        "deepseek4.attention.q_lora_rank",
    ];
    for k in keys {
        let m = metadata_without(k);
        let err = ModelConfig::from_metadata(&m).unwrap_err();
        assert!(
            err.message(&[]).contains(k),
            "expected error to mention {k}, got: {err:?}"
        );
    }
}

#[test]
fn layer_compress_ratio_truth_table() {
    // n_layer for DS4 Flash = 43, so layer indices run 0..=42.
    assert_eq!(layer_compress_ratio(0), 0);
    assert_eq!(layer_compress_ratio(1), 0);
    assert_eq!(layer_compress_ratio(2), 4);
    assert_eq!(layer_compress_ratio(3), 128);
    assert_eq!(layer_compress_ratio(4), 4);
    assert_eq!(layer_compress_ratio(5), 128);
    assert_eq!(layer_compress_ratio(41), 128);
    assert_eq!(layer_compress_ratio(42), 4);
}

fn ratios_for(n_layer: u32) -> Vec<Value> {
    (0..n_layer)
        .map(|il| Value::U32(layer_compress_ratio(il)))
        .collect()
}

#[test]
fn compress_ratios_matching_array_passes() {
    let mut m = base_metadata();
    // base_metadata uses n_layer = 32, but the schedule is fully
    // determined by the layer index, so any prefix length >= n_layer
    // works.
    m.insert(
        COMPRESS_RATIOS_KEY.to_string(),
        Value::Array(ratios_for(32)),
    );
    ModelConfig::from_metadata(&m).expect("matching array should pass");
}

#[test]
fn compress_ratios_missing_is_allowed() {
    // No COMPRESS_RATIOS_KEY in base_metadata — should still parse.
    ModelConfig::from_metadata(&base_metadata()).expect("missing array OK for back-compat");
}

#[test]
fn compress_ratios_mismatch_errors() {
    let mut m = base_metadata();
    let mut arr = ratios_for(32);
    // Flip layer 4 from 4 -> 128 to force a mismatch against the schedule.
    arr[4] = Value::U32(128);
    m.insert(COMPRESS_RATIOS_KEY.to_string(), Value::Array(arr));
    let err = ModelConfig::from_metadata(&m).unwrap_err();
    let msg = err.message(&[]);
    assert!(
        msg.contains("compress_ratios") && msg.contains("[4]"),
        "expected compress_ratios[4] error, got: {msg}",
    );
}

#[test]
fn compress_ratios_too_short_errors() {
    let mut m = base_metadata();
    m.insert(COMPRESS_RATIOS_KEY.to_string(), Value::Array(ratios_for(8)));
    let err = ModelConfig::from_metadata(&m).unwrap_err();
    assert!(
        err.message(&[]).contains("array length"),
        "expected array length error, got: {err:?}",
    );
}

#[test]
fn compress_ratios_wrong_value_type_errors() {
    let mut m = base_metadata();
    let mut arr = ratios_for(32);
    arr[3] = Value::String("nope".to_string());
    m.insert(COMPRESS_RATIOS_KEY.to_string(), Value::Array(arr));
    let err = ModelConfig::from_metadata(&m).unwrap_err();
    assert!(err.message(&[]).contains("[3]"), "got: {err:?}");
}

#[test]
fn compress_ratios_non_array_errors() {
    let mut m = base_metadata();
    m.insert(COMPRESS_RATIOS_KEY.to_string(), Value::U32(4));
    let err = ModelConfig::from_metadata(&m).unwrap_err();
    assert!(err.message(&[]).contains("expected array"), "got: {err:?}");
}

#[test]
fn indexer_keys_optional_for_back_compat() {
    // base_metadata has none of the indexer keys — must still parse.
    ModelConfig::from_metadata(&base_metadata()).expect("missing indexer keys OK");
}

#[test]
fn indexer_keys_matching_pass() {
    let mut m = base_metadata();
    m.insert(INDEXER_HEAD_KEY.to_string(), Value::U32(INDEXER_HEAD));
    m.insert(
        INDEXER_HEAD_DIM_KEY.to_string(),
        Value::U32(INDEXER_HEAD_DIM),
    );
    m.insert(INDEXER_TOP_K_KEY.to_string(), Value::U32(INDEXER_TOP_K));
    ModelConfig::from_metadata(&m).expect("matching indexer constants pass");
}

#[test]
fn indexer_head_mismatch_errors() {
    let mut m = base_metadata();
    m.insert(INDEXER_HEAD_KEY.to_string(), Value::U32(32));
    let err = ModelConfig::from_metadata(&m).unwrap_err();
    let msg = err.message(&[]);
    assert!(
        msg.contains("indexer.head_count") && msg.contains("32"),
        "got: {msg}",
    );
}

#[test]
fn indexer_top_k_mismatch_errors() {
    let mut m = base_metadata();
    m.insert(INDEXER_TOP_K_KEY.to_string(), Value::U32(256));
    let err = ModelConfig::from_metadata(&m).unwrap_err();
    assert!(err.message(&[]).contains("indexer.top_k"), "got: {err:?}");
}

#[test]
fn indexer_key_wrong_type_errors() {
    let mut m = base_metadata();
    m.insert(
        INDEXER_HEAD_KEY.to_string(),
        Value::String("nope".to_string()),
    );
    let err = ModelConfig::from_metadata(&m).unwrap_err();
    assert!(err.message(&[]).contains("Type mismatch"), "got: {err:?}");
}

#[test]
fn the_base_is_rounded_from_double_precision() {
    for x in [123_456.789f64, 1.0, 0.1, 1e-40, 3.5e38, 16_777_217.0, 16_777_219.0] {
        let mut m = base_metadata();
        m.insert("deepseek4.rope.freq_base".to_string(), Value::F64(x.to_bits()));
        let cfg = ModelConfig::from_metadata(&m).unwrap();
        assert_eq!(cfg.rope_theta, (x as f32).to_bits(), "base {x}");
    }
}

#[test]
fn messages_of_each_error() {
    let got = |m: &Metadata| ModelConfig::from_metadata(m).unwrap_err().message(&[]);
    assert_eq!(
        got(&metadata_without("deepseek4.vocab_size")),
        "Missing metadata key: deepseek4.vocab_size"
    );
    let mut m = base_metadata();
    m.insert("deepseek4.block_count".to_string(), Value::Bool(true));
    assert_eq!(got(&m), "Type mismatch for deepseek4.block_count: expected u32");
    let mut m = base_metadata();
    m.insert("deepseek4.attention.head_count".to_string(), Value::U32(0));
    assert_eq!(got(&m), "deepseek4.attention.head_count must be > 0");
    let mut m = base_metadata();
    m.insert(INDEXER_HEAD_KEY.to_string(), Value::U32(32));
    assert_eq!(got(&m), "deepseek4.attention.indexer.head_count: GGUF says 32, expected 64");
    let mut m = base_metadata();
    m.insert(COMPRESS_RATIOS_KEY.to_string(), Value::U32(4));
    assert_eq!(got(&m), "deepseek4.attention.compress_ratios: expected array, got U32(4)");
    m.insert(COMPRESS_RATIOS_KEY.to_string(), Value::Array(ratios_for(8)));
    assert_eq!(got(&m), "deepseek4.attention.compress_ratios: array length 8 < n_layer 32");
    let mut arr = ratios_for(32);
    arr[3] = Value::Bool(false);
    m.insert(COMPRESS_RATIOS_KEY.to_string(), Value::Array(arr));
    assert_eq!(got(&m), "deepseek4.attention.compress_ratios[3]: expected u32, got Bool(false)");
    let mut arr = ratios_for(32);
    arr[4] = Value::U32(128);
    m.insert(COMPRESS_RATIOS_KEY.to_string(), Value::Array(arr));
    assert_eq!(
        got(&m),
        "deepseek4.attention.compress_ratios[4]: GGUF says 128, expected 4"
    );
}

#[test]
fn the_first_wrong_ratio_is_reported() {
    let mut m = base_metadata();
    let mut arr = ratios_for(33);
    arr[32] = Value::U32(9); // behind the last layer: not looked at
    m.insert(COMPRESS_RATIOS_KEY.to_string(), Value::Array(arr));
    ModelConfig::from_metadata(&m).expect("only the layers' ratios count");
    let mut arr = ratios_for(32);
    arr[7] = Value::U32(1);
    arr[5] = Value::U32(2);
    m.insert(COMPRESS_RATIOS_KEY.to_string(), Value::Array(arr));
    assert!(matches!(
        ModelConfig::from_metadata(&m),
        Err(ConfigError::Ratio { il: 5, got: 2, want: 128 })
    ));
}

// Spells the numbers with a fraction that a message names.
fn spelled(e: &ConfigError) -> Vec<String> {
    e.fractions()
        .iter()
        .map(|f| match *f {
            Fraction::Single(b) => format!("{:?}", f32::from_bits(b)),
            Fraction::Double(b) => format!("{:?}", f64::from_bits(b)),
        })
        .collect()
}

// Values with their numbers as numbers, written as they are derived.
#[allow(dead_code)]
#[derive(Debug)]
enum Plain {
    U8(u8),
    I8(i8),
    U16(u16),
    I16(i16),
    U32(u32),
    I32(i32),
    U64(u64),
    I64(i64),
    F32(f32),
    F64(f64),
    Bool(bool),
    String(String),
    Array(Vec<Plain>),
}

fn value(p: &Plain) -> Value {
    match p {
        Plain::U8(v) => Value::U8(*v),
        Plain::I8(v) => Value::I8(*v),
        Plain::U16(v) => Value::U16(*v),
        Plain::I16(v) => Value::I16(*v),
        Plain::U32(v) => Value::U32(*v),
        Plain::I32(v) => Value::I32(*v),
        Plain::U64(v) => Value::U64(*v),
        Plain::I64(v) => Value::I64(*v),
        Plain::F32(v) => Value::F32(v.to_bits()),
        Plain::F64(v) => Value::F64(v.to_bits()),
        Plain::Bool(v) => Value::Bool(*v),
        Plain::String(v) => Value::String(v.clone()),
        Plain::Array(a) => Value::Array(a.iter().map(value).collect()),
    }
}

fn plain_values() -> Vec<Plain> {
    vec![
        Plain::U8(255),
        Plain::I8(-128),
        Plain::U16(65535),
        Plain::I16(-1),
        Plain::I32(i32::MIN),
        Plain::U64(u64::MAX),
        Plain::I64(i64::MIN),
        Plain::I64(0),
        Plain::F32(1.5),
        Plain::F32(f32::NAN),
        Plain::F64(-1e300),
        Plain::Bool(true),
        Plain::Bool(false),
        Plain::String("a \"b\"\n\u{e9}".to_string()),
    ]
}

#[test]
fn a_message_names_the_value_that_is_no_array() {
    for p in plain_values() {
        let mut m = base_metadata();
        m.insert(COMPRESS_RATIOS_KEY.to_string(), value(&p));
        let e = ModelConfig::from_metadata(&m).unwrap_err();
        assert_eq!(
            e.message(&spelled(&e)),
            format!("deepseek4.attention.compress_ratios: expected array, got {p:?}")
        );
    }
}

#[test]
fn a_message_names_the_entry_that_is_no_number() {
    let nested = Plain::Array(vec![
        Plain::F32(0.25),
        Plain::Array(vec![]),
        Plain::Array(vec![Plain::U32(7), Plain::F64(2.0), Plain::String("x".to_string())]),
        Plain::F32(-3.0),
    ]);
    for p in plain_values().into_iter().chain([nested]) {
        let mut m = base_metadata();
        let mut arr = ratios_for(32);
        arr[6] = value(&p);
        m.insert(COMPRESS_RATIOS_KEY.to_string(), Value::Array(arr));
        let e = ModelConfig::from_metadata(&m).unwrap_err();
        assert_eq!(
            e.message(&spelled(&e)),
            format!("deepseek4.attention.compress_ratios[6]: expected u32, got {p:?}")
        );
    }
}

#[test]
fn fractions_come_in_order() {
    let a = Value::Array(vec![
        Value::F32(1.0f32.to_bits()),
        Value::Array(vec![Value::F64(2.0f64.to_bits()), Value::U8(1)]),
        Value::F32(3.0f32.to_bits()),
    ]);
    let mut out = Vec::new();
    a.duplicate().push_fractions(&mut out);
    assert_eq!(
        out,
        [
            Fraction::Single(1.0f32.to_bits()),
            Fraction::Double(2.0f64.to_bits()),
            Fraction::Single(3.0f32.to_bits())
        ]
    );
}
