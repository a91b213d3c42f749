use ds4::bits::Bits32;
use ds4::config::ModelConfig;
use ds4::engine::{check_mtp, check_rope};
use ds4::gguf::{ggml_tensor_nbytes, GgmlType, GGUF_MAGIC};
use ds4::model::kv_cache::HEAD_DIM;
use ds4::model::WeightMap;
use ds4::mtp::{MtpState, MtpWeights, MAX_DRAFT_TOKENS};
use ds4::session::{Outcome, Session};
use ds4::speculative::{generate_speculative, top_two, SpecConfig, Speculation};

// A model file with the given tensors: name, type, dimensions and data.
fn model_file(tensors: &[(String, u32, Vec<u64>, Vec<u8>)]) -> Vec<u8> {
    let mut buf: Vec<u8> = Vec::new();
    let u32le = |buf: &mut Vec<u8>, v: u32| buf.extend_from_slice(&v.to_le_bytes());
    let u64le = |buf: &mut Vec<u8>, v: u64| buf.extend_from_slice(&v.to_le_bytes());
    let strle = |buf: &mut Vec<u8>, s: &str| {
        buf.extend_from_slice(&(s.len() as u64).to_le_bytes());
        buf.extend_from_slice(s.as_bytes());
    };
    u32le(&mut buf, GGUF_MAGIC);
    u32le(&mut buf, 3);
    u64le(&mut buf, tensors.len() as u64);
    let numbers = [
        ("deepseek4.vocab_size", 256),
        ("deepseek4.embedding_length", 16),
        ("deepseek4.attention.head_count", 4),
        ("deepseek4.attention.head_count_kv", 4),
        ("deepseek4.block_count", 2),
        ("deepseek4.expert_feed_forward_length", 32),
        ("deepseek4.attention.q_lora_rank", 8),
        ("deepseek4.expert_count", 4),
        ("deepseek4.expert_used_count", 2),
    ];
    u64le(&mut buf, numbers.len() as u64);
    for (key, value) in numbers {
        strle(&mut buf, key);
        u32le(&mut buf, 4);
        u32le(&mut buf, value);
    }
    let mut offset = 0;
    for (name, dtype, dims, data) in tensors {
        strle(&mut buf, name);
        u32le(&mut buf, dims.len() as u32);
        for d in dims {
            u64le(&mut buf, *d);
        }
        u32le(&mut buf, *dtype);
        u64le(&mut buf, offset);
        offset += (data.len() as u64 + 31) / 32 * 32;
    }
    while buf.len() % 32 != 0 {
        buf.push(0);
    }
    for (_, _, _, data) in tensors {
        buf.extend_from_slice(data);
        while buf.len() % 32 != 0 {
            buf.push(0);
        }
    }
    buf
}

const EOS: u32 = 1;

fn config() -> ModelConfig {
    let bytes = model_file(&[]);
    WeightMap::new(&bytes, 0).unwrap().config()
}

fn bits(values: &[f32]) -> Vec<Bits32> {
    values.iter().map(|x| x.to_bits()).collect()
}

// Scores with `best` ahead.
fn scores(best: u32) -> Vec<Bits32> {
    let mut v = vec![0.0f32; 256];
    v[best as usize] = 5.0;
    bits(&v)
}

fn outcome(best: u32) -> Outcome {
    Outcome::Done { logits: scores(best), hidden: vec![best; 16] }
}

// A session that has evaluated token 9 and favours `best`.
fn session(has_mtp: bool, best: u32) -> Session {
    let mut s = Session::new(&config(), has_mtp, 32).unwrap();
    let run = s.eval_token(9).unwrap();
    s.kv_cache_mut().layer_mut(0).push(&[0; HEAD_DIM]);
    assert!(!s.resume(run, outcome(best)).is_waiting());
    s
}

// Plays the draft model: each draft leaves a row and a hidden state.
fn draft(s: &mut Session, step: Speculation, token: u32) -> Speculation {
    let m = s.mtp_state_mut().unwrap();
    m.kv_cache.layer_mut(0).push(&[token; HEAD_DIM]);
    m.set_hidden(&vec![token; 16]);
    step.take_draft(s, token).unwrap()
}

// Plays the main model: evaluating a token leaves a row.
fn evaluate(s: &mut Session, step: Speculation, best: u32) -> Speculation {
    assert!(step.is_evaluating());
    s.kv_cache_mut().layer_mut(0).push(&[best; HEAD_DIM]);
    step.take_outcome(s, outcome(best)).unwrap()
}

fn accepted(step: Speculation) -> Vec<u32> {
    match step {
        Speculation::Done { tokens, .. } => tokens,
        _ => panic!("the step is not over"),
    }
}

#[test]
fn without_a_draft_model_one_token_is_evaluated() {
    let mut s = session(false, 3);
    let spec = SpecConfig::default();
    let step = generate_speculative(&mut s, true, true, &spec, EOS).unwrap();
    assert!(!step.is_drafting());
    assert_eq!(s.tokens(), &[9, 3]);
    let step = evaluate(&mut s, step, 4);
    assert_eq!(accepted(step), [3]);
    assert_eq!(s.pos(), 2);
    assert_eq!(Session::argmax(s.logits()), Some(4));
}

#[test]
fn without_confidence_nothing_is_drafted() {
    let mut s = session(true, 3);
    let step = generate_speculative(&mut s, true, false, &SpecConfig::default(), EOS).unwrap();
    assert!(!step.is_drafting());
    let step = evaluate(&mut s, step, 4);
    assert_eq!(accepted(step), [3]);
}

#[test]
fn a_draft_that_disagrees_at_once_is_dropped() {
    let mut s = session(true, 3);
    let spec = SpecConfig { mtp_draft_tokens: 4, ..SpecConfig::default() };
    let step = generate_speculative(&mut s, true, true, &spec, EOS).unwrap();
    assert!(step.is_drafting());
    assert_eq!(step.next_draft(), (3, 1, true));
    let step = draft(&mut s, step, 8);
    assert!(!step.is_drafting());
    let step = evaluate(&mut s, step, 4);
    assert_eq!(accepted(step), [3]);
    assert_eq!(s.tokens(), &[9, 3]);
}

#[test]
fn all_drafts_may_be_accepted() {
    let mut s = session(true, 3);
    let spec = SpecConfig { mtp_draft_tokens: 3, ..SpecConfig::default() };
    let step = generate_speculative(&mut s, true, true, &spec, EOS).unwrap();
    let step = draft(&mut s, step, 3);
    assert_eq!(step.next_draft(), (3, 2, false));
    let step = draft(&mut s, step, 4);
    assert_eq!(step.next_draft(), (4, 3, false));
    let step = draft(&mut s, step, 5);
    let step = evaluate(&mut s, step, 4);
    let step = evaluate(&mut s, step, 5);
    let step = evaluate(&mut s, step, 6);
    assert_eq!(accepted(step), [3, 4, 5]);
    assert_eq!(s.tokens(), &[9, 3, 4, 5]);
    assert_eq!(s.kv_cache().layer(0).n_raw(), 4);
    assert_eq!(s.mtp_state().unwrap().kv_cache.layer(0).n_raw(), 3);
    assert_eq!(s.mtp_state().unwrap().hidden(), vec![5; 16]);
}

#[test]
fn rejected_drafts_are_taken_back() {
    let mut s = session(true, 3);
    let spec = SpecConfig { mtp_draft_tokens: 3, ..SpecConfig::default() };
    let mut step = generate_speculative(&mut s, true, true, &spec, EOS).unwrap();
    for token in [3, 4, 5] {
        step = draft(&mut s, step, token);
    }
    // The main model agrees with 4 but wants 7 next.
    let step = evaluate(&mut s, step, 4);
    let step = evaluate(&mut s, step, 7);
    // The two accepted tokens are evaluated once more.
    assert!(step.is_evaluating());
    assert_eq!(s.kv_cache().layer(0).n_raw(), 1);
    assert_eq!(s.tokens(), &[9, 3]);
    let step = evaluate(&mut s, step, 4);
    let step = evaluate(&mut s, step, 7);
    assert_eq!(accepted(step), [3, 4]);
    assert_eq!(s.tokens(), &[9, 3, 4]);
    assert_eq!(Session::argmax(s.logits()), Some(7));
    assert_eq!(s.kv_cache().layer(0).n_raw(), 3);
    assert_eq!(s.mtp_state().unwrap().kv_cache.layer(0).n_raw(), 2);
    assert_eq!(s.mtp_state().unwrap().hidden(), vec![4; 16]);
}

#[test]
fn drafting_stops_at_the_end_of_text() {
    let mut s = session(true, 3);
    let spec = SpecConfig { mtp_draft_tokens: 100, ..SpecConfig::default() };
    let step = generate_speculative(&mut s, true, true, &spec, EOS).unwrap();
    let step = draft(&mut s, step, 3);
    let step = draft(&mut s, step, EOS);
    assert!(!step.is_drafting());
    let step = evaluate(&mut s, step, EOS);
    let step = evaluate(&mut s, step, 0);
    assert_eq!(accepted(step), [3, EOS]);
}

#[test]
fn at_most_sixteen_tokens_are_drafted() {
    let mut s = session(true, 3);
    let spec = SpecConfig { mtp_draft_tokens: 100, ..SpecConfig::default() };
    let mut step = generate_speculative(&mut s, true, true, &spec, EOS).unwrap();
    let mut n = 0;
    while step.is_drafting() {
        step = draft(&mut s, step, 3);
        n += 1;
    }
    assert_eq!(n, MAX_DRAFT_TOKENS);
}

#[test]
fn a_failed_evaluation_ends_the_step() {
    let mut s = session(true, 3);
    let step = generate_speculative(&mut s, false, true, &SpecConfig::default(), EOS).unwrap();
    let step = step.take_outcome(&mut s, Outcome::Failed).unwrap();
    assert!(matches!(step, Speculation::Failed));
    assert_eq!(s.tokens(), &[9]);
}

#[test]
fn a_step_needs_scores_and_room() {
    let mut s = Session::new(&config(), false, 32).unwrap();
    let run = s.eval_token(9).unwrap();
    let none = Outcome::Done { logits: bits(&[f32::NAN; 3]), hidden: vec![0; 16] };
    s.resume(run, none);
    let err = generate_speculative(&mut s, true, true, &SpecConfig::default(), EOS).err().unwrap();
    assert_eq!(err.message(), "speculative: no logits");

    let mut s = Session::new(&config(), false, 1).unwrap();
    let run = s.eval_token(9).unwrap();
    s.resume(run, outcome(3));
    let err = generate_speculative(&mut s, true, true, &SpecConfig::default(), EOS).err().unwrap();
    assert!(err.message().contains("context overflow"));
}

#[test]
fn the_two_best_scores() {
    let f = |v: &[f32]| top_two(&bits(v)).map(|(a, b)| (f32::from_bits(a), f32::from_bits(b)));
    assert_eq!(f(&[1.0]), None);
    assert_eq!(f(&[1.0, 4.0, 3.0]), Some((4.0, 3.0)));
    assert_eq!(f(&[4.0, 4.0]), Some((4.0, 4.0)));
    assert_eq!(f(&[f32::NAN, 2.0]), Some((2.0, f32::NEG_INFINITY)));
    assert_eq!(f32::from_bits(SpecConfig::default().mtp_margin), 3.0);
    assert_eq!(SpecConfig::default().mtp_draft_tokens, 1);
}

#[test]
fn hidden_states_are_kept_in_order() {
    let mut m = MtpState::new(&config(), 8).unwrap();
    for i in 1..=16u32 {
        m.set_hidden(&vec![i; 16]);
        m.store_hidden_snapshot(16);
    }
    assert_eq!(m.hidden_snapshot_count(), MAX_DRAFT_TOKENS);
    assert_eq!(m.get_hidden_snapshot(0, 16), &[1; 16]);
    assert_eq!(m.get_hidden_snapshot(15, 16), &[16; 16]);
    m.restore_hidden_snapshot(4, 16);
    assert_eq!(m.prev_hidden, vec![5; 16]);
    m.reset_hidden_snapshots();
    assert_eq!(m.hidden_snapshot_count(), 0);
}

#[test]
fn the_draft_cache_is_put_back() {
    let mut m = MtpState::new(&config(), 8).unwrap();
    m.kv_cache.layer_mut(0).push(&[1; HEAD_DIM]);
    m.snapshot_kv();
    m.kv_cache.layer_mut(0).push(&[2; HEAD_DIM]);
    m.kv_cache.layer_mut(0).push(&[3; HEAD_DIM]);
    m.pop_rows(1);
    assert_eq!(m.kv_cache.layer(0).n_raw(), 2);
    m.restore_kv();
    assert_eq!(m.kv_cache.layer(0).rows(), &[1; HEAD_DIM]);
    m.clear();
    assert_eq!(m.kv_cache.layer(0).n_raw(), 0);
    assert_eq!(m.hidden(), vec![0; 16]);
}

#[test]
fn draft_weights_are_looked_up() {
    let bytes = model_file(&[]);
    let map = WeightMap::new(&bytes, 0).unwrap();
    assert_eq!(
        MtpWeights::from_map(&map).err().unwrap().message(),
        "mtp.0.e_proj.weight"
    );
    let t = |name: &str, dtype: GgmlType, dims: &[u64]| {
        let n: u64 = dims.iter().product();
        let size = ggml_tensor_nbytes(n as usize, dtype).unwrap();
        (name.to_string(), dtype.to_u32(), dims.to_vec(), vec![0u8; size])
    };
    let (f, h, q) = (GgmlType::F32, GgmlType::F16, GgmlType::Q8_0);
    let mut tensors = vec![
        t("mtp.0.e_proj.weight", q, &[32, 2]),
        t("mtp.0.h_proj.weight", q, &[32, 2]),
        t("mtp.0.enorm.weight", f, &[16]),
        t("mtp.0.hnorm.weight", f, &[16]),
        t("mtp.0.norm.weight", f, &[16]),
        t("mtp.0.hc_head_fn.weight", h, &[64, 4]),
        t("mtp.0.hc_head_scale.weight", f, &[1]),
        t("mtp.0.hc_head_base.weight", f, &[4]),
    ];
    for (name, dtype, dims) in [
        ("attn_norm.weight", f, vec![16]),
        ("attn_q_a.weight", q, vec![32, 8]),
        ("attn_q_a_norm.weight", f, vec![8]),
        ("attn_q_b.weight", q, vec![32, 2]),
        ("attn_kv.weight", q, vec![32, 4]),
        ("attn_kv_a_norm.weight", f, vec![512]),
        ("attn_sinks.weight", f, vec![4]),
        ("attn_output_a.weight", q, vec![32, 8]),
        ("attn_output_b.weight", q, vec![32, 16]),
        ("hc_attn_fn.weight", h, vec![64, 24]),
        ("hc_attn_scale.weight", f, vec![3]),
        ("hc_attn_base.weight", f, vec![24]),
        ("hc_ffn_fn.weight", h, vec![64, 24]),
        ("hc_ffn_scale.weight", f, vec![3]),
        ("hc_ffn_base.weight", f, vec![24]),
        ("ffn_norm.weight", f, vec![16]),
        ("ffn_gate_inp.weight", h, vec![16, 4]),
        ("ffn_gate_shexp.weight", q, vec![32, 2]),
        ("ffn_up_shexp.weight", q, vec![32, 2]),
        ("ffn_down_shexp.weight", q, vec![32, 2]),
        ("ffn_gate_exps.weight", GgmlType::IQ2_XXS, vec![256, 2, 4]),
        ("ffn_up_exps.weight", GgmlType::IQ2_XXS, vec![256, 2, 4]),
        ("ffn_down_exps.weight", GgmlType::Q2_K, vec![256, 2, 4]),
    ] {
        tensors.push(t(&format!("mtp.0.{name}"), dtype, &dims));
    }
    let bytes = model_file(&tensors);
    let map = WeightMap::new(&bytes, 0).unwrap();
    let w = MtpWeights::from_map(&map).unwrap();
    assert_eq!(w.hc_head_base.len(), 4);
    assert_eq!(w.e_proj.in_features(), 32);
}

#[test]
fn two_models_must_fit_together() {
    let main = config();
    assert!(check_mtp(&main, &main).is_ok());
    let narrow = ModelConfig { n_embd: 8, ..main };
    assert_eq!(
        check_mtp(&main, &narrow).unwrap_err().message(""),
        "MTP n_embd mismatch: main=16, mtp=8"
    );
    let small = ModelConfig { n_vocab: 8, ..main };
    assert_eq!(
        check_mtp(&main, &small).unwrap_err().message(""),
        "MTP n_vocab mismatch: main=256, mtp=8"
    );
    assert!(check_rope(&main).is_ok());
    let other = ModelConfig { rope_theta: 1.5f32.to_bits(), ..main };
    assert_eq!(
        check_rope(&other).unwrap_err().message(&format!("{}", 1.5f32)),
        "rope.freq_base mismatch: GGUF metadata says 1.5, expected 10000"
    );
}

#[test]
fn a_step_accepts_no_more_than_its_limit() {
    for (limit, most) in [(0, 1), (1, 1), (4, 4), (16, 16), (100, 16)] {
        let mut s = session(true, 3);
        let spec = SpecConfig { mtp_draft_tokens: limit, ..SpecConfig::default() };
        let mut step = generate_speculative(&mut s, true, true, &spec, EOS).unwrap();
        while step.is_drafting() {
            step = draft(&mut s, step, 3);
        }
        while step.is_evaluating() {
            step = evaluate(&mut s, step, 3);
        }
        assert_eq!(accepted(step), vec![3; most], "limit {limit}");
    }
}
