use ds4::cli::{reply_to, rewound_line, Reply, REPL_HELP};
use ds4::gguf::GGUF_MAGIC;
use ds4::model::forward::{embed_token, forward_start, ForwardError};
use ds4::model::kv_cache::HEAD_DIM;
use ds4::model::WeightMap;
use ds4::session::{common_prefix_len, Outcome, Run, Session, SessionError};

// A model file without tensors.
fn minimal_gguf() -> Vec<u8> {
    let mut buf: Vec<u8> = Vec::new();
    let u32le = |buf: &mut Vec<u8>, v: u32| buf.extend_from_slice(&v.to_le_bytes());
    let u64le = |buf: &mut Vec<u8>, v: u64| buf.extend_from_slice(&v.to_le_bytes());
    let kv_u32 = |buf: &mut Vec<u8>, k: &str, v: u32| {
        u64le(buf, k.len() as u64);
        buf.extend_from_slice(k.as_bytes());
        u32le(buf, 4);
        u32le(buf, v);
    };
    u32le(&mut buf, GGUF_MAGIC);
    u32le(&mut buf, 3);
    u64le(&mut buf, 0);
    u64le(&mut buf, 7);
    kv_u32(&mut buf, "deepseek4.vocab_size", 256);
    kv_u32(&mut buf, "deepseek4.embedding_length", 16);
    kv_u32(&mut buf, "deepseek4.attention.head_count", 4);
    kv_u32(&mut buf, "deepseek4.attention.head_count_kv", 4);
    kv_u32(&mut buf, "deepseek4.block_count", 2);
    kv_u32(&mut buf, "deepseek4.expert_feed_forward_length", 32);
    kv_u32(&mut buf, "deepseek4.attention.q_lora_rank", 8);
    buf
}

// Runs a run to its end. The model has no embedding table, so that every
// evaluation fails.
fn drive(s: &mut Session, model: &WeightMap, mut run: Run) -> Result<(), ForwardError> {
    let mut error = None;
    while run.is_waiting() {
        let (token, dim) = forward_start(s.tokens(), s.pos(), &model.config())?;
        assert_eq!(dim, 4 * 16);
        let outcome = match embed_token(model, token) {
            Ok(_) => unreachable!(),
            Err(e) => {
                error = Some(e);
                Outcome::Failed
            }
        };
        run = s.resume(run, outcome);
    }
    assert_eq!(run.has_failed(), error.is_some());
    match error {
        Some(e) => Err(e),
        None => Ok(()),
    }
}

fn done(value: f32) -> Outcome {
    Outcome::Done { logits: vec![value.to_bits(); 256], hidden: vec![value.to_bits(); 16] }
}

// Runs a run to its end; the scores behind the first token are all 1, those
// behind the second all 2, and so on. Each evaluation leaves a row in layer 0.
fn drive_well(s: &mut Session, mut run: Run) -> usize {
    let mut n = 0;
    while run.is_waiting() {
        n += 1;
        s.kv_cache_mut().layer_mut(0).push(&synth_row(n as f32));
        run = s.resume(run, done(n as f32));
    }
    assert!(!run.has_failed());
    n
}

fn synth_row(seed: f32) -> Vec<u32> {
    (0..HEAD_DIM).map(|i| (seed + i as f32 * 0.001).to_bits()).collect()
}

fn bits(values: &[f32]) -> Vec<u32> {
    values.iter().map(|x| x.to_bits()).collect()
}

fn session(model: &WeightMap, ctx_size: u32) -> Session {
    Session::new(&model.config(), false, ctx_size).unwrap()
}

#[test]
fn argmax_empty_is_none() {
    assert_eq!(Session::argmax(&[]), None);
}

#[test]
fn argmax_single() {
    assert_eq!(Session::argmax(&bits(&[1.0])), Some(0));
    assert_eq!(Session::argmax(&bits(&[f32::NEG_INFINITY])), None);
}

#[test]
fn argmax_picks_highest() {
    assert_eq!(Session::argmax(&bits(&[0.1, 0.9, 0.2])), Some(1));
    assert_eq!(Session::argmax(&bits(&[-3.0, -1.0, -2.0])), Some(1));
}

#[test]
fn argmax_skips_nan() {
    assert_eq!(Session::argmax(&bits(&[f32::NAN, 0.5, f32::NAN])), Some(1));
    assert_eq!(Session::argmax(&bits(&[f32::NAN, f32::NAN])), None);
}

#[test]
fn argmax_ties_take_first() {
    assert_eq!(Session::argmax(&bits(&[0.5, 0.5, 0.5])), Some(0));
}

#[test]
fn argmax_with_infinity() {
    assert_eq!(Session::argmax(&bits(&[1.0, f32::INFINITY, 2.0])), Some(1));
    assert_eq!(
        Session::argmax(&bits(&[f32::NEG_INFINITY, f32::NEG_INFINITY, 0.0])),
        Some(2)
    );
}

#[test]
fn argmax_all_neg_infinity_is_none() {
    assert_eq!(
        Session::argmax(&bits(&[f32::NEG_INFINITY, f32::NEG_INFINITY])),
        None
    );
}

#[test]
fn argmax_takes_both_zeros_as_equal() {
    assert_eq!(Session::argmax(&bits(&[-0.0, 0.0])), Some(0));
    assert_eq!(Session::argmax(&bits(&[0.0, -0.0])), Some(0));
}

#[test]
fn session_prefill_requires_forward_weights_and_rolls_back() {
    let bytes = minimal_gguf();
    let model = WeightMap::new(&bytes, 0).unwrap();
    let mut s = session(&model, 128);
    assert_eq!(s.pos(), 0);
    assert!(s.tokens().is_empty());

    let run = s.prefill(&[1, 2, 3]).unwrap();
    let err = drive(&mut s, &model, run).unwrap_err();
    assert!(err.message().contains("token_embd.weight"));
    assert_eq!(s.pos(), 0);
    assert!(s.tokens().is_empty());
    assert_eq!(s.logits().len(), model.config().n_vocab as usize);
}

#[test]
fn session_eval_token_requires_forward_weights_and_rolls_back() {
    let bytes = minimal_gguf();
    let model = WeightMap::new(&bytes, 0).unwrap();
    let mut s = session(&model, 128);
    let run = s.eval_token(30).unwrap();
    let err = drive(&mut s, &model, run).unwrap_err();
    assert!(err.message().contains("token_embd.weight"));
    assert_eq!(s.pos(), 0);
    assert!(s.tokens().is_empty());
    assert_eq!(s.logits().len(), model.config().n_vocab as usize);
}

#[test]
fn session_initial_state_is_empty() {
    let bytes = minimal_gguf();
    let model = WeightMap::new(&bytes, 0).unwrap();
    let s = session(&model, 256);
    assert_eq!(s.pos(), 0);
    assert_eq!(s.ctx_size(), 256);
    assert!(s.tokens().is_empty());
    assert_eq!(s.kv_cache().n_layer(), model.config().n_layer as usize);
    for il in 0..s.kv_cache().n_layer() {
        assert_eq!(s.kv_cache().layer(il).n_raw(), 0);
    }
}

#[test]
fn session_prefill_rejects_context_overflow_before_mutating() {
    let bytes = minimal_gguf();
    let model = WeightMap::new(&bytes, 0).unwrap();
    let mut s = session(&model, 2);
    let err = s.prefill(&[1, 2, 3]).err().unwrap();
    assert!(err.message().contains("context overflow"));
    assert_eq!(s.pos(), 0);
    assert!(s.tokens().is_empty());
}

#[test]
fn session_eval_token_failure_restores_seeded_kv_state() {
    let bytes = minimal_gguf();
    let model = WeightMap::new(&bytes, 0).unwrap();
    let n_layer = model.config().n_layer as usize;
    let mut s = session(&model, 8);

    let seed = synth_row(3.0);
    for il in 0..n_layer {
        s.kv_cache_mut().layer_mut(il).push(&seed);
    }

    let run = s.eval_token(5).unwrap();
    let err = drive(&mut s, &model, run).unwrap_err();
    assert!(err.message().contains("token_embd.weight"));
    assert_eq!(s.pos(), 0);
    assert!(s.tokens().is_empty());
    for il in 0..n_layer {
        assert_eq!(s.kv_cache().layer(il).n_raw(), 1);
        assert_eq!(s.kv_cache().layer(il).rows(), seed.as_slice());
    }
}

#[test]
fn session_prefill_failure_restores_pre_existing_kv_state() {
    let bytes = minimal_gguf();
    let model = WeightMap::new(&bytes, 0).unwrap();
    let mut s = session(&model, 16);

    let seed = synth_row(7.0);
    s.kv_cache_mut().layer_mut(0).push(&seed);
    s.kv_cache_mut().layer_mut(1).push(&seed);

    let run = s.prefill(&[1, 2, 3]).unwrap();
    let err = drive(&mut s, &model, run).unwrap_err();
    assert!(err.message().contains("token_embd.weight"));
    assert_eq!(s.pos(), 0);
    assert!(s.tokens().is_empty());
    assert_eq!(s.kv_cache().layer(0).n_raw(), 1);
    assert_eq!(s.kv_cache().layer(1).n_raw(), 1);
    assert_eq!(s.kv_cache().layer(0).rows(), seed.as_slice());
    assert_eq!(s.kv_cache().layer(1).rows(), seed.as_slice());
}

#[test]
fn session_eval_without_prefill_rolls_back_on_forward_error() {
    let bytes = minimal_gguf();
    let model = WeightMap::new(&bytes, 0).unwrap();
    let mut s = session(&model, 16);
    let run = s.eval_token(7).unwrap();
    let err = drive(&mut s, &model, run).unwrap_err();
    assert!(err.message().contains("token_embd.weight"));
    assert_eq!(s.pos(), 0);
    assert!(s.tokens().is_empty());
}

#[test]
fn session_eval_rejects_context_overflow_before_mutating() {
    let bytes = minimal_gguf();
    let model = WeightMap::new(&bytes, 0).unwrap();
    let mut s = session(&model, 0);
    let err = s.eval_token(7).err().unwrap();
    assert!(err.message().contains("context overflow"));
    assert_eq!(s.pos(), 0);
    assert!(s.tokens().is_empty());
}

#[test]
fn session_empty_prefill_keeps_state() {
    let bytes = minimal_gguf();
    let model = WeightMap::new(&bytes, 0).unwrap();
    let mut s = session(&model, 16);
    let run = s.prefill(&[]).unwrap();
    assert!(!run.is_waiting() && !run.has_failed());
    assert_eq!(s.logits().len(), model.config().n_vocab as usize);
    assert_eq!(s.pos(), 0);
    assert!(s.tokens().is_empty());
}

#[test]
fn invalidate_clears_tokens_pos_kv_and_zeros_logits() {
    let bytes = minimal_gguf();
    let model = WeightMap::new(&bytes, 0).unwrap();
    let mut s = session(&model, 8);

    s.restore_from_tokens(vec![10, 20]).unwrap();
    for _ in 0..3 {
        s.kv_cache_mut().layer_mut(0).push(&synth_row(1.5));
    }
    let run = s.eval_token(30).unwrap();
    assert!(!s.resume(run, done(7.0)).is_waiting());
    assert!(s.logits().iter().all(|&v| v == 7.0f32.to_bits()));

    s.invalidate();

    assert_eq!(s.pos(), 0);
    assert!(s.tokens().is_empty());
    assert_eq!(s.kv_cache().layer(0).n_raw(), 0);
    assert_eq!(s.logits().len(), model.config().n_vocab as usize);
    assert!(s.logits().iter().all(|&v| v == 0));
}

#[test]
fn invalidate_on_fresh_session_is_noop() {
    let bytes = minimal_gguf();
    let model = WeightMap::new(&bytes, 0).unwrap();
    let mut s = session(&model, 4);
    s.invalidate();
    assert_eq!(s.pos(), 0);
    assert!(s.tokens().is_empty());
    assert_eq!(s.kv_cache().layer(0).n_raw(), 0);
}

#[test]
fn invalidate_keeps_kv_cap_unchanged() {
    let bytes = minimal_gguf();
    let model = WeightMap::new(&bytes, 0).unwrap();
    let mut s = session(&model, 8);
    let cap_before = s.kv_cache().cap_raw();
    s.restore_from_tokens(vec![1, 2]).unwrap();
    s.kv_cache_mut().layer_mut(0).push(&synth_row(0.0));
    s.invalidate();
    assert_eq!(s.kv_cache().cap_raw(), cap_before);
    assert_eq!(s.kv_cache().n_layer(), model.config().n_layer as usize);
}

#[test]
fn rewind_to_current_length_is_noop() {
    let bytes = minimal_gguf();
    let model = WeightMap::new(&bytes, 0).unwrap();
    let mut s = session(&model, 8);
    s.restore_from_tokens(vec![7, 8]).unwrap();
    for _ in 0..2 {
        s.kv_cache_mut().layer_mut(0).push(&synth_row(0.0));
    }

    let run = s.rewind(2);
    drive(&mut s, &model, run).unwrap();

    assert_eq!(s.pos(), 2);
    assert_eq!(s.tokens(), &[7, 8]);
    assert_eq!(s.kv_cache().layer(0).n_raw(), 2);
}

#[test]
fn rewind_past_end_clamps_to_current_length() {
    let bytes = minimal_gguf();
    let model = WeightMap::new(&bytes, 0).unwrap();
    let mut s = session(&model, 8);
    s.restore_from_tokens(vec![1, 2, 3]).unwrap();
    for _ in 0..3 {
        s.kv_cache_mut().layer_mut(0).push(&synth_row(0.0));
    }

    let run = s.rewind(99);
    drive(&mut s, &model, run).unwrap();

    assert_eq!(s.pos(), 3);
    assert_eq!(s.tokens(), &[1, 2, 3]);
    assert_eq!(s.kv_cache().layer(0).n_raw(), 3);
}

#[test]
fn rewind_to_zero_acts_like_invalidate() {
    let bytes = minimal_gguf();
    let model = WeightMap::new(&bytes, 0).unwrap();
    let mut s = session(&model, 8);
    s.restore_from_tokens(vec![1, 2]).unwrap();
    for _ in 0..3 {
        s.kv_cache_mut().layer_mut(0).push(&synth_row(0.0));
    }
    let run = s.eval_token(3).unwrap();
    assert!(!s.resume(run, done(5.0)).is_waiting());

    let run = s.rewind(0);
    drive(&mut s, &model, run).unwrap();

    assert_eq!(s.pos(), 0);
    assert!(s.tokens().is_empty());
    assert_eq!(s.kv_cache().layer(0).n_raw(), 0);
    assert!(s.logits().iter().all(|&v| v == 0));
}

#[test]
fn rewind_partial_replays_through_forward_and_surfaces_error() {
    let bytes = minimal_gguf();
    let model = WeightMap::new(&bytes, 0).unwrap();
    let mut s = session(&model, 8);
    s.restore_from_tokens(vec![10, 20, 30, 40, 50]).unwrap();
    for _ in 0..5 {
        s.kv_cache_mut().layer_mut(0).push(&synth_row(0.0));
    }

    let run = s.rewind(2);
    let err = drive(&mut s, &model, run).unwrap_err();
    assert!(err.message().contains("token_embd.weight"));
    assert_eq!(s.pos(), 0);
    assert!(s.tokens().is_empty());
    assert_eq!(s.kv_cache().layer(0).n_raw(), 0);
}

#[test]
fn common_prefix_len_identical() {
    assert_eq!(common_prefix_len(&[1, 2, 3], &[1, 2, 3]), 3);
}

#[test]
fn common_prefix_len_partial() {
    assert_eq!(common_prefix_len(&[1, 2, 3, 4, 5], &[1, 2, 3, 7, 8]), 3);
}

#[test]
fn common_prefix_len_no_match() {
    assert_eq!(common_prefix_len(&[1, 2], &[3, 4]), 0);
}

#[test]
fn common_prefix_len_empty() {
    assert_eq!(common_prefix_len(&[], &[1, 2]), 0);
    assert_eq!(common_prefix_len(&[1, 2], &[]), 0);
    assert_eq!(common_prefix_len(&[], &[]), 0);
}

#[test]
fn common_prefix_len_one_longer() {
    assert_eq!(common_prefix_len(&[1, 2, 3], &[1, 2, 3, 4, 5]), 3);
}

#[test]
fn a_prompt_is_evaluated_token_by_token() {
    let bytes = minimal_gguf();
    let model = WeightMap::new(&bytes, 0).unwrap();
    let mut s = session(&model, 8);
    let run = s.prefill(&[1, 2, 3]).unwrap();
    assert_eq!(s.tokens(), &[1]);
    assert_eq!(drive_well(&mut s, run), 3);
    assert_eq!(s.tokens(), &[1, 2, 3]);
    assert_eq!(s.pos(), 3);
    assert_eq!(s.logits()[0], 3.0f32.to_bits());
    assert_eq!(s.last_hidden()[0], 3.0f32.to_bits());
    assert_eq!(s.kv_cache().layer(0).n_raw(), 3);
}

#[test]
fn a_prompt_that_fails_midway_changes_nothing() {
    let bytes = minimal_gguf();
    let model = WeightMap::new(&bytes, 0).unwrap();
    let mut s = session(&model, 8);
    let run = s.prefill(&[1, 2]).unwrap();
    drive_well(&mut s, run);

    let run = s.prefill(&[3, 4, 5]).unwrap();
    s.kv_cache_mut().layer_mut(0).push(&synth_row(9.0));
    let run = s.resume(run, done(9.0));
    assert_eq!(s.tokens(), &[1, 2, 3, 4]);
    s.kv_cache_mut().layer_mut(1).push(&synth_row(9.0));
    assert!(s.resume(run, Outcome::Failed).has_failed());

    assert_eq!(s.tokens(), &[1, 2]);
    assert_eq!(s.pos(), 2);
    assert_eq!(s.logits()[0], 2.0f32.to_bits());
    assert_eq!(s.kv_cache().layer(0).n_raw(), 2);
    assert_eq!(s.kv_cache().layer(1).n_raw(), 0);
}

#[test]
fn rewinding_evaluates_the_tokens_that_stay() {
    let bytes = minimal_gguf();
    let model = WeightMap::new(&bytes, 0).unwrap();
    let mut s = session(&model, 8);
    let run = s.prefill(&[1, 2, 3, 4]).unwrap();
    drive_well(&mut s, run);
    let run = s.rewind(2);
    assert_eq!(drive_well(&mut s, run), 2);
    assert_eq!(s.tokens(), &[1, 2]);
    assert_eq!(s.kv_cache().layer(0).n_raw(), 2);
    assert_eq!(s.logits()[0], 2.0f32.to_bits());
}

#[test]
fn the_last_scores_can_be_had_again() {
    let bytes = minimal_gguf();
    let model = WeightMap::new(&bytes, 0).unwrap();
    let mut s = session(&model, 8);
    let run = s.prefill(&[1, 2]).unwrap();
    drive_well(&mut s, run);
    let run = s.recompute_last_logits().unwrap();
    assert_eq!(s.tokens(), &[1, 2]);
    assert_eq!(s.pos(), 1);
    assert_eq!(s.kv_cache().layer(0).n_raw(), 1);
    assert_eq!(drive_well(&mut s, run), 1);
    assert_eq!(s.pos(), 2);
    assert_eq!(s.kv_cache().layer(0).n_raw(), 2);

    let run = s.recompute_last_logits().unwrap();
    assert!(s.resume(run, Outcome::Failed).has_failed());
    assert_eq!(s.tokens(), &[1, 2]);
    assert_eq!(s.pos(), 2);
    assert_eq!(s.kv_cache().layer(0).n_raw(), 2);
}

#[test]
fn an_evaluation_without_a_copy_keeps_its_rows() {
    let bytes = minimal_gguf();
    let model = WeightMap::new(&bytes, 0).unwrap();
    let mut s = session(&model, 8);
    let run = s.eval_token_no_snapshot(4).unwrap();
    s.kv_cache_mut().layer_mut(0).push(&synth_row(1.0));
    assert!(s.resume(run, Outcome::Failed).has_failed());
    assert!(s.tokens().is_empty());
    assert_eq!(s.kv_cache().layer(0).n_raw(), 1);
}

#[test]
fn tokens_are_truncated_and_the_cache_is_put_back() {
    let bytes = minimal_gguf();
    let model = WeightMap::new(&bytes, 0).unwrap();
    let mut s = session(&model, 8);
    s.restore_from_tokens(vec![1, 2, 3]).unwrap();
    s.truncate_tokens(5);
    assert_eq!(s.tokens(), &[1, 2, 3]);
    s.truncate_tokens(1);
    assert_eq!(s.tokens(), &[1]);
    assert_eq!(s.pos(), 1);
    s.kv_cache_mut().layer_mut(0).push(&synth_row(1.0));
    s.snapshot_kv();
    s.kv_cache_mut().clear_all();
    s.restore_kv();
    assert_eq!(s.kv_cache().layer(0).rows(), synth_row(1.0).as_slice());
}

#[test]
fn messages_of_each_session_error() {
    let bytes = minimal_gguf();
    let model = WeightMap::new(&bytes, 0).unwrap();
    let mut s = session(&model, 2);
    assert_eq!(
        s.prefill(&[1, 2, 3]).err().unwrap(),
        SessionError::PrefillContext { len: 3, ctx_size: 2 }
    );
    assert_eq!(
        s.prefill(&[1, 2, 3]).err().unwrap().message(),
        "prefill context overflow: final length 3 exceeds ctx_size 2"
    );
    assert_eq!(
        s.recompute_last_logits().err().unwrap().message(),
        "recompute_last_logits: session is empty"
    );
    assert_eq!(
        s.restore_from_tokens(vec![1, 2, 3]).unwrap_err().message(),
        "restore_from_tokens: 3 tokens exceeds ctx_size 2"
    );
    s.restore_from_tokens(vec![1, 2]).unwrap();
    assert_eq!(
        s.eval_token(3).err().unwrap().message(),
        "eval_token context overflow: pos 2 >= ctx_size 2"
    );
}

fn say(r: Reply) -> String {
    match r {
        Reply::Say(text) => text,
        _ => panic!("expected a line to write"),
    }
}

#[test]
fn lines_that_need_no_evaluation_are_answered() {
    let bytes = minimal_gguf();
    let model = WeightMap::new(&bytes, 0).unwrap();
    let mut s = session(&model, 64);
    let run = s.prefill(&[7, 8, 9]).unwrap();
    drive_well(&mut s, run);
    assert!(matches!(reply_to("  \n", &mut s), Reply::Silence));
    assert!(matches!(reply_to("/quit\n", &mut s), Reply::Leave));
    assert_eq!(say(reply_to("/?\n", &mut s)), REPL_HELP);
    assert_eq!(say(reply_to("/ctx\n", &mut s)), "ctx_size=64  pos=3  tokens=3");
    assert_eq!(
        say(reply_to("/reset later\n", &mut s)),
        "error: /reset does not take arguments \u{2014} try /help"
    );
    match reply_to(" go on\n", &mut s) {
        Reply::Turn { text, add_bos } => {
            assert_eq!(text, " go on");
            assert!(!add_bos);
        }
        _ => panic!("expected a turn"),
    }
    assert_eq!(s.tokens(), [7, 8, 9]);
    assert_eq!(say(reply_to("/clear\n", &mut s)), "session reset.");
    assert_eq!(say(reply_to("/ctx\n", &mut s)), "ctx_size=64  pos=0  tokens=0");
    assert!(matches!(reply_to("hello", &mut s), Reply::Turn { add_bos: true, .. }));
}

#[test]
fn a_rewind_evaluates_what_is_kept() {
    let bytes = minimal_gguf();
    let model = WeightMap::new(&bytes, 0).unwrap();
    let mut s = session(&model, 64);
    let run = s.prefill(&[7, 8, 9]).unwrap();
    drive_well(&mut s, run);
    match reply_to("/rewind 2\n", &mut s) {
        Reply::Rewinding { before, run } => {
            assert_eq!(before, 3);
            assert_eq!(drive_well(&mut s, run), 2);
            assert_eq!(rewound_line(before, s.pos()), "rewound from pos 3 to pos 2");
        }
        _ => panic!("expected a rewind"),
    }
    assert_eq!(s.tokens(), [7, 8]);
    match reply_to("/rewind 5\n", &mut s) {
        Reply::Rewinding { before, run } => {
            assert!(!run.is_waiting());
            assert_eq!(rewound_line(before, s.pos()), "rewound from pos 2 to pos 2");
        }
        _ => panic!("expected a rewind"),
    }
    match reply_to("/rewind 0\n", &mut s) {
        Reply::Rewinding { run, .. } => assert!(!run.is_waiting()),
        _ => panic!("expected a rewind"),
    }
    assert!(s.tokens().is_empty());
}

#[test]
fn a_replaced_snapshot_is_what_is_restored() {
    let bytes = minimal_gguf();
    let model = WeightMap::new(&bytes, 0).unwrap();
    let mut s = session(&model, 64);
    s.kv_cache_mut().layer_mut(0).push(&synth_row(1.0));
    let full = s.kv_cache().snapshot();
    s.kv_cache_mut().clear_all();
    s.snapshot_kv();
    *s.kv_snapshot_mut() = full;
    s.restore_kv();
    assert_eq!(s.kv_cache().layer(0).rows(), synth_row(1.0));
    assert_eq!(s.kv_cache().layer(1).n_raw(), 0);
}
