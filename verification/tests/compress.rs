use ds4::config::INDEXER_HEAD;
use ds4::model::compressor::{compressor_decode_one, compressor_pool, PoolColumn};
use ds4::model::indexer::{indexer_allowed_decode_one, indexer_decode_one, indexer_pool};
use ds4::model::kv_cache::{CompressorState, IndexerState, HEAD_DIM, IDX_DIM, NEG_INF};

fn bits(x: f32) -> u32 {
    x.to_bits()
}

// The softmax-weighted mean of each column.
fn pool(columns: &[Option<PoolColumn>]) -> Vec<f32> {
    columns
        .iter()
        .map(|c| match c {
            None => 0.0,
            Some(c) => {
                let max = f32::from_bits(c.max);
                let mut sum = 0.0f32;
                let mut acc = 0.0f32;
                for (s, v) in c.scores.iter().zip(c.values.iter()) {
                    let w = (f32::from_bits(*s) - max).exp();
                    sum += w;
                    acc += w * f32::from_bits(*v);
                }
                acc / sum
            }
        })
        .collect()
}

#[test]
fn compressor_pool_all_neg_inf_score_is_zero() {
    let mut state = CompressorState::new(128, 1024).unwrap();
    for v in state.state_kv.iter_mut() {
        *v = bits(7.0);
    }
    let out = pool(&compressor_pool(&state));
    assert_eq!(out.len(), HEAD_DIM);
    for (i, &v) in out.iter().enumerate() {
        assert_eq!(v, 0.0, "dim {i} should be zero, got {v}");
    }
}

#[test]
fn pool_ratio_128_single_active_row_returns_kv_value() {
    let mut state = CompressorState::new(128, 1024).unwrap();
    let width = state.width();
    for j in 0..HEAD_DIM {
        state.state_score[7 * width + j] = bits(0.0);
        state.state_kv[7 * width + j] = bits(j as f32 * 0.25);
    }
    let out = pool(&compressor_pool(&state));
    for (j, &v) in out.iter().enumerate() {
        assert!(
            (v - j as f32 * 0.25).abs() < 1e-5,
            "dim {j}: got {v} expected {}",
            j as f32 * 0.25,
        );
    }
}

#[test]
fn pool_ratio_128_two_active_rows_softmax_average() {
    let mut state = CompressorState::new(128, 1024).unwrap();
    let width = state.width();
    for j in 0..HEAD_DIM {
        state.state_score[width + j] = bits(0.5);
        state.state_score[5 * width + j] = bits(0.5);
        state.state_kv[width + j] = bits(1.0);
        state.state_kv[5 * width + j] = bits(3.0);
    }
    let out = pool(&compressor_pool(&state));
    for (j, &v) in out.iter().enumerate() {
        assert!((v - 2.0).abs() < 1e-5, "dim {j}: got {v} expected 2.0",);
    }
}

#[test]
fn pool_ratio_4_primary_lane_only() {
    let mut state = CompressorState::new(4, 64).unwrap();
    let width = state.width();
    let ratio = 4usize;
    for r in 0..ratio {
        for j in 0..HEAD_DIM {
            state.state_score[r * width + j] = bits(0.0);
            state.state_kv[r * width + j] = bits((r as f32) + (j as f32) * 0.001);
        }
    }
    let out = pool(&compressor_pool(&state));
    for (j, &v) in out.iter().enumerate() {
        let expected: f32 = (0..ratio)
            .map(|r| (r as f32) + (j as f32) * 0.001)
            .sum::<f32>()
            / ratio as f32;
        assert!(
            (v - expected).abs() < 1e-4,
            "dim {j}: got {v} expected {expected}",
        );
    }
}

#[test]
fn pool_ratio_4_compressed_lane_only() {
    let mut state = CompressorState::new(4, 64).unwrap();
    let width = state.width();
    let ratio = 4usize;
    for r in 0..ratio {
        for j in 0..HEAD_DIM {
            let off = (ratio + r) * width + HEAD_DIM + j;
            state.state_score[off] = bits(0.0);
            state.state_kv[off] = bits(((r * 2) as f32) + (j as f32) * 0.01);
        }
    }
    let out = pool(&compressor_pool(&state));
    for (j, &v) in out.iter().enumerate() {
        let expected: f32 = (0..ratio)
            .map(|r| ((r * 2) as f32) + (j as f32) * 0.01)
            .sum::<f32>()
            / ratio as f32;
        assert!(
            (v - expected).abs() < 1e-4,
            "dim {j}: got {v} expected {expected}",
        );
    }
}

#[test]
fn pool_ratio_4_dominant_score_picks_one_entry() {
    let mut state = CompressorState::new(4, 64).unwrap();
    let width = state.width();
    let ratio = 4usize;
    state.state_score[2 * width] = bits(100.0);
    state.state_kv[2 * width] = bits(42.5);
    state.state_score[(ratio + 1) * width + HEAD_DIM] = bits(-50.0);
    state.state_kv[(ratio + 1) * width + HEAD_DIM] = bits(-999.0);

    let out = pool(&compressor_pool(&state));
    assert!(
        (out[0] - 42.5).abs() < 1e-3,
        "dim 0 should pick the dominant score, got {}",
        out[0],
    );
    for (j, &v) in out.iter().enumerate().skip(1) {
        assert_eq!(v, 0.0, "dim {j} should be 0, got {v}");
    }
}

#[test]
fn compressor_decode_one_below_boundary_does_not_emit() {
    let mut state = CompressorState::new(4, 64).unwrap();
    let row = vec![bits(0.0); 2 * HEAD_DIM];
    for pos in 0..3u32 {
        let emitted = compressor_decode_one(&mut state, &row, &row, pos).is_some();
        assert!(!emitted, "pos {pos} (< ratio-1) should not emit");
    }
}

#[test]
fn compressor_decode_one_emits_at_ratio_minus_one() {
    let mut state = CompressorState::new(4, 64).unwrap();
    let row = vec![bits(0.0); 2 * HEAD_DIM];
    for pos in 0..3u32 {
        assert!(compressor_decode_one(&mut state, &row, &row, pos).is_none());
    }
    let emitted = compressor_decode_one(&mut state, &row, &row, 3);
    assert_eq!(emitted.expect("pos = ratio-1 should emit").comp_pos, 0);
    // Next ratio window: pos 4..7; only pos=7 emits.
    for pos in 4..7u32 {
        assert!(compressor_decode_one(&mut state, &row, &row, pos).is_none());
    }
    let emitted = compressor_decode_one(&mut state, &row, &row, 7);
    assert_eq!(emitted.expect("pos = 2*ratio-1 should emit again").comp_pos, 4);
}

#[test]
fn decode_one_ratio_4_window_slide_after_emit() {
    let ratio = 4usize;
    let width = 2 * HEAD_DIM;
    let mut state = CompressorState::new(4, 64).unwrap();
    let kv_block = ratio * width;
    for i in kv_block..2 * kv_block {
        state.state_kv[i] = bits((i - kv_block) as f32 * 0.5 + 1.0);
    }
    for i in kv_block..2 * kv_block {
        state.state_score[i] = bits((i - kv_block) as f32 * 0.5 - 7.0);
    }
    let row = vec![bits(0.0); width];
    for pos in 0..4u32 {
        let _ = compressor_decode_one(&mut state, &row, &row, pos);
    }
    for i in 0..kv_block {
        assert_eq!(
            state.state_kv[i],
            state.state_kv[kv_block + i],
            "kv_block dim {i}: low/high halves differ after slide",
        );
    }
    for i in 0..kv_block {
        assert_eq!(
            state.state_score[i],
            state.state_score[kv_block + i],
            "score block dim {i}: low/high halves differ after slide",
        );
    }
}

#[test]
fn decode_one_writes_state_row_at_pos_mod() {
    let ratio = 128u32;
    let width = HEAD_DIM;
    let mut state = CompressorState::new(ratio, 1024).unwrap();
    let zero = vec![bits(0.0); width];
    let mark = vec![bits(1.5); width];
    let _ = compressor_decode_one(&mut state, &zero, &zero, 0);
    let _ = compressor_decode_one(&mut state, &zero, &mark, 1);
    for j in 0..width {
        assert_eq!(f32::from_bits(state.state_score[j]), 0.0);
    }
    for j in 0..width {
        assert!(
            (f32::from_bits(state.state_score[width + j]) - 1.5).abs() < 1e-3,
            "row 1 dim {j}: {}",
            state.state_score[width + j],
        );
    }
    for r in 2..ratio as usize {
        for j in 0..width {
            assert_eq!(state.state_score[r * width + j], NEG_INF);
        }
    }
}

#[test]
fn a_group_of_128_is_pooled_once() {
    let mut state = CompressorState::new(128, 1024).unwrap();
    for pos in 0..256u32 {
        let kv = vec![bits(pos as f32); HEAD_DIM];
        let score = vec![bits(if pos % 128 == 5 { 50.0 } else { -50.0 }); HEAD_DIM];
        match compressor_decode_one(&mut state, &kv, &score, pos) {
            None => assert_ne!(pos % 128, 127),
            Some(e) => {
                assert_eq!(pos % 128, 127);
                assert_eq!(e.comp_pos as u32, pos - 127);
                let first = pos - 127;
                assert_eq!(e.columns.len(), HEAD_DIM);
                for v in pool(&e.columns) {
                    assert_eq!(v, (first + 5) as f32);
                }
            }
        }
    }
}

#[test]
fn indexer_pool_all_neg_inf_score_is_zero() {
    let mut state = IndexerState::new(1024).unwrap();
    for v in state.state_kv.iter_mut() {
        *v = bits(7.0);
    }
    let out = pool(&indexer_pool(&state));
    assert_eq!(out.len(), IDX_DIM);
    for (i, &v) in out.iter().enumerate() {
        assert_eq!(v, 0.0, "dim {i} should be zero, got {v}");
    }
}

#[test]
fn pool_single_active_row_returns_kv_value() {
    let mut state = IndexerState::new(1024).unwrap();
    let width = state.width();
    for j in 0..IDX_DIM {
        state.state_score[2 * width + j] = bits(0.0);
        state.state_kv[2 * width + j] = bits(j as f32 * 0.25);
    }
    let out = pool(&indexer_pool(&state));
    for (j, &v) in out.iter().enumerate() {
        assert!(
            (v - j as f32 * 0.25).abs() < 1e-5,
            "dim {j}: got {v} expected {}",
            j as f32 * 0.25,
        );
    }
}

#[test]
fn pool_two_active_rows_softmax_average() {
    let mut state = IndexerState::new(1024).unwrap();
    let width = state.width();
    for j in 0..IDX_DIM {
        state.state_score[width + j] = bits(0.5);
        state.state_score[3 * width + j] = bits(0.5);
        state.state_kv[width + j] = bits(1.0);
        state.state_kv[3 * width + j] = bits(3.0);
    }
    let out = pool(&indexer_pool(&state));
    for (j, &v) in out.iter().enumerate() {
        assert!((v - 2.0).abs() < 1e-5, "dim {j}: got {v} expected 2.0",);
    }
}

#[test]
fn pool_compressed_lane_only() {
    let mut state = IndexerState::new(64).unwrap();
    let width = state.width();
    let ratio = 4usize;
    for r in 0..ratio {
        for j in 0..IDX_DIM {
            let off = (ratio + r) * width + IDX_DIM + j;
            state.state_score[off] = bits(0.0);
            state.state_kv[off] = bits(((r * 2) as f32) + (j as f32) * 0.01);
        }
    }
    let out = pool(&indexer_pool(&state));
    for (j, &v) in out.iter().enumerate() {
        let expected: f32 = (0..ratio)
            .map(|r| ((r * 2) as f32) + (j as f32) * 0.01)
            .sum::<f32>()
            / ratio as f32;
        assert!(
            (v - expected).abs() < 1e-4,
            "dim {j}: got {v} expected {expected}",
        );
    }
}

#[test]
fn indexer_decode_one_below_boundary_does_not_emit() {
    let mut state = IndexerState::new(64).unwrap();
    let row = vec![bits(0.0); 2 * IDX_DIM];
    for pos in 0..3u32 {
        let emitted = indexer_decode_one(&mut state, &row, &row, pos).is_some();
        assert!(!emitted, "pos {pos} (< ratio-1) should not emit");
    }
}

#[test]
fn indexer_decode_one_emits_at_ratio_minus_one() {
    let mut state = IndexerState::new(64).unwrap();
    let row = vec![bits(0.0); 2 * IDX_DIM];
    for pos in 0..3u32 {
        assert!(indexer_decode_one(&mut state, &row, &row, pos).is_none());
    }
    let emitted = indexer_decode_one(&mut state, &row, &row, 3);
    assert_eq!(emitted.expect("pos = ratio-1 should emit").comp_pos, 0);
}

#[test]
fn decode_one_window_slide_after_emit() {
    let ratio = 4usize;
    let width = 2 * IDX_DIM;
    let mut state = IndexerState::new(64).unwrap();
    let kv_block = ratio * width;
    for i in kv_block..2 * kv_block {
        state.state_kv[i] = bits((i - kv_block) as f32 * 0.5 + 1.0);
    }
    for i in kv_block..2 * kv_block {
        state.state_score[i] = bits((i - kv_block) as f32 * 0.5 - 7.0);
    }
    let row = vec![bits(0.0); width];
    for pos in 0..4u32 {
        let _ = indexer_decode_one(&mut state, &row, &row, pos);
    }
    for i in 0..kv_block {
        assert_eq!(
            state.state_kv[i],
            state.state_kv[kv_block + i],
            "kv_block dim {i}: low/high halves differ after slide",
        );
    }
    for i in 0..kv_block {
        assert_eq!(
            state.state_score[i],
            state.state_score[kv_block + i],
            "score block dim {i}: low/high halves differ after slide",
        );
    }
}

#[test]
fn allowed_empty_state_returns_empty() {
    let state = IndexerState::new(64).unwrap();
    assert_eq!(state.n_comp, 0);
    let allowed = indexer_allowed_decode_one(&[], INDEXER_HEAD as usize, state.n_comp);
    assert!(allowed.is_empty());
}

// The scores that zero weights give: all of them equal.
#[test]
fn allowed_all_zero_weights_picks_lowest_indices() {
    let mut state = IndexerState::new(64).unwrap();
    for i in 0..6 {
        let row: Vec<u32> = (0..IDX_DIM).map(|d| bits((i * 10 + d) as f32)).collect();
        state.push_comp(&row).unwrap();
    }
    assert_eq!(state.n_comp, 6);
    let n_idx_head = INDEXER_HEAD as usize;
    let scores = vec![bits(0.0); n_idx_head * state.n_comp];
    let allowed = indexer_allowed_decode_one(&scores, n_idx_head, state.n_comp);
    assert_eq!(allowed.len(), n_idx_head * 6);
    for h in 0..n_idx_head {
        let head_slice = &allowed[h * 6..(h + 1) * 6];
        assert_eq!(head_slice, &[0, 1, 2, 3, 4, 5], "head {h} mismatch");
    }
}

// The scores of one head with the query [0, 1, 0, ...] and no bias.
#[test]
fn allowed_single_head_with_strong_score_picks_that_row() {
    let scores = [bits(0.0), bits(1.0)];
    let allowed = indexer_allowed_decode_one(&scores, 1, 2);
    assert_eq!(allowed, &[1, 0]);
}

// The scores of two equal rows, each 1 + 10.
#[test]
fn allowed_proj_additive_bias_shifts_scores() {
    let scores = [bits(1.0 + 10.0), bits(1.0 + 10.0)];
    let allowed = indexer_allowed_decode_one(&scores, 1, 2);
    assert_eq!(allowed, &[0, 1]);
}

#[test]
fn no_head_selects_more_rows_than_the_limit() {
    let n_comp = 600;
    let scores: Vec<u32> = (0..2 * n_comp).map(|i| bits(i as f32)).collect();
    let allowed = indexer_allowed_decode_one(&scores, 2, n_comp);
    assert_eq!(allowed.len(), 2 * 512);
    for i in 0..512 {
        assert_eq!(allowed[i], 599 - i);
        assert_eq!(allowed[512 + i], 599 - i);
    }
}
