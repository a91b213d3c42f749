use ds4::float::topk_indices_desc;
use ds4::gguf::{GgmlType, GGUF_MAGIC};
use ds4::model::forward::{
    embed_token, forward_start, hash_experts, output_groups, select_experts, step_compressor,
    step_indexer, store_compressed, store_indexed, store_row, visible_rows, ForwardError,
    EXPERT_WEIGHT_SCALE, EXPERT_WEIGHT_SUM_EPS, HC_EPS, SWIGLU_CLAMP_EXP,
};
use ds4::model::indexer::indexer_allowed_decode_one;
use ds4::model::kv_cache::{KvCache, HEAD_DIM, IDX_DIM};
use ds4::model::weights::I32Slice;
use ds4::model::WeightMap;
use ds4::ops::matmul::WeightView;

// A model file with the given tensors: name, type, dimensions and data.
fn model_file(tensors: &[(String, u32, Vec<u64>, Vec<u8>)]) -> Vec<u8> {
    let mut buf: Vec<u8> = Vec::new();
    let u32le = |buf: &mut Vec<u8>, v: u32| buf.extend_from_slice(&v.to_le_bytes());
    let u64le = |buf: &mut Vec<u8>, v: u64| buf.extend_from_slice(&v.to_le_bytes());
    let strle = |buf: &mut Vec<u8>, s: &str| {
        buf.extend_from_slice(&(s.len() as u64).to_le_bytes());
        buf.extend_from_slice(s.as_bytes());
    };
    u32le(&mut buf, GGUF_MAGIC);
    u32le(&mut buf, 3);
    u64le(&mut buf, tensors.len() as u64);
    let numbers = [
        ("deepseek4.vocab_size", 256),
        ("deepseek4.embedding_length", 16),
        ("deepseek4.attention.head_count", 4),
        ("deepseek4.attention.head_count_kv", 4),
        ("deepseek4.block_count", 2),
        ("deepseek4.expert_feed_forward_length", 32),
        ("deepseek4.attention.q_lora_rank", 8),
        ("deepseek4.expert_count", 4),
        ("deepseek4.expert_used_count", 2),
    ];
    u64le(&mut buf, numbers.len() as u64);
    for (key, value) in numbers {
        strle(&mut buf, key);
        u32le(&mut buf, 4);
        u32le(&mut buf, value);
    }
    let mut offset = 0;
    for (name, dtype, dims, data) in tensors {
        strle(&mut buf, name);
        u32le(&mut buf, dims.len() as u32);
        for d in dims {
            u64le(&mut buf, *d);
        }
        u32le(&mut buf, *dtype);
        u64le(&mut buf, offset);
        offset += (data.len() as u64 + 31) / 32 * 32;
    }
    while buf.len() % 32 != 0 {
        buf.push(0);
    }
    for (_, _, _, data) in tensors {
        buf.extend_from_slice(data);
        while buf.len() % 32 != 0 {
            buf.push(0);
        }
    }
    buf
}

fn bits(values: &[f32]) -> Vec<u32> {
    values.iter().map(|x| x.to_bits()).collect()
}

fn topk(values: &[f32], k: usize) -> Vec<usize> {
    let mut out = vec![0usize; k];
    topk_indices_desc(&bits(values), k, &mut out);
    out
}

#[test]
fn topk_returns_descending_indices() {
    let v = [0.1f32, 0.9, 0.4, 0.7, 0.2, 0.8];
    assert_eq!(topk(&v, 3), [1, 5, 3]);
}

#[test]
fn topk_breaks_ties_toward_lower_index() {
    let v = [0.5f32, 0.5, 0.5, 0.5];
    assert_eq!(topk(&v, 2), [0, 1]);
}

#[test]
fn topk_full_length_is_full_sort() {
    let v = [3.0f32, 1.0, 4.0, 1.5, 9.0, 2.0];
    assert_eq!(topk(&v, 6), [4, 2, 0, 5, 3, 1]);
}

#[test]
fn topk_handles_negative_values() {
    let v = [-1.0f32, -3.0, -2.0, -0.5];
    assert_eq!(topk(&v, 2), [3, 0]);
}

#[test]
fn topk_k_one_returns_argmax() {
    let v = [-5.0f32, 12.5, 3.3, 0.0];
    assert_eq!(topk(&v, 1), [1]);
}

#[test]
fn topk_skips_nan_values() {
    let v = [f32::NAN, 0.5, f32::NAN, f32::NAN];
    assert_eq!(topk(&v, 1), [1], "topk should pick the non-NaN value");
}

#[test]
fn topk_all_nan_falls_back_to_lowest_indices() {
    let v = [f32::NAN; 8];
    assert_eq!(topk(&v, 4), [0, 1, 2, 3], "all-NaN should pick sequential indices");
}

#[test]
fn topk_all_neg_inf_falls_back_to_lowest_indices() {
    let v = [f32::NEG_INFINITY; 5];
    assert_eq!(topk(&v, 3), [0, 1, 2]);
}

#[test]
fn topk_takes_numbers_before_the_rest() {
    let v = [f32::NAN, 1.0, f32::NEG_INFINITY, 2.0];
    assert_eq!(topk(&v, 4), [3, 1, 0, 2]);
}

#[test]
fn expert_weight_scale_floor_protects_against_collapse() {
    let (weight_scale, eps) =
        (f32::from_bits(EXPERT_WEIGHT_SCALE), f32::from_bits(EXPERT_WEIGHT_SUM_EPS));
    let probs = [1e-8f32, 1e-8, 1e-8];
    let mut sum: f32 = probs.iter().sum();
    if sum < eps {
        sum = eps;
    }
    let scale = weight_scale / sum;
    assert!(scale <= weight_scale / eps + 1e-3);
    assert_eq!(scale, 24576.0);
}

#[test]
fn expert_weights_sum_to_scale_when_probs_nondegenerate() {
    let weight_scale = f32::from_bits(EXPERT_WEIGHT_SCALE);
    let probs = [0.2f32, 0.5, 0.3];
    let sum: f32 = probs.iter().sum();
    let scaled: Vec<f32> = probs.iter().map(|&p| p / sum * weight_scale).collect();
    let total: f32 = scaled.iter().sum();
    assert!((total - weight_scale).abs() < 1e-5);
}

#[test]
fn constants_hold_their_numbers() {
    assert_eq!(EXPERT_WEIGHT_SCALE, 1.5f32.to_bits());
    assert_eq!(EXPERT_WEIGHT_SUM_EPS, (1.0f32 / 16384.0).to_bits());
    assert_eq!(SWIGLU_CLAMP_EXP, 10.0f32.to_bits());
    assert_eq!(HC_EPS, 1.0e-6f32.to_bits());
}

// An embedding table of 4 rows with 16 columns in half precision; entry `i`
// has the bit pattern 0x3C00 + i.
fn embedding_table(dtype: u32) -> (String, u32, Vec<u64>, Vec<u8>) {
    let data = (0..64u16).flat_map(|i| (0x3C00 + i).to_le_bytes()).collect();
    ("token_embd.weight".to_string(), dtype, vec![16, 4], data)
}

#[test]
fn a_token_is_embedded() {
    let bytes = model_file(&[embedding_table(1)]);
    let m = WeightMap::new(&bytes, 0).unwrap();
    let row = embed_token(&m, 2).unwrap();
    assert_eq!(row.len(), 16);
    for (i, x) in row.iter().enumerate() {
        assert_eq!(f32::from_bits(*x), 1.0 + (32 + i) as f32 / 1024.0);
    }
    assert_eq!(
        embed_token(&m, 4).unwrap_err().message(),
        "token id 4 >= vocab size 4"
    );
}

#[test]
fn embedding_tables_of_other_types_are_refused() {
    let bytes = model_file(&[]);
    let m = WeightMap::new(&bytes, 0).unwrap();
    assert_eq!(embed_token(&m, 0), Err(ForwardError::EmbdMissing));
    let bytes = model_file(&[embedding_table(25)]);
    let m = WeightMap::new(&bytes, 0).unwrap();
    assert_eq!(embed_token(&m, 0), Err(ForwardError::EmbdType(GgmlType::I16)));
}

#[test]
fn a_pass_starts_at_its_token() {
    let bytes = model_file(&[]);
    let config = WeightMap::new(&bytes, 0).unwrap().config();
    assert_eq!(forward_start(&[7, 8, 9], 1, &config), Ok((8, 64)));
    assert_eq!(
        forward_start(&[7, 8, 9], 3, &config).unwrap_err().message(),
        "forward_decode: pos 3 out of range \u{2014} session has 3 tokens"
    );
}

fn table(values: &[i32]) -> Vec<u8> {
    values.iter().flat_map(|v| v.to_le_bytes()).collect()
}

#[test]
fn experts_come_from_the_table() {
    let bytes = table(&[3, 1, 0, 2, -1, 0, 9, 0]);
    let t = I32Slice { bytes: &bytes };
    assert_eq!(hash_experts(&t, 0, 2, 4), Ok(vec![3, 1]));
    assert_eq!(hash_experts(&t, 1, 2, 4), Ok(vec![0, 2]));
    assert_eq!(
        hash_experts(&t, 2, 2, 4),
        Err(ForwardError::RouteExpert { token: 2, slot: 0, eid: -1, n_expert: 4 })
    );
    assert!(matches!(hash_experts(&t, 3, 2, 4), Err(ForwardError::RouteExpert { eid: 9, .. })));
    assert_eq!(
        hash_experts(&t, 4, 2, 4),
        Err(ForwardError::RouteRow { token: 4, need: 10, have: 8 })
    );
    assert_eq!(hash_experts(&t, 2, usize::MAX, 4), Err(ForwardError::RouteOffset));
    assert_eq!(hash_experts(&t, 1, usize::MAX, 4), Err(ForwardError::RouteEnd));
}

#[test]
fn experts_come_from_the_scores_without_a_table() {
    let scores = bits(&[0.1, 0.7, 0.2, 0.6]);
    assert_eq!(select_experts(None, 0, &scores, 2), Ok(vec![1, 3]));
    let bytes = table(&[2, 0]);
    assert_eq!(
        select_experts(Some(I32Slice { bytes: &bytes }), 0, &scores, 2),
        Ok(vec![2, 0])
    );
}

#[test]
fn heads_see_what_their_indexer_head_selected() {
    // Two indexer heads with two rows each, four compressed rows.
    let allowed = [1, 3, 0, 1];
    assert_eq!(visible_rows(true, &allowed, 2, 0, 4), [false, true, false, true]);
    assert_eq!(visible_rows(true, &allowed, 2, 1, 4), [true, true, false, false]);
    // Heads behind the last follow it.
    assert_eq!(visible_rows(true, &allowed, 2, 5, 4), [true, true, false, false]);
    assert_eq!(visible_rows(false, &allowed, 2, 0, 4), [true; 4]);
    assert_eq!(visible_rows(true, &[], 2, 0, 3), [false; 3]);
}

#[test]
fn few_rows_are_seen_by_every_head() {
    let scores = bits(&[0.3, f32::NAN, 0.9, 0.1, 0.2, 0.3]);
    let allowed = indexer_allowed_decode_one(&scores, 2, 3);
    for h in 0..4 {
        assert_eq!(visible_rows(true, &allowed, 2, h, 3), [true; 3]);
    }
}

#[test]
fn the_output_projection_falls_into_groups() {
    let (n_head, head_dim) = (8, 32);
    let row = 34;
    let bytes: Vec<u8> = (0..8192 * row).map(|i| (i % 251) as u8).collect();
    let w = WeightView::Q8_0 { bytes: &bytes, out_features: 8192, in_features: 32 };
    let groups = output_groups(w, n_head, head_dim).unwrap();
    assert_eq!(groups.len(), 8);
    for (g, w) in groups.iter().enumerate() {
        assert_eq!((w.out_features(), w.in_features()), (1024, 32));
        assert_eq!(w.row(5), &bytes[(g * 1024 + 5) * row..(g * 1024 + 6) * row]);
    }
    let wrong = WeightView::Q8_0 { bytes: &bytes, out_features: 8191, in_features: 32 };
    assert_eq!(
        output_groups(wrong, n_head, head_dim).err(),
        Some(ForwardError::GroupOut { got: 8191, want: 8192 })
    );
    assert_eq!(
        output_groups(w, n_head, 64).err(),
        Some(ForwardError::GroupIn { got: 32, want: 64 })
    );
    let half = WeightView::F16 { bytes: &bytes, out_features: 8192, in_features: 32 };
    assert_eq!(output_groups(half, n_head, head_dim).err(), Some(ForwardError::GroupType));
}

#[test]
fn a_token_leaves_its_rows_in_the_caches() {
    let mut kv = KvCache::new(3, 8).unwrap();
    let row = vec![1.0f32.to_bits(); HEAD_DIM];
    store_row(&mut kv, 2, &row);
    assert_eq!(kv.layer(2).rows(), row.as_slice());

    // Layer 0 has no compressor.
    let one = vec![0u32; HEAD_DIM];
    assert!(step_compressor(&mut kv, 0, &one, &one, 0).is_none());
    store_compressed(&mut kv, 0, &row).unwrap();

    let (wide, idx) = (vec![0u32; 2 * HEAD_DIM], vec![0u32; 2 * IDX_DIM]);
    for pos in 0..4 {
        let c = step_compressor(&mut kv, 2, &wide, &wide, pos);
        let i = step_indexer(&mut kv, 2, &idx, &idx, pos);
        assert_eq!(c.is_some(), pos == 3);
        assert_eq!(i.is_some(), pos == 3);
    }
    store_compressed(&mut kv, 2, &row).unwrap();
    store_indexed(&mut kv, 2, &[5; IDX_DIM]).unwrap();
    assert_eq!(kv.compressor(2).unwrap().comp_rows(), row.as_slice());
    assert_eq!(kv.indexer(2).unwrap().comp_rows(), &[5; IDX_DIM]);
    assert!(store_compressed(&mut kv, 2, &[0; 3]).is_err());
}

#[test]
fn a_token_fills_only_its_layer() {
    let mut kv = KvCache::new(5, 64).unwrap();
    let (wide, idx) = (vec![0u32; 2 * HEAD_DIM], vec![0u32; 2 * IDX_DIM]);
    for pos in 0..10u32 {
        store_row(&mut kv, 4, &[pos; HEAD_DIM]);
        if step_compressor(&mut kv, 4, &wide, &wide, pos).is_some() {
            store_compressed(&mut kv, 4, &[pos; HEAD_DIM]).unwrap();
        }
        if step_indexer(&mut kv, 4, &idx, &idx, pos).is_some() {
            store_indexed(&mut kv, 4, &[pos; IDX_DIM]).unwrap();
        }
        let groups = (pos as usize + 1) / 4;
        assert_eq!(kv.layer(4).n_raw(), pos as usize + 1);
        assert_eq!(&kv.layer(4).rows()[pos as usize * HEAD_DIM..], &[pos; HEAD_DIM]);
        assert_eq!(kv.compressor(4).unwrap().n_comp, groups);
        assert_eq!(kv.indexer(4).unwrap().n_comp, groups);
    }
    for il in 0..4 {
        assert_eq!(kv.layer(il).n_raw(), 0);
        assert!(kv.compressor(il).map_or(true, |c| c.n_comp == 0));
        assert!(kv.indexer(il).map_or(true, |c| c.n_comp == 0));
    }
}
