use ds4::model::kv_cache::{
    CompressorState, IndexerState, KvCache, KvCacheSnapshot, RawLayerCache, HEAD_DIM, IDX_DIM,
    KV_LATENT_DIM, K_PE_DIM, NEG_INF, SWA,
};

fn bits(x: f32) -> u32 {
    x.to_bits()
}

fn row(seed: f32) -> Vec<u32> {
    (0..HEAD_DIM).map(|i| bits(seed + i as f32 * 0.001)).collect()
}

#[test]
fn fresh_cache_is_empty() {
    let cache = KvCache::new(3, 64).unwrap();
    assert_eq!(cache.n_layer(), 3);
    assert_eq!(cache.cap_raw(), 64);
    for il in 0..3 {
        assert_eq!(cache.layer(il).n_raw(), 0);
        assert_eq!(cache.layer(il).cap_raw(), 64);
        assert!(cache.layer(il).rows().is_empty());
    }
}

#[test]
fn cap_clamps_to_swa() {
    let cache = KvCache::new(1, 1024).unwrap();
    assert_eq!(cache.cap_raw(), SWA);
}

#[test]
fn cap_clamps_to_ctx_when_below_swa() {
    let cache = KvCache::new(1, 32).unwrap();
    assert_eq!(cache.cap_raw(), 32);
}

#[test]
fn cap_zero_ctx_floors_to_one() {
    let cache = KvCache::new(1, 0).unwrap();
    assert_eq!(cache.cap_raw(), 1);
}

#[test]
fn push_under_cap_fills_in_order() {
    let mut layer = RawLayerCache::new(4);
    for i in 0..3 {
        layer.push(&row(i as f32));
    }
    assert_eq!(layer.n_raw(), 3);
    let rows = layer.rows();
    assert_eq!(rows.len(), 3 * HEAD_DIM);
    for i in 0..3 {
        let r = &rows[i * HEAD_DIM..(i + 1) * HEAD_DIM];
        assert_eq!(r, row(i as f32).as_slice());
    }
}

#[test]
fn push_at_cap_evicts_oldest() {
    let mut layer = RawLayerCache::new(3);
    for i in 0..3 {
        layer.push(&row(i as f32));
    }
    // Now full: rows = [0, 1, 2]. Push row 3 -> rows shift to [1, 2, 3].
    layer.push(&row(3.0));
    assert_eq!(layer.n_raw(), 3);
    let rows = layer.rows();
    assert_eq!(&rows[0..HEAD_DIM], row(1.0).as_slice());
    assert_eq!(&rows[HEAD_DIM..2 * HEAD_DIM], row(2.0).as_slice());
    assert_eq!(&rows[2 * HEAD_DIM..3 * HEAD_DIM], row(3.0).as_slice());
}

#[test]
fn push_repeatedly_past_cap_keeps_only_latest_window() {
    let mut layer = RawLayerCache::new(2);
    for i in 0..6 {
        layer.push(&row(i as f32));
    }
    let rows = layer.rows();
    assert_eq!(layer.n_raw(), 2);
    assert_eq!(&rows[0..HEAD_DIM], row(4.0).as_slice());
    assert_eq!(&rows[HEAD_DIM..2 * HEAD_DIM], row(5.0).as_slice());
}

#[test]
fn cap_one_keeps_only_last_row() {
    let mut layer = RawLayerCache::new(1);
    layer.push(&row(0.0));
    layer.push(&row(1.0));
    layer.push(&row(2.0));
    assert_eq!(layer.n_raw(), 1);
    assert_eq!(layer.rows(), row(2.0).as_slice());
}

#[test]
fn multi_layer_isolation() {
    let mut cache = KvCache::new(3, 8).unwrap();
    cache.layer_mut(0).push(&row(10.0));
    cache.layer_mut(2).push(&row(20.0));
    cache.layer_mut(2).push(&row(30.0));
    assert_eq!(cache.layer(0).n_raw(), 1);
    assert_eq!(cache.layer(1).n_raw(), 0);
    assert_eq!(cache.layer(2).n_raw(), 2);
    assert_eq!(&cache.layer(0).rows()[..HEAD_DIM], row(10.0).as_slice());
    assert_eq!(&cache.layer(2).rows()[..HEAD_DIM], row(20.0).as_slice());
    assert_eq!(
        &cache.layer(2).rows()[HEAD_DIM..2 * HEAD_DIM],
        row(30.0).as_slice()
    );
}

#[test]
fn clear_resets_n_raw_without_realloc() {
    let mut layer = RawLayerCache::new(4);
    for i in 0..4 {
        layer.push(&row(i as f32));
    }
    layer.clear();
    assert_eq!(layer.n_raw(), 0);
    assert_eq!(layer.cap_raw(), 4);
    assert!(layer.rows().is_empty());
    // Buffer not freed: it takes as many rows as before.
    for i in 0..4 {
        layer.push(&row(i as f32));
    }
    assert_eq!(layer.rows().len(), 4 * HEAD_DIM);
}

#[test]
fn clear_all_zeros_each_layer() {
    let mut cache = KvCache::new(2, 8).unwrap();
    cache.layer_mut(0).push(&row(1.0));
    cache.layer_mut(1).push(&row(2.0));
    cache.layer_mut(1).push(&row(3.0));
    cache.clear_all();
    assert_eq!(cache.layer(0).n_raw(), 0);
    assert_eq!(cache.layer(1).n_raw(), 0);
}

#[test]
fn push_after_clear_starts_at_slot_zero() {
    let mut layer = RawLayerCache::new(3);
    for i in 0..3 {
        layer.push(&row(i as f32));
    }
    layer.clear();
    layer.push(&row(99.0));
    assert_eq!(layer.n_raw(), 1);
    assert_eq!(layer.rows(), row(99.0).as_slice());
}

#[test]
fn split_constants_match_head_dim() {
    assert_eq!(KV_LATENT_DIM + K_PE_DIM, HEAD_DIM);
}

#[test]
fn snapshot_restore_round_trips_after_eviction() {
    // Push past cap so the ring evicts oldest rows. Snapshot mid-stream,
    // push more (overwriting cached bytes), then restore. The restored
    // contents must match the snapshot byte-for-byte — this is the
    // property `Session::prefill` rollback depends on.
    let mut cache = KvCache::new(2, 4).unwrap();
    for i in 0..6 {
        cache.layer_mut(0).push(&row(i as f32));
    }
    cache.layer_mut(1).push(&row(100.0));
    let snap = cache.snapshot();
    let saved_l0: Vec<u32> = cache.layer(0).rows().to_vec();
    let saved_l1: Vec<u32> = cache.layer(1).rows().to_vec();

    for i in 0..3 {
        cache.layer_mut(0).push(&row(50.0 + i as f32));
    }
    cache.layer_mut(1).push(&row(200.0));
    cache.layer_mut(1).push(&row(300.0));
    assert_ne!(cache.layer(0).rows(), saved_l0.as_slice());

    cache.restore(&snap);
    assert_eq!(cache.layer(0).n_raw(), 4);
    assert_eq!(cache.layer(1).n_raw(), 1);
    assert_eq!(cache.layer(0).rows(), saved_l0.as_slice());
    assert_eq!(cache.layer(1).rows(), saved_l1.as_slice());
}

#[test]
fn snapshot_of_fresh_cache_restores_empty() {
    let mut cache = KvCache::new(2, 4).unwrap();
    let snap = cache.snapshot();
    cache.layer_mut(0).push(&row(1.0));
    cache.layer_mut(1).push(&row(2.0));
    cache.restore(&snap);
    assert_eq!(cache.layer(0).n_raw(), 0);
    assert_eq!(cache.layer(1).n_raw(), 0);
}

#[test]
fn compressor_state_ratio_4_shapes() {
    let s = CompressorState::new(4, 1024).unwrap();
    assert_eq!(s.ratio, 4);
    assert_eq!(s.coff(), 2);
    assert_eq!(s.width(), 2 * HEAD_DIM);
    // rows = coff * ratio = 2 * 4 = 8.
    assert_eq!(s.state_kv.len(), 8 * 2 * HEAD_DIM);
    assert_eq!(s.state_score.len(), 8 * 2 * HEAD_DIM);
    // comp_cap = ctx / ratio + 2 = 1024 / 4 + 2 = 258.
    assert_eq!(s.comp_cap, 258);
    assert_eq!(s.comp_kv.len(), 258 * HEAD_DIM);
    assert_eq!(s.n_comp, 0);
    // state_score must be initialised to NEG_INF, not zero — the pool
    // softmax keys off this.
    assert!(s.state_score.iter().all(|&v| v == NEG_INF));
    assert!(s.state_kv.iter().all(|&v| v == bits(0.0)));
}

#[test]
fn compressor_state_ratio_128_shapes() {
    let s = CompressorState::new(128, 8192).unwrap();
    assert_eq!(s.coff(), 1);
    assert_eq!(s.width(), HEAD_DIM);
    assert_eq!(s.state_kv.len(), 128 * HEAD_DIM);
    assert_eq!(s.state_score.len(), 128 * HEAD_DIM);
    // comp_cap = 8192 / 128 + 2 = 66.
    assert_eq!(s.comp_cap, 66);
}

#[test]
fn compressor_state_clear_resets_score_and_n_comp() {
    let mut s = CompressorState::new(4, 64).unwrap();
    for v in s.state_kv.iter_mut() {
        *v = bits(1.0);
    }
    for v in s.state_score.iter_mut() {
        *v = bits(0.5);
    }
    s.push_comp(&[bits(2.0); HEAD_DIM]).unwrap();
    s.push_comp(&[bits(3.0); HEAD_DIM]).unwrap();
    assert_eq!(s.n_comp, 2);

    s.clear();
    assert_eq!(s.n_comp, 0);
    assert!(s.state_kv.iter().all(|&v| v == bits(0.0)));
    assert!(s.state_score.iter().all(|&v| v == NEG_INF));
}

#[test]
fn compressor_state_push_comp_grows_n_comp() {
    let mut s = CompressorState::new(128, 1024).unwrap();
    let row_a: Vec<u32> = (0..HEAD_DIM).map(|i| bits(i as f32)).collect();
    s.push_comp(&row_a).unwrap();
    assert_eq!(s.n_comp, 1);
    assert_eq!(s.comp_rows().len(), HEAD_DIM);
    assert_eq!(&s.comp_rows()[..HEAD_DIM], row_a.as_slice());
}

#[test]
fn compressor_state_push_comp_capacity_overflow_errors() {
    // ctx_size = 4 → comp_cap = 4/4 + 2 = 3. Push 3 rows fine, 4th errors.
    let mut s = CompressorState::new(4, 4).unwrap();
    assert_eq!(s.comp_cap, 3);
    for i in 0..3 {
        s.push_comp(&[bits(i as f32); HEAD_DIM]).unwrap();
    }
    let err = s.push_comp(&[bits(99.0); HEAD_DIM]).unwrap_err();
    assert!(err.message().contains("capacity"), "got: {err:?}");
    // n_comp must not have advanced past the cap.
    assert_eq!(s.n_comp, 3);
}

#[test]
fn compressor_state_push_comp_wrong_width_errors() {
    let mut s = CompressorState::new(128, 256).unwrap();
    let err = s.push_comp(&[bits(0.0); HEAD_DIM - 1]).unwrap_err();
    assert!(err.message().contains("HEAD_DIM"), "got: {err:?}");
}

#[test]
fn kvcache_compressor_some_for_compressed_layers() {
    // 6 layers: 0,1 dense; 2 ratio=4; 3 ratio=128; 4 ratio=4; 5 ratio=128.
    let cache = KvCache::new(6, 4096).unwrap();
    assert!(cache.compressor(0).is_none());
    assert!(cache.compressor(1).is_none());
    let l2 = cache.compressor(2).unwrap();
    assert_eq!(l2.ratio, 4);
    let l3 = cache.compressor(3).unwrap();
    assert_eq!(l3.ratio, 128);
    assert_eq!(cache.compressor(4).unwrap().ratio, 4);
    assert_eq!(cache.compressor(5).unwrap().ratio, 128);
}

#[test]
fn kvcache_clear_all_resets_compressor() {
    let mut cache = KvCache::new(4, 64).unwrap();
    let s = cache.compressor_mut(2).unwrap();
    s.push_comp(&[bits(1.0); HEAD_DIM]).unwrap();
    for v in s.state_score.iter_mut() {
        *v = bits(0.5);
    }
    cache.clear_all();
    let s = cache.compressor(2).unwrap();
    assert_eq!(s.n_comp, 0);
    assert!(s.state_score.iter().all(|&v| v == NEG_INF));
}

#[test]
fn kvcache_snapshot_restore_round_trips_compressor() {
    let mut cache = KvCache::new(4, 64).unwrap();
    // Seed compressor on layer 2 (ratio 4).
    let s = cache.compressor_mut(2).unwrap();
    for (i, v) in s.state_kv.iter_mut().enumerate() {
        *v = bits(i as f32 * 0.1);
    }
    for (i, v) in s.state_score.iter_mut().enumerate() {
        *v = bits((i as f32) * 0.01 - 1.0);
    }
    s.push_comp(&[bits(7.0); HEAD_DIM]).unwrap();
    s.push_comp(&[bits(9.0); HEAD_DIM]).unwrap();

    let saved_kv = s.state_kv.clone();
    let saved_score = s.state_score.clone();
    let saved_comp = s.comp_rows().to_vec();
    let saved_n = s.n_comp;

    let snap = cache.snapshot();
    // Stomp the compressor state.
    let s = cache.compressor_mut(2).unwrap();
    s.state_kv.fill(bits(0.0));
    s.state_score.fill(NEG_INF);
    s.n_comp = 0;

    cache.restore(&snap);
    let s = cache.compressor(2).unwrap();
    assert_eq!(s.n_comp, saved_n);
    assert_eq!(s.state_kv, saved_kv);
    assert_eq!(s.state_score, saved_score);
    assert_eq!(s.comp_rows(), saved_comp.as_slice());
}

#[test]
fn popping_undoes_pushing() {
    let mut layer = RawLayerCache::new(3);
    layer.push(&row(1.0));
    layer.push(&row(2.0));
    layer.pop();
    assert_eq!(layer.rows(), row(1.0).as_slice());
    layer.pop();
    layer.pop();
    assert_eq!(layer.n_raw(), 0);
}

#[test]
fn pop_last_row_takes_one_row_of_every_ring() {
    let mut cache = KvCache::new(2, 4).unwrap();
    cache.layer_mut(0).push(&row(1.0));
    cache.layer_mut(0).push(&row(2.0));
    cache.layer_mut(1).push(&row(3.0));
    cache.pop_last_row();
    assert_eq!(cache.layer(0).rows(), row(1.0).as_slice());
    assert_eq!(cache.layer(1).n_raw(), 0);
}

#[test]
fn indexer_states_are_there_for_ratio_four() {
    let cache = KvCache::new(6, 4096).unwrap();
    for il in 0..6 {
        assert_eq!(cache.indexer(il).is_some(), il == 2 || il == 4);
    }
    let s = cache.indexer(2).unwrap();
    assert_eq!(s.comp_cap, 4096 / 4 + 2);
    assert_eq!(s.width(), 2 * IDX_DIM);
    assert_eq!(s.state_kv, vec![bits(0.0); 2048]);
    assert_eq!(s.state_score, vec![NEG_INF; 2048]);
}

#[test]
fn indexer_state_keeps_its_rows() {
    let mut s = IndexerState::new(4).unwrap();
    for i in 0..3 {
        s.push_comp(&[bits(i as f32); IDX_DIM]).unwrap();
    }
    assert_eq!(s.comp_rows()[IDX_DIM], bits(1.0));
    assert_eq!(
        s.push_comp(&[0; IDX_DIM]).unwrap_err().message(),
        "IndexerState::push_comp: capacity 3 exceeded"
    );
    assert_eq!(
        s.push_comp(&[0; 5]).unwrap_err().message(),
        "IndexerState::push_comp: row width 5 != IDX_DIM 128"
    );
    s.clear();
    assert!(s.comp_rows().is_empty());
}

#[test]
fn messages_of_each_cache_error() {
    let mut s = CompressorState::new(4, 0).unwrap();
    assert_eq!(
        s.push_comp(&[0; 5]).unwrap_err().message(),
        "CompressorState::push_comp: row width 5 != HEAD_DIM 512"
    );
    s.push_comp(&[0; HEAD_DIM]).unwrap();
    s.push_comp(&[0; HEAD_DIM]).unwrap();
    assert_eq!(
        s.push_comp(&[0; HEAD_DIM]).unwrap_err().message(),
        "CompressorState::push_comp: capacity 2 exceeded"
    );
    assert_eq!(
        KvCache::new(usize::MAX, 1).err().unwrap().message(),
        "KvCache: buffer length overflow"
    );
    assert_eq!(
        KvCache::new(isize::MAX as usize / 512 + 1, 1).err().unwrap().message(),
        "KvCache: buffer too large"
    );
    assert_eq!(
        CompressorState::new(1, usize::MAX).err().unwrap().message(),
        "CompressorState: comp_cap overflow"
    );
    assert_eq!(
        CompressorState::new(1, usize::MAX / 2).err().unwrap().message(),
        "CompressorState: comp_kv length overflow"
    );
    assert_eq!(
        IndexerState::new(usize::MAX).err().unwrap().message(),
        "IndexerState: comp_kv length overflow"
    );
}

#[test]
fn a_cleared_cache_is_a_fresh_one() {
    let mut cache = KvCache::new(4, 16).unwrap();
    cache.layer_mut(3).push(&row(5.0));
    let s = cache.indexer_mut(2).unwrap();
    s.state_kv[7] = bits(4.0);
    s.push_comp(&[bits(1.0); IDX_DIM]).unwrap();
    cache.clear_all();
    let fresh = KvCache::new(4, 16).unwrap();
    for il in 0..4 {
        assert_eq!(cache.layer(il).rows(), fresh.layer(il).rows());
    }
    let (a, b) = (cache.indexer(2).unwrap(), fresh.indexer(2).unwrap());
    assert_eq!(a.state_kv, b.state_kv);
    assert_eq!(a.state_score, b.state_score);
    assert_eq!(a.comp_rows(), b.comp_rows());
}

#[test]
fn a_snapshot_is_taken_into_place() {
    let mut cache = KvCache::new(3, 4).unwrap();
    let mut snap = KvCacheSnapshot::with_shape(&cache);
    cache.layer_mut(1).push(&row(8.0));
    cache.snapshot_into(&mut snap);
    cache.clear_all();
    cache.restore(&snap);
    assert_eq!(cache.layer(1).rows(), row(8.0).as_slice());
    assert_eq!(cache.layer(0).n_raw(), 0);
}
