use ds4::config::ModelConfig;
use ds4::model::kv_cache::{HEAD_DIM, IDX_DIM};
use ds4::model::kv_disk::{
    compute_payload_size, find_prefix_match, load_prefix_match, load_session, read_header,
    read_token_ids, read_token_ids_limited, save_session, write_dsv4_payload, write_header,
    KvcError, KvcHeader, SaveReason, DSV4_MAGIC, KVC_MAGIC, KVC_VERSION,
};
use ds4::session::Session;

const NOW: u64 = 1_700_000_000;

fn config(n_layer: u32) -> ModelConfig {
    ModelConfig {
        n_vocab: 256,
        n_embd: 16,
        n_head: 4,
        n_kv_head: 4,
        n_layer,
        n_ff: 32,
        n_expert: 0,
        n_expert_used: 0,
        n_hc: 4,
        head_dim: 4,
        q_lora_rank: 8,
        rope_theta: 10000.0f32.to_bits(),
        ctx_size: 32768,
    }
}

fn session(n_layer: u32, tokens: &[u32]) -> Session {
    let mut s = Session::new(&config(n_layer), false, 2048).unwrap();
    s.restore_from_tokens(tokens.to_vec()).unwrap();
    s
}

fn save(s: &Session, reason: SaveReason) -> Vec<u8> {
    save_session(s, 256, b"text", reason, NOW).unwrap()
}

fn file(tokens: &[u32]) -> Vec<u8> {
    save(&session(2, tokens), SaveReason::Manual)
}

fn header(cached_token_count: u32, context_size: u32) -> KvcHeader {
    KvcHeader {
        magic: KVC_MAGIC,
        version: KVC_VERSION,
        routed_quant_bits: 2,
        save_reason: 0,
        reserved: [0; 2],
        cached_token_count,
        hit_count: 0,
        context_size,
        reserved2: [0; 4],
        creation_time: NOW,
        last_used_time: NOW,
        payload_bytes: 100,
    }
}

#[test]
fn dsv4_magic_is_correct() {
    assert_eq!(DSV4_MAGIC, 0x3456_5344);
}

#[test]
fn header_is_48_bytes() {
    let mut buf = Vec::new();
    write_header(&mut buf, &header(10, 2048));
    assert_eq!(buf.len(), 48);
}

#[test]
fn a_header_reads_back() {
    let mut buf = vec![0xAA];
    let mut h = header(7, 99);
    h.hit_count = 3;
    h.reserved2 = [1, 2, 3, 4];
    h.payload_bytes = u64::MAX - 5;
    write_header(&mut buf, &h);
    let r = read_header(&buf[1..]).unwrap();
    assert_eq!(r.magic, *b"KVC");
    assert_eq!(r.cached_token_count, 7);
    assert_eq!(r.context_size, 99);
    assert_eq!(r.hit_count, 3);
    assert_eq!(r.reserved2, [1, 2, 3, 4]);
    assert_eq!(r.payload_bytes, u64::MAX - 5);
    let mut again = Vec::new();
    write_header(&mut again, &r);
    assert_eq!(again, &buf[1..]);
    assert_eq!(read_header(&buf[2..]).err(), Some(KvcError::Truncated));
}

#[test]
fn save_load_round_trip_empty_session() {
    let s = session(2, &[]);
    let bytes = save(&s, SaveReason::Manual);
    let (loaded, text) = load_session(&bytes, &config(2), false).unwrap();
    assert_eq!(loaded.tokens(), s.tokens());
    assert_eq!(loaded.pos(), s.pos());
    assert_eq!(loaded.ctx_size(), s.ctx_size());
    assert_eq!(text, "text");
}

#[test]
fn save_load_round_trip_with_tokens() {
    let s = session(2, &[42, 100, 7]);
    let bytes = save(&s, SaveReason::Shutdown);
    let (loaded, _) = load_session(&bytes, &config(2), false).unwrap();
    assert_eq!(loaded.tokens(), s.tokens());
    assert_eq!(loaded.pos(), s.pos());
    for il in 0..2 {
        assert_eq!(
            loaded.kv_cache().layer(il).n_raw(),
            s.kv_cache().layer(il).n_raw(),
            "n_raw mismatch at layer {il}"
        );
    }
}

#[test]
fn load_rejects_bad_magic() {
    let mut buf = Vec::new();
    let mut h = header(0, 2048);
    h.magic = *b"XXX";
    write_header(&mut buf, &h);
    let err = load_session(&buf, &config(2), false).err().unwrap();
    assert!(err.message().contains("bad magic"), "got: {err:?}");
    assert_eq!(err.message(), "KVC: bad magic: [88, 88, 88]");
}

#[test]
fn payload_bytes_matches_actual_size() {
    let s = session(2, &[]);
    let bytes = save(&s, SaveReason::Manual);
    let header = read_header(&bytes).unwrap();
    let text_len = u32::from_le_bytes(bytes[48..52].try_into().unwrap()) as u64;
    let expected = 48u64 + 4 + text_len + header.payload_bytes;
    assert_eq!(bytes.len() as u64, expected);
    assert_eq!(header.save_reason, SaveReason::Manual.as_u8());
    assert_eq!(header.creation_time, NOW);
}

#[test]
fn read_token_ids_round_trip() {
    let (tokens, ctx_size, total_count) = read_token_ids(&file(&[10, 20, 30, 40, 50])).unwrap();
    assert_eq!(tokens, vec![10, 20, 30, 40, 50]);
    assert_eq!(ctx_size, 2048);
    assert_eq!(total_count, 5);
}

#[test]
fn fewer_token_ids_can_be_read() {
    let bytes = file(&[10, 20, 30, 40, 50]);
    assert_eq!(read_token_ids_limited(&bytes, 2).unwrap(), (vec![10, 20], 2048, 5));
    assert_eq!(read_token_ids_limited(&bytes, 9).unwrap().0.len(), 5);
}

#[test]
fn read_token_ids_rejects_bad_magic() {
    let mut header = [0u8; 48];
    header[..3].copy_from_slice(b"XXX");
    assert!(read_token_ids(&header).is_err());
}

#[test]
fn find_prefix_match_finds_longest() {
    let files = vec![file(&[1, 2, 3]), file(&[1, 2, 3, 4, 5])];
    assert_eq!(find_prefix_match(&files, &[1, 2, 3, 4, 5, 6, 7]), Some((1, 5)));
}

#[test]
fn find_prefix_match_skips_non_prefix() {
    let files = vec![file(&[10, 20, 30])];
    assert!(find_prefix_match(&files, &[1, 2, 3]).is_none());
}

#[test]
fn find_prefix_match_allows_exact_match() {
    let files = vec![file(&[1, 2, 3])];
    assert_eq!(find_prefix_match(&files, &[1, 2, 3]), Some((0, 3)));
}

#[test]
fn find_prefix_match_skips_longer_cached() {
    let files = vec![file(&[1, 2, 3, 4, 5])];
    assert!(find_prefix_match(&files, &[1, 2, 3]).is_none());
}

#[test]
fn find_prefix_match_empty_dir() {
    assert!(find_prefix_match(&Vec::new(), &[1, 2, 3]).is_none());
}

#[test]
fn files_that_cannot_be_read_are_skipped() {
    let files = vec![b"no session".to_vec(), file(&[1]), file(&[1]), file(&[])];
    assert_eq!(find_prefix_match(&files, &[1, 2]), Some((1, 1)));
}

#[test]
fn load_prefix_match_returns_suffix() {
    let files = vec![file(&[10, 20, 30, 40])];
    let query = [10, 20, 30, 40, 50, 60];
    let (session, suffix) = load_prefix_match(&files, &query, &config(2), false)
        .unwrap()
        .unwrap();
    assert_eq!(session.tokens(), &[10, 20, 30, 40]);
    assert_eq!(suffix, vec![50, 60]);
}

#[test]
fn load_prefix_match_exact_returns_empty_suffix() {
    let files = vec![file(&[10, 20, 30])];
    let (loaded, suffix) = load_prefix_match(&files, &[10, 20, 30], &config(2), false)
        .unwrap()
        .unwrap();
    assert_eq!(loaded.tokens(), &[10, 20, 30]);
    assert!(suffix.is_empty());
}

#[test]
fn load_prefix_match_without_a_match_is_none() {
    let files = vec![file(&[7])];
    assert!(load_prefix_match(&files, &[8], &config(2), false).unwrap().is_none());
}

// A session of four layers whose rings, compressors and indexer all hold
// something.
fn full_session() -> Session {
    let mut s = session(4, &[5, 6, 7]);
    for il in 0..4 {
        for t in 0..3 {
            let row: Vec<u32> = (0..HEAD_DIM as u32).map(|i| i + 1000 * t + il).collect();
            s.kv_cache_mut().layer_mut(il as usize).push(&row);
        }
    }
    for il in 2..4 {
        let c = s.kv_cache_mut().compressor_mut(il).unwrap();
        for (i, v) in c.state_kv.iter_mut().enumerate() {
            *v = i as u32;
        }
        for (i, v) in c.state_score.iter_mut().enumerate() {
            *v = 7 * i as u32;
        }
        c.push_comp(&[11; HEAD_DIM]).unwrap();
        c.push_comp(&[12; HEAD_DIM]).unwrap();
    }
    let x = s.kv_cache_mut().indexer_mut(2).unwrap();
    for (i, v) in x.state_kv.iter_mut().enumerate() {
        *v = 3 * i as u32;
    }
    for (i, v) in x.state_score.iter_mut().enumerate() {
        *v = 5 * i as u32;
    }
    x.push_comp(&[13; IDX_DIM]).unwrap();
    s
}

#[test]
fn all_caches_are_restored() {
    let s = full_session();
    let bytes = save(&s, SaveReason::Evict);
    let (loaded, _) = load_session(&bytes, &config(4), false).unwrap();
    assert_eq!(loaded.tokens(), s.tokens());
    let (a, b) = (loaded.kv_cache(), s.kv_cache());
    for il in 0..4 {
        assert_eq!(a.layer(il).rows(), b.layer(il).rows());
        assert_eq!(a.compressor(il).is_some(), b.compressor(il).is_some());
        if let (Some(x), Some(y)) = (a.compressor(il), b.compressor(il)) {
            assert_eq!(x.state_kv, y.state_kv);
            assert_eq!(x.state_score, y.state_score);
            assert_eq!(x.comp_rows(), y.comp_rows());
        }
        if let (Some(x), Some(y)) = (a.indexer(il), b.indexer(il)) {
            assert_eq!(x.state_kv, y.state_kv);
            assert_eq!(x.state_score, y.state_score);
            assert_eq!(x.comp_rows(), y.comp_rows());
        }
    }
}

#[test]
fn the_size_of_a_payload_is_known_before() {
    let s = full_session();
    let words = write_dsv4_payload(s.kv_cache(), s.tokens(), 256);
    assert_eq!(
        compute_payload_size(s.kv_cache(), s.tokens(), 256),
        Ok(words.len() * 4)
    );
    assert_eq!(words[0], DSV4_MAGIC);
    assert_eq!(words[7], 3);
    assert_eq!(&words[13..16], &[5, 6, 7]);
}

#[test]
fn files_of_other_models_are_refused() {
    let bytes = save(&full_session(), SaveReason::Cold);
    let load = |c: ModelConfig| load_session(&bytes, &c, false).err().unwrap();
    assert_eq!(load(config(5)), KvcError::Layers { file: 4, engine: 5 });
    let vocab = ModelConfig { n_vocab: 300, ..config(4) };
    assert_eq!(load(vocab), KvcError::Vocab { file: 256, engine: 300 });
    assert_eq!(
        load(vocab).message(),
        "DSV4: vocab_size mismatch: file=256, engine=300"
    );
}

#[test]
fn damaged_files_are_refused() {
    let good = save(&full_session(), SaveReason::Continued);
    let load = |b: &[u8]| load_session(b, &config(4), false).err();
    assert_eq!(load(&good), None);
    assert_eq!(load(&good[..47]), Some(KvcError::Truncated));
    assert_eq!(load(&good[..good.len() - 1]), Some(KvcError::Truncated));
    let edit = |at: usize, bytes: &[u8]| {
        let mut b = good.clone();
        b[at..at + bytes.len()].copy_from_slice(bytes);
        b
    };
    assert_eq!(load(&edit(3, &[9])), Some(KvcError::Version(9)));
    assert_eq!(load(&edit(52, &[0xFF])), Some(KvcError::NotUtf8));
    // The payload starts behind 48 bytes of header and the text.
    let p = 48 + 4 + 4;
    assert_eq!(load(&edit(p, &[1, 2, 3, 4])), Some(KvcError::PayloadMagic(0x0403_0201)));
    assert_eq!(
        load(&edit(p, &[1, 2, 3, 4])).unwrap().message(),
        "KVC/DSV4: bad magic: 0x04030201"
    );
    assert_eq!(
        load(&edit(p + 28, &[4, 0, 0, 0])),
        Some(KvcError::TokenCount { payload: 4, header: 3 })
    );
    assert_eq!(load(&edit(p + 36, &[1, 0, 0, 0])), Some(KvcError::HeadDim(1)));
    assert_eq!(load(&edit(p + 40, &[1, 0, 0, 0])), Some(KvcError::IndexerDim(1)));
    assert_eq!(
        load(&edit(p + 52, &[0, 1, 0, 0])),
        Some(KvcError::TokenId { token: 256, vocab: 256 })
    );
    assert!(matches!(
        load(&edit(p + 48, &[0xFF, 0xFF, 0, 0])),
        Some(KvcError::RawLive { live: 0xFFFF, .. })
    ));
    // The row counts stand behind 13 words, 3 tokens and 256 scores.
    let counts = p + 4 * (13 + 3 + 256);
    assert!(matches!(
        load(&edit(counts + 4 * 2, &[0xFF, 0xFF, 0, 0])),
        Some(KvcError::CompCap { n: 0xFFFF, il: 2, .. })
    ));
    assert!(matches!(
        load(&edit(counts + 4 * 6, &[0xFF, 0xFF, 0, 0])),
        Some(KvcError::IdxCap { n: 0xFFFF, il: 2, .. })
    ));
}

#[test]
fn reasons_have_numbers() {
    let reasons = [
        SaveReason::Cold,
        SaveReason::Continued,
        SaveReason::Evict,
        SaveReason::Shutdown,
        SaveReason::Manual,
    ];
    for (i, r) in reasons.iter().enumerate() {
        assert_eq!(r.as_u8() as usize, i);
    }
}
