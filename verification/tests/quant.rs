use ds4::float::{f16_to_f32, f64_to_f32};
use ds4::ops::hc::hc_from_plain_embedding;
use ds4::ops::matmul::{
    dot_iq2_xxs_row, dot_q2_k_row, expert_subview, f16_elements, WeightView,
};
use ds4::quant::{iq2_xxs, iq4_nl, iq4_xs, q2_k, q4_k, q8_0, q8_k, MinDot, ScaledDot};

// ---------------------------------------------------------------------------
// The float side of each format
// ---------------------------------------------------------------------------

fn f(bits: u32) -> f32 {
    f32::from_bits(bits)
}

fn half(bits: u16) -> f32 {
    f(f16_to_f32(bits))
}

fn q8_0_values(b: &q8_0::Q8Block) -> Vec<f32> {
    b.qs.iter().map(|&q| f(b.d) * q as f32).collect()
}

fn q2_k_values(b: &q2_k::Q2KBlock) -> Vec<f32> {
    (0..256)
        .map(|e| {
            f(b.d) * b.scales[e / 16] as f32 * b.qs[e] as f32 - f(b.dmin) * b.mins[e / 16] as f32
        })
        .collect()
}

fn q4_k_values(b: &q4_k::Q4KBlock) -> Vec<f32> {
    (0..256)
        .map(|e| {
            f(b.d) * b.scales[e / 32] as f32 * b.qs[e] as f32 - f(b.dmin) * b.mins[e / 32] as f32
        })
        .collect()
}

fn iq4_nl_values(b: &iq4_nl::Iq4NlBlock) -> Vec<f32> {
    b.levels.iter().map(|&q| f(b.d) * q as f32).collect()
}

fn iq4_xs_values(b: &iq4_xs::Iq4XsBlock) -> Vec<f32> {
    (0..256)
        .map(|e| f(b.d) * b.scales[e / 32] as f32 * b.levels[e] as f32)
        .collect()
}

fn iq2_xxs_values(b: &iq2_xxs::Iq2Block) -> Vec<f32> {
    (0..256)
        .map(|e| f(b.d) * (0.5 + b.scales[e / 32] as f32) * 0.25 * b.levels[e] as f32)
        .collect()
}

fn min_dot(r: &MinDot) -> f32 {
    f(r.act_d) * f(r.d) * r.isum as f32 - f(r.act_d) * f(r.dmin) * r.summs as f32
}

fn scaled_dot(r: &ScaledDot, unit: f32) -> f32 {
    unit * f(r.act_d) * f(r.d) * r.isum as f32
}

fn quantize_block(x: &[f32]) -> Vec<u8> {
    let bits: Vec<u32> = x.iter().map(|v| v.to_bits()).collect();
    let m = f(q8_k::signed_max(&bits));
    if m == 0.0 {
        return q8_k::zero_block();
    }
    let iscale = -128.0 / m;
    let qs: Vec<i8> = x
        .iter()
        .map(|v| q8_k::clamp_level((iscale * v).round_ties_even() as i32))
        .collect();
    q8_k::pack_block((1.0 / iscale).to_bits(), &qs)
}

fn quantize(x: &[f32]) -> Vec<u8> {
    x.chunks(256).flat_map(quantize_block).collect()
}

fn matmul_row(w: WeightView<'_>, act: &[f32]) -> Vec<f32> {
    assert!(w.is_well_sized());
    assert_eq!(w.in_features(), act.len());
    let q8 = match w {
        WeightView::Q2_K { .. } | WeightView::IQ2_XXS { .. } => quantize(act),
        _ => Vec::new(),
    };
    (0..w.out_features())
        .map(|n| {
            let row = w.row(n);
            match w {
                WeightView::Q8_0 { .. } => q8_0::dequant(row)
                    .iter()
                    .zip(act.chunks(32))
                    .map(|(b, a)| {
                        let sum: f32 = b.qs.iter().zip(a).map(|(&q, x)| q as f32 * x).sum();
                        f(b.d) * sum
                    })
                    .sum(),
                WeightView::F16 { .. } => {
                    f16_elements(row).iter().zip(act).map(|(&w, a)| f(w) * a).sum()
                }
                WeightView::Q2_K { .. } => dot_q2_k_row(row, &q8).iter().map(min_dot).sum(),
                WeightView::IQ2_XXS { .. } => {
                    dot_iq2_xxs_row(row, &q8).iter().map(|r| scaled_dot(r, 0.125)).sum()
                }
                WeightView::Unsupported { .. } => unreachable!(),
            }
        })
        .collect()
}

// An activation block whose levels are all `q`.
fn constant_q8(q: i8) -> Vec<u8> {
    q8_k::pack_block(1.0f32.to_bits(), &[q; 256])
}

// ---------------------------------------------------------------------------
// Q8_0
// ---------------------------------------------------------------------------

fn q8_0_block(scale: u16, quants: [i8; 32]) -> [u8; 34] {
    let mut block = [0u8; 34];
    block[0..2].copy_from_slice(&scale.to_le_bytes());
    for (i, &q) in quants.iter().enumerate() {
        block[2 + i] = q as u8;
    }
    block
}

#[test]
fn f16_to_f32_zero_and_one() {
    assert_eq!(half(0x0000), 0.0);
    assert_eq!(half(0x8000), -0.0);
    assert_eq!(half(0x3C00), 1.0);
    assert_eq!(half(0xBC00), -1.0);
    assert_eq!(half(0x4000), 2.0);
    assert_eq!(half(0x3800), 0.5);
}

#[test]
fn f16_to_f32_inf_nan() {
    assert!(half(0x7C00).is_infinite());
    assert!(half(0x7C00).is_sign_positive());
    assert!(half(0xFC00).is_infinite());
    assert!(half(0xFC00).is_sign_negative());
    assert!(half(0x7E00).is_nan());
}

#[test]
fn f16_to_f32_subnormal() {
    let v = half(0x0001);
    assert!((v - 2.0f32.powi(-24)).abs() < 1e-12);
}

#[test]
fn f16_to_f32_max_finite() {
    assert_eq!(half(0x7BFF), 65504.0);
    assert_eq!(half(0xFBFF), -65504.0);
}

#[test]
fn f16_to_f32_negative_subnormal() {
    let v = half(0x8001);
    assert!((v + 2.0f32.powi(-24)).abs() < 1e-12);
}

// Every half-precision number is the product of its parts.
#[test]
fn widening_keeps_every_number() {
    for bits in 0..=u16::MAX {
        let sign = if bits >= 0x8000 { -1.0f32 } else { 1.0 };
        let exp = (bits / 0x400) % 0x20;
        let mant = (bits % 0x400) as f32;
        let v = half(bits);
        if exp == 31 {
            assert_eq!(v.is_nan(), mant != 0.0);
            assert_eq!(v.is_infinite(), mant == 0.0);
        } else if exp == 0 {
            assert_eq!(v, sign * mant * 2.0f32.powi(-24));
        } else {
            assert_eq!(v, sign * (1024.0 + mant) * 2.0f32.powi(exp as i32 - 25));
        }
        assert_eq!(v.is_sign_negative(), bits >= 0x8000);
    }
}

#[test]
fn narrowing_agrees_with_the_conversion_of_the_language() {
    let mut state: u64 = 0x1234_5678_9abc_def1;
    let mut samples = vec![
        0.0f64,
        -0.0,
        1.0,
        1.0 + 2f64.powi(-24),
        1.0 + 3.0 * 2f64.powi(-24),
        2f64.powi(-149),
        2f64.powi(-150),
        1.5 * 2f64.powi(-150),
        f32::MAX as f64,
        f32::MAX as f64 * (1.0 + 2f64.powi(-26)),
        3.5e38,
        f64::MAX,
        f64::INFINITY,
        f64::NEG_INFINITY,
        f64::MIN_POSITIVE,
        1.1e-40,
    ];
    for _ in 0..20_000 {
        state = state.wrapping_mul(6364136223846793005).wrapping_add(1442695040888963407);
        // Numbers around the range of single precision.
        let exp = 1023 - 160 + (state >> 40) % 320;
        let bits = (state & 0x800f_ffff_ffff_ffff) | (exp << 52);
        samples.push(f64::from_bits(bits));
    }
    for x in samples {
        assert_eq!(f64_to_f32(x.to_bits()), (x as f32).to_bits(), "{x:e}");
    }
    assert!(f(f64_to_f32(f64::NAN.to_bits())).is_nan());
}

#[test]
fn dequant_block_trivial_scale_one() {
    let quants: [i8; 32] = std::array::from_fn(|i| i as i8 - 16);
    let out = q8_0_values(&q8_0::dequant_block(&q8_0_block(0x3C00, quants)));
    for i in 0..32 {
        assert_eq!(out[i], quants[i] as f32);
    }
}

#[test]
fn dequant_block_applies_scale() {
    let out = q8_0_values(&q8_0::dequant_block(&q8_0_block(0x3800, [4; 32])));
    for v in out {
        assert_eq!(v, 2.0);
    }
}

#[test]
fn dequant_block_handles_negative_scale_and_quants() {
    let out = q8_0_values(&q8_0::dequant_block(&q8_0_block(0xBC00, [127i8; 32])));
    for v in out {
        assert_eq!(v, -127.0);
    }
}

#[test]
fn q8_0_dequant_multi_block() {
    let mut bytes = Vec::new();
    bytes.extend_from_slice(&q8_0_block(0x3C00, [1i8; 32]));
    bytes.extend_from_slice(&q8_0_block(0x4000, [2i8; 32]));
    let blocks = q8_0::dequant(&bytes);
    assert_eq!(blocks.len(), 2);
    assert!(q8_0_values(&blocks[0]).iter().all(|&v| v == 1.0));
    assert!(q8_0_values(&blocks[1]).iter().all(|&v| v == 4.0));
}

#[test]
fn dequant_block_zero_scale_produces_zeros() {
    let quants: [i8; 32] = std::array::from_fn(|i| i as i8 - 16);
    for v in q8_0_values(&q8_0::dequant_block(&q8_0_block(0x0000, quants))) {
        assert_eq!(v, 0.0);
    }
}

#[test]
fn dequant_block_handles_min_i8_quant() {
    let mut quants = [0i8; 32];
    quants[5] = -128;
    quants[10] = 127;
    let out = q8_0_values(&q8_0::dequant_block(&q8_0_block(0x3C00, quants)));
    assert_eq!(out[5], -128.0);
    assert_eq!(out[10], 127.0);
}

#[test]
fn dequant_block_alternating_signs() {
    let quants: [i8; 32] = std::array::from_fn(|i| if i % 2 == 0 { 1 } else { -1 });
    let out = q8_0_values(&q8_0::dequant_block(&q8_0_block(0x3400, quants)));
    for (i, v) in out.iter().enumerate() {
        let expected = if i % 2 == 0 { 0.25 } else { -0.25 };
        assert_eq!(*v, expected);
    }
}

#[test]
fn dequant_empty_input_is_noop() {
    assert!(q8_0::dequant(&[]).is_empty());
}

#[test]
fn dequant_three_blocks_varied_scales_and_quants() {
    let mut bytes = Vec::new();
    bytes.extend_from_slice(&q8_0_block(0x0000, [50i8; 32]));
    bytes.extend_from_slice(&q8_0_block(0x3C00, std::array::from_fn(|i| i as i8 - 16)));
    bytes.extend_from_slice(&q8_0_block(0xBC00, std::array::from_fn(|i| -(i as i8) + 8)));
    let blocks = q8_0::dequant(&bytes);
    for v in q8_0_values(&blocks[0]) {
        assert_eq!(v, 0.0);
    }
    for (i, v) in q8_0_values(&blocks[1]).iter().enumerate() {
        assert_eq!(*v, (i as i8 - 16) as f32);
    }
    for (i, v) in q8_0_values(&blocks[2]).iter().enumerate() {
        assert_eq!(*v, -((-(i as i8) + 8) as f32));
    }
}

// ---------------------------------------------------------------------------
// Q2_K
// ---------------------------------------------------------------------------

fn q2_k_block(d: u16, dmin: u16, scales: [u8; 16], qs: [u8; 64]) -> [u8; 84] {
    let mut block = [0u8; 84];
    block[0..2].copy_from_slice(&d.to_le_bytes());
    block[2..4].copy_from_slice(&dmin.to_le_bytes());
    block[4..20].copy_from_slice(&scales);
    block[20..84].copy_from_slice(&qs);
    block
}

#[test]
fn q2_k_dequant_block_all_zero() {
    for v in q2_k_values(&q2_k::dequant_block(&q2_k_block(0, 0, [0; 16], [0; 64]))) {
        assert_eq!(v, 0.0);
    }
}

#[test]
fn q2_k_dequant_block_unit_scale_no_min() {
    let block = q2_k_block(0x3C00, 0x0000, [0x01; 16], [0x55; 64]);
    for v in q2_k_values(&q2_k::dequant_block(&block)) {
        assert_eq!(v, 1.0);
    }
}

#[test]
fn q2_k_dequant_block_with_min() {
    let block = q2_k_block(0x3C00, 0x3C00, [0x11; 16], [0x00; 64]);
    for v in q2_k_values(&q2_k::dequant_block(&block)) {
        assert_eq!(v, -1.0);
    }
}

#[test]
fn q2_k_dequant_multi_block() {
    let mut bytes = Vec::new();
    bytes.extend_from_slice(&q2_k_block(0x3C00, 0x0000, [0x01; 16], [0x55; 64]));
    bytes.extend_from_slice(&q2_k_block(0x4000, 0x0000, [0x02; 16], [0x55; 64]));
    let blocks = q2_k::dequant(&bytes);
    assert!(q2_k_values(&blocks[0]).iter().all(|&v| v == 1.0));
    assert!(q2_k_values(&blocks[1]).iter().all(|&v| v == 4.0));
}

#[test]
fn q2_k_dot_block_against_zeros_is_zero() {
    let q2 = q2_k_block(0x3C00, 0x0000, [0x01; 16], [0x55; 64]);
    assert_eq!(min_dot(&q2_k::dot_q2k_q8k_block(&q2, &[0; 292])), 0.0);
}

#[test]
fn q2_k_dot_block_all_ones_against_constant_q8() {
    let q2 = q2_k_block(0x3C00, 0x0000, [0x01; 16], [0x55; 64]);
    assert_eq!(min_dot(&q2_k::dot_q2k_q8k_block(&q2, &constant_q8(2))), 512.0);
}

#[test]
fn q2_k_dot_block_min_term_only() {
    let q2 = q2_k_block(0x3C00, 0x3C00, [0x11; 16], [0x00; 64]);
    assert_eq!(min_dot(&q2_k::dot_q2k_q8k_block(&q2, &constant_q8(1))), -256.0);
}

// Varied bytes: the product of the levels equals the sum over all elements.
#[test]
fn q2_k_dot_is_the_sum_over_the_elements() {
    let scales: [u8; 16] = std::array::from_fn(|i| (i * 37 + 5) as u8);
    let qs: [u8; 64] = std::array::from_fn(|i| (i * 29 + 11) as u8);
    let block = q2_k_block(0x3C00, 0x3800, scales, qs);
    let levels: [i8; 256] = std::array::from_fn(|i| ((i * 7) % 255) as i8);
    let act = q8_k::pack_block(1.0f32.to_bits(), &levels);
    let values = q2_k_values(&q2_k::dequant_block(&block));
    let want: f32 = values.iter().zip(levels).map(|(w, a)| w * a as f32).sum();
    assert_eq!(min_dot(&q2_k::dot_q2k_q8k_block(&block, &act)), want);
}

// ---------------------------------------------------------------------------
// Q4_K
// ---------------------------------------------------------------------------

fn q4_k_block(d: u16, dmin: u16, scales: [u8; 12], qs: [u8; 128]) -> [u8; 144] {
    let mut block = [0u8; 144];
    block[0..2].copy_from_slice(&d.to_le_bytes());
    block[2..4].copy_from_slice(&dmin.to_le_bytes());
    block[4..16].copy_from_slice(&scales);
    block[16..144].copy_from_slice(&qs);
    block
}

// Every scale is one, every minimum zero.
fn unit_scales() -> [u8; 12] {
    [1, 1, 1, 1, 0, 0, 0, 0, 1, 1, 1, 1]
}

// Every scale is zero, every minimum one.
fn unit_mins() -> [u8; 12] {
    [0, 0, 0, 0, 1, 1, 1, 1, 0x10, 0x10, 0x10, 0x10]
}

#[test]
fn q4_k_dequant_block_all_zero() {
    for v in q4_k_values(&q4_k::dequant_block(&q4_k_block(0, 0, [0; 12], [0; 128]))) {
        assert_eq!(v, 0.0);
    }
}

#[test]
fn q4_k_dequant_block_unit_scale_no_min() {
    let block = q4_k_block(0x3C00, 0x0000, unit_scales(), [0x11; 128]);
    for v in q4_k_values(&q4_k::dequant_block(&block)) {
        assert_eq!(v, 1.0);
    }
}

#[test]
fn q4_k_dequant_block_with_min() {
    let block = q4_k_block(0x3C00, 0x3C00, unit_mins(), [0; 128]);
    for v in q4_k_values(&q4_k::dequant_block(&block)) {
        assert_eq!(v, -1.0);
    }
}

#[test]
fn q4_k_dot_block_against_zeros_is_zero() {
    let q4 = q4_k_block(0x3C00, 0x0000, unit_scales(), [0x11; 128]);
    assert_eq!(min_dot(&q4_k::dot_q4k_q8k_block(&q4, &[0; 292])), 0.0);
}

#[test]
fn q4_k_dot_block_all_ones_against_constant_q8() {
    let q4 = q4_k_block(0x3C00, 0x0000, unit_scales(), [0x11; 128]);
    assert_eq!(min_dot(&q4_k::dot_q4k_q8k_block(&q4, &constant_q8(2))), 512.0);
}

#[test]
fn q4_k_dot_block_min_term_only() {
    let q4 = q4_k_block(0x3C00, 0x3C00, unit_mins(), [0; 128]);
    assert_eq!(min_dot(&q4_k::dot_q4k_q8k_block(&q4, &constant_q8(1))), -256.0);
}

#[test]
fn get_scale_min_k4_round_trip() {
    let mut scales = [0u8; 12];
    scales[9] = 0x65; // m_lo=6, sc_lo=5
    scales[1] = 0b10_000000; // sc_hi=2 (bits 4..5 of decoded sc)
    scales[5] = 0b01_000000; // m_hi=1
    let (sc, m) = q4_k::get_scale_min_k4(5, &scales);
    assert_eq!(sc, 0b10_0101); // 37
    assert_eq!(m, 0b01_0110); // 22
}

#[test]
fn q4_k_dequant_multi_block() {
    let mut bytes = Vec::new();
    bytes.extend_from_slice(&q4_k_block(0x3C00, 0x0000, unit_scales(), [0x11; 128]));
    bytes.extend_from_slice(&q4_k_block(0x4000, 0x0000, unit_scales(), [0x11; 128]));
    let blocks = q4_k::dequant(&bytes);
    assert!(q4_k_values(&blocks[0]).iter().all(|&v| v == 1.0));
    assert!(q4_k_values(&blocks[1]).iter().all(|&v| v == 2.0));
}

#[test]
fn q4_k_dot_is_the_sum_over_the_elements() {
    let scales: [u8; 12] = std::array::from_fn(|i| (i * 91 + 3) as u8);
    let qs: [u8; 128] = std::array::from_fn(|i| (i * 53 + 7) as u8);
    let block = q4_k_block(0x3C00, 0x3800, scales, qs);
    let levels: [i8; 256] = std::array::from_fn(|i| ((i % 13) as i8) - 6);
    let act = q8_k::pack_block(1.0f32.to_bits(), &levels);
    let values = q4_k_values(&q4_k::dequant_block(&block));
    let want: f32 = values.iter().zip(levels).map(|(w, a)| w * a as f32).sum();
    assert_eq!(min_dot(&q4_k::dot_q4k_q8k_block(&block, &act)), want);
}

// ---------------------------------------------------------------------------
// IQ4_NL and IQ4_XS
// ---------------------------------------------------------------------------

fn iq4_nl_block(d: u16, qs: [u8; 16]) -> [u8; 18] {
    let mut block = [0u8; 18];
    block[0..2].copy_from_slice(&d.to_le_bytes());
    block[2..18].copy_from_slice(&qs);
    block
}

fn dot_iq4nl(block: &[u8; 18], act: &[f32; 32]) -> f32 {
    let b = iq4_nl::dequant_block(block);
    let sum: f32 = b.levels.iter().zip(act).map(|(&q, a)| q as f32 * a).sum();
    f(b.d) * sum
}

#[test]
fn dequant_block_zero_d_yields_zeros() {
    for v in iq4_nl_values(&iq4_nl::dequant_block(&iq4_nl_block(0x0000, [0xFF; 16]))) {
        assert_eq!(v, 0.0);
    }
}

#[test]
fn dequant_block_unit_scale_index_zero() {
    for v in iq4_nl_values(&iq4_nl::dequant_block(&iq4_nl_block(0x3C00, [0x00; 16]))) {
        assert_eq!(v, -127.0);
    }
}

#[test]
fn dequant_block_index_layout_low_high() {
    let mut qs = [0u8; 16];
    qs[0] = 0xF8; // high=0xF, low=0x8
    let out = iq4_nl_values(&iq4_nl::dequant_block(&iq4_nl_block(0x3C00, qs)));
    assert_eq!(out[0], 1.0);
    assert_eq!(out[16], 113.0);
    assert_eq!(out[1], -127.0);
    assert_eq!(out[17], -127.0);
}

#[test]
fn dot_block_against_zero_act_is_zero() {
    assert_eq!(dot_iq4nl(&iq4_nl_block(0x3C00, [0x77; 16]), &[0.0; 32]), 0.0);
}

#[test]
fn dot_block_constant_index_zero() {
    let block = iq4_nl_block(0x3C00, [0x00; 16]);
    assert_eq!(dot_iq4nl(&block, &[1.0; 32]), -127.0 * 32.0);
}

#[test]
fn dot_block_matches_dequant_then_dot() {
    let qs: [u8; 16] = std::array::from_fn(|i| ((i as u8) * 17).wrapping_add(3));
    let block = iq4_nl_block(0x3800, qs);
    let act: [f32; 32] = std::array::from_fn(|i| (i as f32 * 0.13 - 1.0).sin());
    let deq = iq4_nl_values(&iq4_nl::dequant_block(&block));
    let manual: f32 = deq.iter().zip(act.iter()).map(|(w, a)| w * a).sum();
    let kernel = dot_iq4nl(&block, &act);
    let tol = manual.abs() * 1e-6 + 1e-5;
    assert!((kernel - manual).abs() < tol, "kernel {kernel} vs manual {manual}");
}

#[test]
fn iq4_nl_dequant_multi_block() {
    let mut bytes = Vec::new();
    bytes.extend_from_slice(&iq4_nl_block(0x3C00, [0x00; 16]));
    bytes.extend_from_slice(&iq4_nl_block(0x4000, [0x00; 16]));
    let blocks = iq4_nl::dequant(&bytes);
    assert!(iq4_nl_values(&blocks[0]).iter().all(|&v| v == -127.0));
    assert!(iq4_nl_values(&blocks[1]).iter().all(|&v| v == -254.0));
}

fn iq4_xs_block(d: u16, scales_h: u16, scales_l: [u8; 4], qs: [u8; 128]) -> [u8; 136] {
    let mut block = [0u8; 136];
    block[0..2].copy_from_slice(&d.to_le_bytes());
    block[2..4].copy_from_slice(&scales_h.to_le_bytes());
    block[4..8].copy_from_slice(&scales_l);
    block[8..136].copy_from_slice(&qs);
    block
}

#[test]
fn dequant_block_all_zero_d() {
    let block = iq4_xs_block(0x0000, 0xFFFF, [0xFF; 4], [0xFF; 128]);
    for v in iq4_xs_values(&iq4_xs::dequant_block(&block)) {
        assert_eq!(v, 0.0);
    }
}

#[test]
fn dequant_block_unit_scale_zero_index() {
    let block = iq4_xs_block(0x3C00, 0xAAAA, [0x11; 4], [0x00; 128]);
    for v in iq4_xs_values(&iq4_xs::dequant_block(&block)) {
        assert_eq!(v, -127.0);
    }
}

#[test]
fn dequant_block_zero_scale_yields_zero() {
    let block = iq4_xs_block(0x3C00, 0xAAAA, [0x00; 4], [0xFF; 128]);
    for v in iq4_xs_values(&iq4_xs::dequant_block(&block)) {
        assert_eq!(v, 0.0);
    }
}

#[test]
fn signed_scale_decodes_known_values() {
    let scales_l = [0xA5u8, 0, 0, 0];
    let scales_h = 0b00_00_00_00_00_00_00_11u16;
    assert_eq!(iq4_xs::signed_scale(0, &scales_l, scales_h), 21);
    assert_eq!(iq4_xs::signed_scale(1, &scales_l, scales_h), -22);
    assert_eq!(iq4_xs::signed_scale(2, &scales_l, scales_h), -32);
}

#[test]
fn dot_block_against_zero_q8_is_zero() {
    let block = iq4_xs_block(0x3C00, 0xAAAA, [0x11; 4], [0x77; 128]);
    assert_eq!(scaled_dot(&iq4_xs::dot_iq4xs_q8k_block(&block, &[0; 292]), 1.0), 0.0);
}

#[test]
fn dot_block_constant_codebook_against_constant_q8() {
    let block = iq4_xs_block(0x3C00, 0xAAAA, [0x11; 4], [0x00; 128]);
    let r = iq4_xs::dot_iq4xs_q8k_block(&block, &constant_q8(1));
    assert_eq!(scaled_dot(&r, 1.0), -32512.0);
}

#[test]
fn dot_block_signed_scale_negative_flips_sign() {
    let block = iq4_xs_block(0x3C00, 0x5555, [0xFF; 4], [0x00; 128]);
    let r = iq4_xs::dot_iq4xs_q8k_block(&block, &constant_q8(1));
    assert_eq!(scaled_dot(&r, 1.0), 32512.0);
}

#[test]
fn iq4_xs_dequant_multi_block() {
    let mut bytes = Vec::new();
    bytes.extend_from_slice(&iq4_xs_block(0x3C00, 0xAAAA, [0x11; 4], [0x00; 128]));
    bytes.extend_from_slice(&iq4_xs_block(0x4000, 0xAAAA, [0x11; 4], [0x00; 128]));
    let blocks = iq4_xs::dequant(&bytes);
    assert!(iq4_xs_values(&blocks[0]).iter().all(|&v| v == -127.0));
    assert!(iq4_xs_values(&blocks[1]).iter().all(|&v| v == -254.0));
}

#[test]
fn iq4_xs_dot_is_the_sum_over_the_elements() {
    let qs: [u8; 128] = std::array::from_fn(|i| (i * 101 + 9) as u8);
    let block = iq4_xs_block(0x3C00, 0x1B27, [0x4D, 0x93, 0x0F, 0xE2], qs);
    let levels: [i8; 256] = std::array::from_fn(|i| ((i % 17) as i8) - 8);
    let act = q8_k::pack_block(1.0f32.to_bits(), &levels);
    let values = iq4_xs_values(&iq4_xs::dequant_block(&block));
    let want: f32 = values.iter().zip(levels).map(|(w, a)| w * a as f32).sum();
    assert_eq!(scaled_dot(&iq4_xs::dot_iq4xs_q8k_block(&block, &act), 1.0), want);
}

// ---------------------------------------------------------------------------
// IQ2_XXS
// ---------------------------------------------------------------------------

fn iq2_xxs_block(d: u16, qs: [u16; 32]) -> [u8; 66] {
    let mut block = [0u8; 66];
    block[0..2].copy_from_slice(&d.to_le_bytes());
    for (i, &q) in qs.iter().enumerate() {
        block[2 + i * 2..2 + i * 2 + 2].copy_from_slice(&q.to_le_bytes());
    }
    block
}

#[test]
fn iq2_xxs_dequant_block_all_zero() {
    for v in iq2_xxs_values(&iq2_xxs::dequant_block(&iq2_xxs_block(0x0000, [0; 32]))) {
        assert_eq!(v, 0.0);
    }
}

#[test]
fn signed_grid_init_sanity() {
    assert_eq!(iq2_xxs::signed_grid(0, 0)[0], 8);
    assert_eq!(iq2_xxs::signed_grid(0, 0)[7], 8);
    assert_eq!(iq2_xxs::signed_grid(0, 127)[0], -8);
    assert_eq!(iq2_xxs::signed_grid(0, 127)[7], -8);
}

#[test]
fn iq2_xxs_dot_block_against_zeros_is_zero() {
    let block = iq2_xxs_block(0x3C00, [0; 32]);
    assert_eq!(scaled_dot(&iq2_xxs::dot_iq2xxs_q8k_block(&block, &[0; 292]), 0.125), 0.0);
}

#[test]
fn dot_block_matches_dequant_dot_simple() {
    let iq2 = iq2_xxs_block(0x3C00, [0; 32]);
    let q8 = constant_q8(1);
    let dot_kernel = scaled_dot(&iq2_xxs::dot_iq2xxs_q8k_block(&iq2, &q8), 0.125);
    let w = iq2_xxs_values(&iq2_xxs::dequant_block(&iq2));
    let dot_ref: f32 = w
        .iter()
        .zip(q8[4..260].iter().map(|&b| b as i8 as f32))
        .map(|(&a, b)| a * b)
        .sum();
    assert!((dot_kernel - dot_ref).abs() < 1e-3, "kernel {dot_kernel} != ref {dot_ref}");
    assert_eq!(dot_kernel, 256.0);
}

#[test]
fn iq2_xxs_dot_is_the_sum_over_the_elements() {
    let qs: [u16; 32] = std::array::from_fn(|i| (i as u16).wrapping_mul(40503).wrapping_add(977));
    let block = iq2_xxs_block(0x3C00, qs);
    assert_eq!(iq2_xxs::read_qs_u16(&block), qs);
    let levels: [i8; 256] = std::array::from_fn(|i| ((i % 19) as i8) - 9);
    let act = q8_k::pack_block(1.0f32.to_bits(), &levels);
    let values = iq2_xxs_values(&iq2_xxs::dequant_block(&block));
    let want: f32 = values.iter().zip(levels).map(|(w, a)| w * a as f32).sum();
    let got = scaled_dot(&iq2_xxs::dot_iq2xxs_q8k_block(&block, &act), 0.125);
    assert!((got - want).abs() <= want.abs() * 1e-5, "{got} {want}");
    let blocks = iq2_xxs::dequant(&block);
    assert_eq!(blocks.len(), 1);
    assert!(blocks[0].scales.iter().all(|&s| s < 16));
}

// ---------------------------------------------------------------------------
// Q8_K
// ---------------------------------------------------------------------------

fn read_d(block: &[u8]) -> f32 {
    f(q8_k::scale_of(block))
}

fn read_qs(block: &[u8]) -> Vec<i8> {
    block[4..260].iter().map(|&b| b as i8).collect()
}

fn read_bsums(block: &[u8]) -> Vec<i16> {
    (0..16).map(|j| q8_k::get_i16(block, 260 + 2 * j)).collect()
}

#[test]
fn zero_input_produces_zero_block() {
    assert_eq!(quantize_block(&[0.0; 256]), vec![0u8; 292]);
}

#[test]
fn constant_positive_input_roundtrips_on_max() {
    let out = quantize_block(&[3.0; 256]);
    let d = read_d(&out);
    let qs = read_qs(&out);
    for &q in &qs {
        assert_eq!(q, -128);
    }
    assert!((d * (qs[0] as f32) - 3.0).abs() < 1e-6);
}

#[test]
fn constant_negative_input_roundtrips_on_max() {
    let out = quantize_block(&[-5.0; 256]);
    let d = read_d(&out);
    let qs = read_qs(&out);
    for &q in &qs {
        assert_eq!(q, -128);
    }
    assert!((d * (qs[0] as f32) - -5.0).abs() < 1e-6);
}

#[test]
fn mixed_signs_roundtrip_max_element() {
    let mut x = vec![0f32; 256];
    x[10] = 7.5;
    x[20] = -3.0;
    x[30] = 1.2;
    let out = quantize_block(&x);
    let d = read_d(&out);
    let qs = read_qs(&out);
    assert_eq!(qs[10], -128);
    let recon_max = d * qs[10] as f32;
    assert!((recon_max - 7.5).abs() < 1e-4);
    assert!(qs[20] != 0 && qs[20] > 0);
    assert!(qs[30] != 0 && qs[30] < 0);
}

#[test]
fn bsums_match_manual_sum() {
    let x: Vec<f32> = (0..256).map(|i| (i - 128) as f32 * 0.05).collect();
    let out = quantize_block(&x);
    let qs = read_qs(&out);
    let bsums = read_bsums(&out);
    for j in 0..16 {
        let manual: i32 = qs[j * 16..j * 16 + 16].iter().map(|&q| q as i32).sum();
        let expected = manual.clamp(i16::MIN as i32, i16::MAX as i32) as i16;
        assert_eq!(bsums[j], expected, "bsum group {j}");
    }
}

#[test]
fn multi_block_quantize() {
    let n = 3;
    let mut x = vec![0f32; n * 256];
    for b in 0..n {
        for i in 0..256 {
            x[b * 256 + i] = (b as f32 + 1.0) * ((i as f32) * 0.01 - 1.28);
        }
    }
    let out = quantize(&x);
    let d0 = read_d(&out[..292]);
    let d1 = read_d(&out[292..2 * 292]);
    let d2 = read_d(&out[2 * 292..]);
    assert!(d0.abs() < d1.abs() && d1.abs() < d2.abs());
}

#[test]
fn build_block_helper_matches_quantize_output() {
    assert_eq!(quantize_block(&[0.0; 256]), q8_k::pack_block(0.0f32.to_bits(), &[0i8; 256]));
}

fn q8_k_values(out: &[u8]) -> Vec<f32> {
    let d = read_d(out);
    read_qs(out).iter().map(|&q| d * q as f32).collect()
}

#[test]
fn round_trip_monotonic_ramp_within_quantization_step() {
    let x: Vec<f32> = (0..256).map(|i| (i as f32 - 128.0) * 0.1).collect();
    let recon = q8_k_values(&quantize_block(&x));
    let step = 12.7 / 128.0;
    for (xv, rv) in x.iter().zip(recon.iter()) {
        assert!((xv - rv).abs() <= step, "input {xv}, recon {rv}, step {step}");
    }
}

#[test]
fn round_trip_alternating_signs_preserves_pattern() {
    let x: Vec<f32> = (0..256).map(|i| if i % 2 == 0 { 1.0 } else { -1.0 }).collect();
    let recon = q8_k_values(&quantize_block(&x));
    let step = 1.0 / 128.0;
    for (xv, rv) in x.iter().zip(recon.iter()) {
        assert_eq!(xv.signum(), rv.signum());
        assert!((xv - rv).abs() <= step + 1e-6);
    }
}

#[test]
fn round_trip_near_int8_saturation() {
    let x: Vec<f32> = (0..256).map(|i| (i as f32 - 128.0) / 128.0).collect();
    let out = quantize_block(&x);
    assert_eq!(read_qs(&out)[0], -128);
    let recon = q8_k_values(&out);
    for (xv, rv) in x.iter().zip(recon.iter()) {
        assert!((xv - rv).abs() <= 1.0 / 128.0 + 1e-6);
    }
}

#[test]
fn round_trip_very_small_magnitudes() {
    let x: Vec<f32> = (0..256).map(|i| (i as f32 - 128.0) * 1e-20).collect();
    let recon = q8_k_values(&quantize_block(&x));
    let step = 1.28e-18 / 128.0;
    for (xv, rv) in x.iter().zip(recon.iter()) {
        assert!((xv - rv).abs() <= step + 1e-25, "input {xv}, recon {rv}");
    }
}

#[test]
fn d_sign_matches_negative_m() {
    let mut x = vec![0.0f32; 256];
    x[0] = -2.0;
    x[1] = 1.0;
    let d = read_d(&quantize_block(&x));
    assert!(d > 0.0);
    assert!((d - (2.0 / 128.0)).abs() < 1e-7);
}

#[test]
fn d_sign_matches_positive_m() {
    let mut x = vec![0.0f32; 256];
    x[0] = 2.0;
    x[1] = -1.0;
    let d = read_d(&quantize_block(&x));
    assert!(d < 0.0);
    assert!((d - (-2.0 / 128.0)).abs() < 1e-7);
}

#[test]
fn first_max_wins_when_ties_in_abs() {
    let mut x = vec![0.0f32; 256];
    x[5] = 4.0;
    x[200] = -4.0;
    let d = read_d(&quantize_block(&x));
    assert!((d - (-4.0 / 128.0)).abs() < 1e-7);
}

#[test]
fn bsums_in_i16_range_for_full_saturation() {
    for b in read_bsums(&quantize_block(&[1.0; 256])) {
        assert_eq!(b, -2048);
    }
}

#[test]
fn quantize_zero_length_input() {
    assert!(quantize(&[]).is_empty());
}

#[test]
fn block_boundary_independence() {
    let mut x = vec![1000.0f32; 512];
    for v in x[256..].iter_mut() {
        *v = 0.001;
    }
    let out = quantize(&x);
    let d0 = read_d(&out[..292]);
    let d1 = read_d(&out[292..]);
    assert!((d0 - (-1000.0 / 128.0)).abs() < 1e-3);
    assert!((d1 - (-0.001 / 128.0)).abs() < 1e-9);
    for q in read_qs(&out[..292]) {
        assert_eq!(q, -128);
    }
    for q in read_qs(&out[292..]) {
        assert_eq!(q, -128);
    }
}

#[test]
fn quantize_overwrites_existing_output() {
    let mut x = vec![0f32; 256];
    x[0] = 1.0;
    let out = quantize_block(&x);
    let qs = read_qs(&out);
    let bsums = read_bsums(&out);
    assert_eq!(qs[0], -128);
    for &q in &qs[1..] {
        assert_eq!(q, 0);
    }
    assert_eq!(bsums[0], -128);
    for &b in &bsums[1..] {
        assert_eq!(b, 0);
    }
}

#[test]
fn bsums_consistent_with_qs_for_random_input() {
    let mut x = vec![0f32; 256];
    let mut state: u64 = 0xcafef00dd15ea5e5;
    for v in x.iter_mut() {
        state = state
            .wrapping_mul(6364136223846793005)
            .wrapping_add(1442695040888963407);
        let bits = (state >> 32) as u32;
        *v = (bits as f32 / u32::MAX as f32 - 0.5) * 8.0;
    }
    let out = quantize_block(&x);
    let qs = read_qs(&out);
    let bsums = read_bsums(&out);
    for j in 0..16 {
        let expected: i32 = qs[j * 16..j * 16 + 16].iter().map(|&q| q as i32).sum();
        assert_eq!(bsums[j] as i32, expected, "group {j}");
    }
}

#[test]
fn numbers_that_are_none_do_not_scale() {
    let bits: Vec<u32> = [f32::NAN, 1.0, -2.0, f32::NAN, 2.0].iter().map(|x| x.to_bits()).collect();
    assert_eq!(f(q8_k::signed_max(&bits)), -2.0);
    assert_eq!(q8_k::signed_max(&[f32::NAN.to_bits()]), 0);
    assert_eq!(q8_k::clamp_level(128), 127);
    assert_eq!(q8_k::clamp_level(-129), -128);
    assert_eq!(q8_k::clamp_level(-7), -7);
}

// ---------------------------------------------------------------------------
// Products
// ---------------------------------------------------------------------------

fn weight_constant_i8(n: usize, k: usize, val: i8) -> Vec<u8> {
    let mut bytes = Vec::new();
    for _ in 0..n * (k / 32) {
        bytes.extend_from_slice(&q8_0_block(0x3C00, [val; 32]));
    }
    bytes
}

fn weight_f16(values: &[u16]) -> Vec<u8> {
    values.iter().flat_map(|v| v.to_le_bytes()).collect()
}

fn dot_q8_0(block: &[u8; 34], act: &[f32; 32]) -> f32 {
    let w = WeightView::Q8_0 { bytes: block, out_features: 1, in_features: 32 };
    matmul_row(w, act)[0]
}

#[test]
fn weight_view_accessors() {
    let bytes = weight_constant_i8(7, 64, 1);
    let q = WeightView::Q8_0 {
        bytes: &bytes,
        out_features: 7,
        in_features: 64,
    };
    assert_eq!(q.out_features(), 7);
    assert_eq!(q.in_features(), 64);

    let f_bytes = weight_f16(&[0x3C00; 15]);
    let f = WeightView::F16 {
        bytes: &f_bytes,
        out_features: 3,
        in_features: 5,
    };
    assert_eq!(f.out_features(), 3);
    assert_eq!(f.in_features(), 5);
}

#[test]
fn dot_block_all_ones_identity() {
    assert_eq!(dot_q8_0(&q8_0_block(0x3C00, [1; 32]), &[1.0; 32]), 32.0);
}

#[test]
fn dot_block_mixed_sign() {
    let mut quants = [0i8; 32];
    quants[0] = 10;
    quants[1] = -5;
    let mut act = [0f32; 32];
    act[0] = 3.0;
    act[1] = 2.0;
    assert_eq!(dot_q8_0(&q8_0_block(0x3C00, quants), &act), 20.0);
}

#[test]
fn dot_block_negative_scale() {
    assert_eq!(dot_q8_0(&q8_0_block(0xBC00, [1; 32]), &[1.0; 32]), -32.0);
}

#[test]
fn dot_block_zero_quants_is_zero() {
    assert_eq!(dot_q8_0(&q8_0_block(0x3C00, [0; 32]), &[3.5; 32]), 0.0);
}

#[test]
fn dot_block_zero_act_is_zero() {
    assert_eq!(dot_q8_0(&q8_0_block(0x3C00, [7; 32]), &[0.0; 32]), 0.0);
}

#[test]
fn matmul_row_constant_weight() {
    let bytes = weight_constant_i8(1, 32, 2);
    let w = WeightView::Q8_0 { bytes: &bytes, out_features: 1, in_features: 32 };
    assert_eq!(matmul_row(w, &[1.0; 32]), vec![64.0]);
}

#[test]
fn matmul_row_multiple_blocks_and_outputs() {
    let bytes = weight_constant_i8(4, 64, 1);
    let w = WeightView::Q8_0 { bytes: &bytes, out_features: 4, in_features: 64 };
    let act: Vec<f32> = (0..64).map(|i| i as f32).collect();
    let expect: f32 = act.iter().sum();
    assert_eq!(matmul_row(w, &act), vec![expect; 4]);
}

#[test]
fn matmul_row_zero_act_yields_zero() {
    let bytes = weight_constant_i8(3, 32, 5);
    let w = WeightView::Q8_0 { bytes: &bytes, out_features: 3, in_features: 32 };
    assert_eq!(matmul_row(w, &[0.0; 32]), vec![0.0; 3]);
}

#[test]
fn matmul_row_f16_basic() {
    let bytes = weight_f16(&[0x3C00, 0x3C00, 0x3C00, 0x4000, 0x4000, 0x4000]);
    let w = WeightView::F16 { bytes: &bytes, out_features: 2, in_features: 3 };
    assert_eq!(matmul_row(w, &[1.0, 2.0, 3.0]), vec![6.0, 12.0]);
}

#[test]
fn matmul_row_f16_negative_weights() {
    let bytes = weight_f16(&[0xBC00; 4]);
    let w = WeightView::F16 { bytes: &bytes, out_features: 1, in_features: 4 };
    assert_eq!(matmul_row(w, &[1.0, 2.0, 3.0, 4.0]), vec![-10.0]);
}

#[test]
fn matmul_row_f16_fractional_weights() {
    let bytes = weight_f16(&[0x3800; 4]);
    let w = WeightView::F16 { bytes: &bytes, out_features: 1, in_features: 4 };
    assert_eq!(matmul_row(w, &[2.0, 4.0, 6.0, 8.0]), vec![10.0]);
}

#[test]
fn matmul_row_q2_k_basic() {
    let mut bytes = Vec::new();
    for _ in 0..2 {
        bytes.extend_from_slice(&q2_k_block(0x3C00, 0, [0x01; 16], [0x55; 64]));
    }
    let w = WeightView::Q2_K { bytes: &bytes, out_features: 2, in_features: 256 };
    let act: Vec<f32> = (0..256).map(|i| (i % 4) as f32).collect();
    let out = matmul_row(w, &act);
    assert!((out[0] - 384.0).abs() < 0.5, "out[0] = {} != 384", out[0]);
    assert!((out[1] - 384.0).abs() < 0.5, "out[1] = {} != 384", out[1]);
}

#[test]
fn matmul_row_q2_k_zero_act_yields_zero() {
    let mut bytes = Vec::new();
    for _ in 0..3 {
        bytes.extend_from_slice(&q2_k_block(0x3C00, 0, [0x01; 16], [0x55; 64]));
    }
    let w = WeightView::Q2_K { bytes: &bytes, out_features: 3, in_features: 256 };
    assert_eq!(matmul_row(w, &[0.0; 256]), vec![0.0; 3]);
}

#[test]
fn matmul_row_iq2_xxs_basic() {
    let mut bytes = Vec::new();
    for _ in 0..2 {
        bytes.extend_from_slice(&iq2_xxs_block(0x3C00, [0; 32]));
    }
    let w = WeightView::IQ2_XXS { bytes: &bytes, out_features: 2, in_features: 256 };
    let act: Vec<f32> = (0..256).map(|i| (i % 4) as f32).collect();
    let out = matmul_row(w, &act);
    assert!((out[0] - 384.0).abs() < 0.5, "out[0] = {} != 384", out[0]);
    assert!((out[1] - 384.0).abs() < 0.5, "out[1] = {} != 384", out[1]);
}

#[test]
fn matmul_row_iq2_xxs_zero_act_yields_zero() {
    let mut bytes = Vec::new();
    for _ in 0..3 {
        bytes.extend_from_slice(&iq2_xxs_block(0x3C00, [0; 32]));
    }
    let w = WeightView::IQ2_XXS { bytes: &bytes, out_features: 3, in_features: 256 };
    assert_eq!(matmul_row(w, &[0.0; 256]), vec![0.0; 3]);
}

#[test]
fn sizes_are_held_to_shapes() {
    let bytes = weight_constant_i8(2, 64, 1);
    let w = |out_features, in_features| WeightView::Q8_0 {
        bytes: &bytes,
        out_features,
        in_features,
    };
    assert!(w(2, 64).is_well_sized());
    assert!(!w(3, 64).is_well_sized());
    assert!(!w(2, 63).is_well_sized());
    assert!(!w(usize::MAX, 64).is_well_sized());
}

#[test]
fn experts_lie_one_behind_the_other() {
    let bytes = weight_f16(&(0..12).collect::<Vec<u16>>());
    // Three experts of two rows with two columns each.
    let w = WeightView::F16 { bytes: &bytes, out_features: 2, in_features: 2 };
    for eid in 0..3 {
        match expert_subview(w, eid, 3) {
            WeightView::F16 { bytes: part, out_features, in_features } => {
                assert_eq!(part, &bytes[eid * 8..(eid + 1) * 8]);
                assert_eq!((out_features, in_features), (2, 2));
            }
            _ => unreachable!(),
        }
    }
}

// ---------------------------------------------------------------------------
// Residual streams
// ---------------------------------------------------------------------------

#[test]
fn hc_from_plain_embedding_copies_correctly() {
    let x: Vec<u32> = [1.0f32, 2.0, 3.0].iter().map(|v| v.to_bits()).collect();
    let mut out = vec![0u32; 12];
    hc_from_plain_embedding(&mut out, &x, 3, 4);
    for h in 0..4 {
        assert_eq!(&out[h * 3..(h + 1) * 3], x.as_slice());
    }
}

#[test]
fn hc_from_plain_embedding_n_hc_one() {
    let x: Vec<u32> = [1.0f32, 2.0, 3.0].iter().map(|v| v.to_bits()).collect();
    let mut out = vec![0u32; 3];
    hc_from_plain_embedding(&mut out, &x, 3, 1);
    assert_eq!(out, x);
}

#[test]
fn an_expert_of_an_unsupported_matrix_is_the_matrix() {
    let w = WeightView::Unsupported { dtype_name: "Q6_K", out_features: 3, in_features: 5 };
    match expert_subview(w, 1, 4) {
        WeightView::Unsupported { dtype_name, out_features, in_features } => {
            assert_eq!((dtype_name, out_features, in_features), ("Q6_K", 3, 5));
        }
        _ => panic!("expected an unsupported view"),
    }
}
