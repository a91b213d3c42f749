use ds4::tensor::{numel, row_major_strides, OwnedTensor, Tensor};

fn bits(values: &[f32]) -> Vec<u32> {
    values.iter().map(|x| x.to_bits()).collect()
}

#[test]
fn new_derives_row_major_strides() {
    let data: Vec<u32> = (0..12).map(|x| (x as f32).to_bits()).collect();
    let t = Tensor::new(&data, vec![3, 4]);
    assert_eq!(t.shape(), &[3, 4]);
    assert_eq!(t.strides(), &[4, 1]);
    assert_eq!(t.rank(), 2);
}

#[test]
fn offset_matches_row_major_layout() {
    let data: Vec<u32> = (0..24).map(|x| (x as f32).to_bits()).collect();
    let t = Tensor::new(&data, vec![2, 3, 4]);
    // (1, 2, 3) => 1*12 + 2*4 + 3 = 23
    assert_eq!(t.offset(&[1, 2, 3]), 23);
    assert_eq!(t.data()[t.offset(&[1, 2, 3])], 23.0f32.to_bits());
    // (0, 0, 0) => 0
    assert_eq!(t.offset(&[0, 0, 0]), 0);
}

#[test]
fn row_returns_contiguous_slice() {
    let data: Vec<u32> = (0..12).map(|x| (x as f32).to_bits()).collect();
    let t = Tensor::new(&data, vec![3, 4]);
    assert_eq!(t.row(0), bits(&[0.0, 1.0, 2.0, 3.0]));
    assert_eq!(t.row(2), bits(&[8.0, 9.0, 10.0, 11.0]));
}

#[test]
fn view_2d_slices_rows() {
    let data: Vec<u32> = (0..12).map(|x| (x as f32).to_bits()).collect();
    let t = Tensor::new(&data, vec![3, 4]);
    let mid = t.view_2d(1..3);
    assert_eq!(mid.shape(), &[2, 4]);
    assert_eq!(mid.row(0), bits(&[4.0, 5.0, 6.0, 7.0]));
    assert_eq!(mid.row(1), bits(&[8.0, 9.0, 10.0, 11.0]));
}

#[test]
fn owned_tensor_zeros_and_view() {
    let mut t = OwnedTensor::zeros(vec![2, 3]);
    t.data_mut()[4] = 7.0f32.to_bits();
    assert_eq!(t.data(), bits(&[0.0, 0.0, 0.0, 0.0, 7.0, 0.0]));
    let v = t.as_view();
    assert_eq!(v.shape(), &[2, 3]);
    assert_eq!(v.row(1), bits(&[0.0, 7.0, 0.0]));
}

#[test]
fn rank_1_tensor() {
    let data = bits(&[1.0, 2.0, 3.0]);
    let t = Tensor::new(&data, vec![3]);
    assert_eq!(t.rank(), 1);
    assert_eq!(t.strides(), &[1]);
    assert_eq!(t.offset(&[2]), 2);
}

#[test]
fn single_element_tensor() {
    let data = bits(&[42.0]);
    let t = Tensor::new(&data, vec![1]);
    assert_eq!(t.rank(), 1);
    assert_eq!(t.shape(), &[1]);
    assert_eq!(t.strides(), &[1]);
    assert_eq!(t.offset(&[0]), 0);
    assert_eq!(t.data()[0], 42.0f32.to_bits());
}

#[test]
fn scalar_tensor_rank_zero() {
    let data = bits(&[7.0]);
    let t = Tensor::new(&data, vec![]);
    assert_eq!(t.rank(), 0);
    assert!(t.shape().is_empty());
    assert!(t.strides().is_empty());
    assert_eq!(t.offset(&[]), 0);
}

#[test]
fn rank_4_strides_are_row_major() {
    let data: Vec<u32> = (0..2 * 3 * 4 * 5).map(|x| (x as f32).to_bits()).collect();
    let t = Tensor::new(&data, vec![2, 3, 4, 5]);
    assert_eq!(t.strides(), &[60, 20, 5, 1]);
    assert_eq!(t.offset(&[1, 2, 3, 4]), 60 + 40 + 15 + 4);
}

#[test]
fn view_2d_full_range_matches_original() {
    let data: Vec<u32> = (0..12).map(|x| (x as f32).to_bits()).collect();
    let t = Tensor::new(&data, vec![3, 4]);
    let v = t.view_2d(0..3);
    assert_eq!(v.shape(), &[3, 4]);
    assert_eq!(v.data(), t.data());
}

#[test]
fn view_2d_empty_range() {
    let data: Vec<u32> = (0..12).map(|x| (x as f32).to_bits()).collect();
    let t = Tensor::new(&data, vec![3, 4]);
    let v = t.view_2d(1..1);
    assert_eq!(v.shape(), &[0, 4]);
    assert!(v.data().is_empty());
}

#[test]
fn view_2d_single_row() {
    let data: Vec<u32> = (0..12).map(|x| (x as f32).to_bits()).collect();
    let t = Tensor::new(&data, vec![3, 4]);
    let v = t.view_2d(2..3);
    assert_eq!(v.shape(), &[1, 4]);
    assert_eq!(v.row(0), bits(&[8.0, 9.0, 10.0, 11.0]));
}

#[test]
fn owned_from_vec_preserves_data() {
    let t = OwnedTensor::from_vec(bits(&[1.0, 2.0, 3.0, 4.0]), vec![2, 2]);
    assert_eq!(t.shape(), &[2, 2]);
    assert_eq!(t.data(), bits(&[1.0, 2.0, 3.0, 4.0]));
}

#[test]
fn owned_zeros_has_correct_size() {
    let t = OwnedTensor::zeros(vec![4, 5]);
    assert_eq!(t.data().len(), 20);
    assert!(t.data().iter().all(|&x| x == 0));
}

#[test]
fn owned_as_view_round_trips_to_tensor() {
    let mut t = OwnedTensor::zeros(vec![3, 2]);
    for (i, v) in t.data_mut().iter_mut().enumerate() {
        *v = (i as f32).to_bits();
    }
    let v = t.as_view();
    assert_eq!(v.shape(), &[3, 2]);
    assert_eq!(v.offset(&[2, 1]), 5);
    assert_eq!(v.row(1), bits(&[2.0, 3.0]));
}

#[test]
fn empty_dim_tensor_has_zero_elements() {
    let data: Vec<u32> = Vec::new();
    let t = Tensor::new(&data, vec![0, 4]);
    assert_eq!(t.shape(), &[0, 4]);
    assert!(t.data().is_empty());
}

#[test]
fn every_entry_has_a_place_of_its_own() {
    let data: Vec<u32> = (0..24).collect();
    let t = Tensor::new(&data, vec![2, 3, 4]);
    let mut seen = vec![false; 24];
    for a in 0..2 {
        for b in 0..3 {
            for c in 0..4 {
                let off = t.offset(&[a, b, c]);
                assert!(off < 24 && !seen[off]);
                seen[off] = true;
            }
        }
    }
    assert!(seen.iter().all(|&x| x));
}

#[test]
fn shapes_are_counted() {
    assert_eq!(numel(&[]), 1);
    assert_eq!(numel(&[2, 3, 4]), 24);
    assert_eq!(numel(&[2, 0, 4]), 0);
    assert_eq!(row_major_strides(&[2, 0, 4]), vec![0, 4, 1]);
    assert!(row_major_strides(&[]).is_empty());
}
