use fixed::types::extra::U8;
use fixed::types::I16F16;
use fixed::FixedI16;
use qres_core::tensor::FixedTensor;

type I8F8 = FixedI16<U8>;

/// The narrowing as the `fixed` crate computes it through `f32`.
fn narrow_through_f32(bits: i32) -> i16 {
    let v = I16F16::from_bits(bits).to_num::<f32>();
    I8F8::from_num(v.clamp(-128.0, 127.996)).to_bits()
}

#[test]
fn quantize_matches_fixed_crate_rounding() {
    let mut samples: Vec<i32> = vec![
        0, 1, -1, 127, 128, 129, 383, 384, 385, -128, -129, -384, 65536, -65536,
        8_388_607, 8_388_608, -8_388_608, -8_388_609, 8_388_480, 8_388_479, i32::MAX, i32::MIN,
    ];
    let mut x: i32 = -9_000_000;
    while x < 9_000_000 {
        samples.push(x);
        x += 997;
    }
    let tensor = FixedTensor::new(samples.clone());
    let q = tensor.quantize_to_i8f8();
    assert_eq!(q.len(), samples.len());
    for (b, got) in samples.iter().zip(q.iter()) {
        assert_eq!(*got, narrow_through_f32(*b), "pattern {}", b);
    }
}

#[test]
fn quantize_ties_to_even() {
    let t = FixedTensor::new(vec![128, 384, -128, -384, 127, 129]);
    assert_eq!(t.quantize_to_i8f8(), vec![0, 2, 0, -2, 0, 1]);
}

#[test]
fn quantize_saturates() {
    let t = FixedTensor::new(vec![200 * 65536, -200 * 65536]);
    assert_eq!(t.quantize_to_i8f8(), vec![32767, -32768]);
}

#[test]
fn from_i8f8_widens_exactly() {
    let raw: Vec<i16> = vec![0, 1, -1, 256, -32768, 32767];
    let t = FixedTensor::from_i8f8(&raw);
    let expected: Vec<i32> = raw.iter().map(|&b| I16F16::from_num(I8F8::from_bits(b)).to_bits()).collect();
    assert_eq!(t.data, expected);
    assert_eq!(t.data, vec![0, 256, -256, 65536, -8_388_608, 8_388_352]);
}

#[test]
fn from_i8f8_bytes_reads_little_endian_pairs() {
    let bytes = [0x00u8, 0x01, 0xFF, 0xFF, 0x80, 0x00, 0x7F];
    let t = FixedTensor::from_i8f8_bytes(&bytes);
    assert_eq!(t.data, vec![256 * 256, -256, 128 * 256]);
}

#[test]
fn i8f8_roundtrip_is_identity() {
    let raw: Vec<i16> = vec![-32768, -5, 0, 7, 12345, 32767];
    let t = FixedTensor::from_i8f8(&raw);
    assert_eq!(t.quantize_to_i8f8(), raw);
}

/// Reference Haar transform of one segment, checked fixed-point arithmetic
/// with `MAX` on overflow.
fn reference_haar_1d(data: &mut [I16F16], start: usize, len: usize) {
    let mut temp = vec![I16F16::ZERO; len];
    let mut h = len;
    let frac_sqrt_2 = I16F16::from_num(core::f64::consts::FRAC_1_SQRT_2);
    while h > 1 {
        let half = h / 2;
        for i in 0..half {
            let a = data.get(start + 2 * i).copied().unwrap_or(I16F16::ZERO);
            let b = data.get(start + 2 * i + 1).copied().unwrap_or(I16F16::ZERO);
            let sum = a.checked_add(b).unwrap_or(I16F16::MAX);
            let diff = a.checked_sub(b).unwrap_or(I16F16::MAX);
            temp[i] = sum.checked_mul(frac_sqrt_2).unwrap_or(I16F16::MAX);
            if let Some(idx) = temp.get_mut(half + i) {
                *idx = diff.checked_mul(frac_sqrt_2).unwrap_or(I16F16::MAX);
            }
        }
        if let Some(dest) = data.get_mut(start..start + h) {
            if let Some(src) = temp.get(..h) {
                dest.copy_from_slice(src);
            }
        }
        h = half;
    }
}

fn reference_haar_2d(values: &[f64], rows: usize, cols: usize) -> Vec<i32> {
    let mut matrix: Vec<I16F16> = values.iter().map(|&v| I16F16::from_num(v)).collect();
    for r in 0..rows {
        reference_haar_1d(&mut matrix, r * cols, cols);
    }
    let mut transposed = vec![I16F16::ZERO; rows * cols];
    for r in 0..rows {
        for c in 0..cols {
            transposed[c * rows + r] = matrix[r * cols + c];
        }
    }
    for c in 0..cols {
        reference_haar_1d(&mut transposed, c * rows, rows);
    }
    transposed.iter().map(|v| v.to_bits()).collect()
}

#[test]
fn frac_1_sqrt_2_constant_matches_fixed() {
    assert_eq!(
        qres_core::tensor::FRAC_1_SQRT_2_BITS,
        I16F16::from_num(core::f64::consts::FRAC_1_SQRT_2).to_bits()
    );
}

#[test]
fn haar_transform_matches_reference() {
    let compressor = qres_core::tensor::MpsCompressor { bond_dim: 4, threshold: 0 };
    for (rows, cols) in [(1usize, 1usize), (2, 2), (3, 5), (4, 4), (5, 3), (1, 7), (6, 1)] {
        let values: Vec<f64> = (0..rows * cols).map(|i| ((i * 37 % 23) as f64 - 11.0) * 0.75).collect();
        let matrix: Vec<i32> = values.iter().map(|&v| I16F16::from_num(v).to_bits()).collect();
        let got = compressor.haar_transform(matrix, rows, cols);
        assert_eq!(got, reference_haar_2d(&values, rows, cols), "rows {} cols {}", rows, cols);
    }
}

#[test]
fn haar_transform_saturates_to_max() {
    let compressor = qres_core::tensor::MpsCompressor { bond_dim: 1, threshold: 0 };
    let big = I16F16::from_num(30000.0).to_bits();
    let got = compressor.haar_transform(vec![big, big], 1, 2);
    // 30000 + 30000 overflows Q16.16: the sum becomes MAX, scaled by 1/sqrt(2).
    let scaled = I16F16::MAX.checked_mul(I16F16::from_num(core::f64::consts::FRAC_1_SQRT_2)).unwrap();
    assert_eq!(got, vec![scaled.to_bits(), 0]);
}
