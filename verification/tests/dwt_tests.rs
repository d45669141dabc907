use jpegexp_rs::jpeg2000::dwt::Dwt53;

fn roundtrip(input: &[i32]) -> Vec<i32> {
    let len = input.len();
    let mut l = vec![0i32; len.div_ceil(2)];
    let mut h = vec![0i32; len / 2];
    Dwt53::forward(input, &mut l, &mut h);
    let mut output = vec![0i32; len];
    Dwt53::inverse(&l, &h, &mut output);
    output
}

#[test]
fn test_dwt_53_roundtrip() {
    let input = [10, 20, 30, 40, 50, 60, 70, 80];
    assert_eq!(input.to_vec(), roundtrip(&input));
}

#[test]
fn test_dwt_53_odd_length() {
    let input = [10, 20, 30, 40, 50];
    assert_eq!(input.to_vec(), roundtrip(&input));
}

#[test]
fn test_dwt_53_2d_with_constant_hh() {
    let width = 8u32;
    let height = 8u32;
    let ll = vec![0i32; 16];
    let hl = vec![0i32; 16];
    let lh = vec![0i32; 16];
    let hh = vec![8190i32; 16];
    let mut output = vec![0i32; (width * height) as usize];
    Dwt53::inverse_2d(&ll, &hl, &lh, &hh, width, height, &mut output);
    let mut unique_vals: Vec<i32> = output.clone();
    unique_vals.sort_unstable();
    unique_vals.dedup();
    let is_constant = unique_vals.len() == 1;
    let min_val = *output.iter().min().unwrap();
    let max_val = *output.iter().max().unwrap();
    assert!(!is_constant, "IDWT output should not be constant when HH has data");
    let range = max_val - min_val;
    assert!(range > 1000, "IDWT should produce significant variation, got range={}", range);
}

#[test]
fn test_dwt_53_checkerboard_roundtrip() {
    let width = 8;
    let height = 8;
    let mut input = vec![0i32; width * height];
    for y in 0..height {
        for x in 0..width {
            input[y * width + x] = if (x + y) % 2 == 0 { -2048 } else { 2047 };
        }
    }
    let mut coeffs = input.clone();
    for y in 0..height {
        let row: Vec<i32> = coeffs[y * width..(y + 1) * width].to_vec();
        let l_len = width.div_ceil(2);
        let mut l = vec![0i32; l_len];
        let mut h = vec![0i32; width / 2];
        Dwt53::forward(&row, &mut l, &mut h);
        for (i, &v) in l.iter().enumerate() {
            coeffs[y * width + i] = v;
        }
        for (i, &v) in h.iter().enumerate() {
            coeffs[y * width + l_len + i] = v;
        }
    }
    for x in 0..width {
        let col: Vec<i32> = (0..height).map(|y| coeffs[y * width + x]).collect();
        let l_len = height.div_ceil(2);
        let mut l = vec![0i32; l_len];
        let mut h = vec![0i32; height / 2];
        Dwt53::forward(&col, &mut l, &mut h);
        for (i, &v) in l.iter().enumerate() {
            coeffs[i * width + x] = v;
        }
        for (i, &v) in h.iter().enumerate() {
            coeffs[(l_len + i) * width + x] = v;
        }
    }
    let ll_w = 4;
    let ll_h = 4;
    let mut ll = vec![0i32; ll_w * ll_h];
    let mut hl = vec![0i32; ll_w * ll_h];
    let mut lh = vec![0i32; ll_w * ll_h];
    let mut hh = vec![0i32; ll_w * ll_h];
    for y in 0..ll_h {
        for x in 0..ll_w {
            ll[y * ll_w + x] = coeffs[y * width + x];
            hl[y * ll_w + x] = coeffs[y * width + ll_w + x];
            lh[y * ll_w + x] = coeffs[(ll_h + y) * width + x];
            hh[y * ll_w + x] = coeffs[(ll_h + y) * width + ll_w + x];
        }
    }
    let mut reconstructed = vec![0i32; width * height];
    Dwt53::inverse_2d(&ll, &hl, &lh, &hh, width as u32, height as u32, &mut reconstructed);
    let mut max_error = 0;
    for i in 0..input.len() {
        max_error = max_error.max((input[i] - reconstructed[i]).abs());
    }
    assert_eq!(max_error, 0, "DWT should be perfectly reversible");
}

#[test]
fn forward_53_exact_coefficients() {
    // d[1] = 20 - floor((10 + 30) / 2) = 0; d[3] = 40 - floor((30 + 30) / 2) = 10 (mirrored)
    // s[0] = 10 + floor((0 + 0 + 2) / 4) = 10; s[1] = 30 + floor((0 + 10 + 2) / 4) = 33
    let input = [10, 20, 30, 40];
    let mut l = vec![0i32; 2];
    let mut h = vec![0i32; 2];
    Dwt53::forward(&input, &mut l, &mut h);
    assert_eq!(h, vec![0, 10]);
    assert_eq!(l, vec![10, 33]);
}

#[test]
fn dwt_53_single_and_empty() {
    assert_eq!(roundtrip(&[42]), vec![42]);
    assert_eq!(roundtrip(&[]), Vec::<i32>::new());
    assert_eq!(roundtrip(&[-7, 3]), vec![-7, 3]);
}

#[test]
fn dwt_53_roundtrip_signed_values() {
    let input: Vec<i32> = (0..37).map(|i| (i * 7919 % 2000) - 1000).collect();
    assert_eq!(roundtrip(&input), input);
}
