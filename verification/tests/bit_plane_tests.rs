use jpegexp_rs::jpeg2000::bit_plane_coder::BitPlaneCoder;

fn roundtrip(width: u32, height: u32, data: &[i32], orient: u8) -> Vec<i32> {
    let mut bpc = BitPlaneCoder::new(width, height, data);
    let max_bp = bpc.calculate_max_bit_plane().expect("Should have max_bp");
    let passes = bpc.encode_codeblock(max_bp, 0, orient);
    bpc.mq.flush();
    let buf = bpc.mq.get_buffer().to_vec();
    let mut dec = BitPlaneCoder::new(width, height, &[]);
    dec.decode_codeblock(&buf, max_bp, passes, orient).unwrap()
}

fn count_errors(data: &[i32], res: &[i32]) -> usize {
    let mut errors = 0;
    for (i, (&orig, &dec_val)) in data.iter().zip(res.iter()).enumerate() {
        if orig != dec_val {
            if errors < 5 {
                println!("Mismatch at [{}]: {} -> {}", i, orig, dec_val);
            }
            errors += 1;
        }
    }
    errors
}

#[test]
fn test_bpc_roundtrip() {
    let data = [0, 1, 2, 3, 4, 5, 6, 7];
    let mut bpc = BitPlaneCoder::new(8, 1, &data);
    let passes = bpc.encode_codeblock(3, 0, 0);
    bpc.mq.flush();
    let buf = bpc.mq.get_buffer().to_vec();
    let mut dec = BitPlaneCoder::new(8, 1, &[]);
    let res = dec.decode_codeblock(&buf, 3, passes, 0).unwrap();
    assert_eq!(res, [0, 1, 2, 3, 4, 5, 6, 7]);
}

#[test]
fn test_small_constant_block() {
    let data = [7, 7, 7, 7, 7, 7, 7, 7];
    let mut bpc = BitPlaneCoder::new(8, 1, &data);
    let max_bp = bpc.calculate_max_bit_plane().expect("Should have max_bp");
    println!("Encoding constant 7s with max_bp={}", max_bp);
    let passes = bpc.encode_codeblock(max_bp, 0, 0);
    bpc.mq.flush();
    let buf = bpc.mq.get_buffer().to_vec();
    println!("Encoded to {} bytes, {} passes", buf.len(), passes);
    let mut dec = BitPlaneCoder::new(8, 1, &[]);
    let res = dec.decode_codeblock(&buf, max_bp, passes, 0).unwrap();
    println!("Small constant: {:?} -> {:?}", data, res);
    assert_eq!(res, data.to_vec(), "Small constant block should roundtrip");
}

#[test]
fn test_medium_constant_block() {
    let data = vec![255i32; 64];
    let res = roundtrip(8, 8, &data, 0);
    assert_eq!(count_errors(&data, &res), 0, "Medium constant block (8x8) should roundtrip");
}

#[test]
fn test_large_16x16_constant_block() {
    let data = vec![255i32; 256];
    let res = roundtrip(16, 16, &data, 0);
    let errors = count_errors(&data, &res);
    println!("16x16 test: {} errors out of {}", errors, data.len());
    assert_eq!(errors, 0, "16x16 constant block should roundtrip");
}

#[test]
fn test_constant_block_roundtrip() {
    for &size in &[4u32, 8, 16, 32, 64] {
        let data = vec![255i32; (size * size) as usize];
        let res = roundtrip(size, size, &data, 0);
        let errors = count_errors(&data, &res);
        assert_eq!(errors, 0, "{}x{} constant block should roundtrip", size, size);
    }
}

#[test]
fn test_constant_8190_block_roundtrip() {
    let width = 32;
    let height = 32;
    let data = vec![8190i32; (width * height) as usize];
    let mut bpc = BitPlaneCoder::new(width, height, &data);
    let max_bp = bpc.calculate_max_bit_plane().expect("Should have max_bp for 8190");
    println!("max_bp for 8190: {}", max_bp);
    let passes = bpc.encode_codeblock(max_bp, 0, 3);
    bpc.mq.flush();
    let encoded = bpc.mq.get_buffer().to_vec();
    let mut bpc_dec = BitPlaneCoder::new(width, height, &[]);
    let decoded = bpc_dec.decode_codeblock(&encoded, max_bp, passes, 3).unwrap();
    let errors = count_errors(&data, &decoded);
    assert_eq!(errors, 0, "Should have perfect roundtrip for constant 8190 block");
}

#[test]
fn signed_block_roundtrip_all_orientations() {
    let data: Vec<i32> = (0..64).map(|i| if i % 3 == 0 { -(i as i32) } else { i as i32 * 7 - 100 }).collect();
    for orient in 0..4u8 {
        let res = roundtrip(8, 8, &data, orient);
        assert_eq!(res, data);
    }
}

#[test]
fn max_bit_plane_values() {
    let zero = [0i32; 4];
    assert_eq!(BitPlaneCoder::new(2, 2, &zero).calculate_max_bit_plane(), None);
    let one = [0, 1, 0, 0];
    assert_eq!(BitPlaneCoder::new(2, 2, &one).calculate_max_bit_plane(), Some(0));
    let mixed = [3, -9, 4, 0];
    assert_eq!(BitPlaneCoder::new(2, 2, &mixed).calculate_max_bit_plane(), Some(3));
}

#[test]
fn pass_count_formula() {
    let data = [5i32; 4];
    let mut bpc = BitPlaneCoder::new(2, 2, &data);
    assert_eq!(bpc.encode_codeblock(4, 1, 0), 10);
    assert_eq!(bpc.encode_codeblock(2, 2, 0), 1);
}

#[test]
fn zero_passes_decode_to_zero() {
    let mut dec = BitPlaneCoder::new(4, 4, &[]);
    let res = dec.decode_codeblock(&[0x12, 0x34], 5, 0, 0).unwrap();
    assert_eq!(res, vec![0i32; 16]);
}
