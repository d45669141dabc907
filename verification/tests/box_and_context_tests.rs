use jpegexp_rs::jpeg2000::dwt::Dwt53;
use jpegexp_rs::jpeg2000::encoder::J2kEncoder;
use jpegexp_rs::jpeg2000::jp2::Jp2Reader;
use jpegexp_rs::jpeg_stream_writer::JpegStreamWriter;
use jpegexp_rs::jpegls::regular_mode_context::RegularModeContext;
use jpegexp_rs::{FrameInfo, JpeglsError};

const SIGNATURE: [u8; 12] = [0, 0, 0, 0x0C, 0x6A, 0x50, 0x20, 0x20, 0x0D, 0x0A, 0x87, 0x0A];

#[test]
fn codestream_found_after_short_box() {
    let mut data = SIGNATURE.to_vec();
    data.extend_from_slice(&[0, 0, 0, 4]);
    data.extend_from_slice(&[0, 0, 0, 10, 0x6A, 0x70, 0x32, 0x63, 0xFF, 0x4F]);
    let mut reader = Jp2Reader::new(&data);
    assert_eq!(reader.find_codestream(), Ok(Some(&[0xFFu8, 0x4F][..])));
}

#[test]
fn codestream_found_in_plain_file() {
    let mut data = SIGNATURE.to_vec();
    data.extend_from_slice(&[0, 0, 0, 10, 0x6A, 0x70, 0x32, 0x63, 0xFF, 0x4F]);
    let mut reader = Jp2Reader::new(&data);
    assert_eq!(reader.find_codestream(), Ok(Some(&[0xFFu8, 0x4F][..])));
}

#[test]
fn icc_profile_found_after_short_box() {
    let mut data = SIGNATURE.to_vec();
    data.extend_from_slice(&[0, 0, 0, 4]);
    data.extend_from_slice(&[0, 0, 0, 13, 0x63, 0x6F, 0x6C, 0x72, 2, 0, 0, 0xAB, 0xCD]);
    let mut reader = Jp2Reader::new(&data);
    assert_eq!(reader.find_icc_profile(), Ok(Some(vec![0xAB, 0xCD])));
}

#[test]
fn short_box_is_read_with_empty_contents() {
    let data = [0u8, 0, 0, 4, 0x66, 0x72, 0x65, 0x65];
    let mut reader = Jp2Reader::new(&data);
    let b = reader.read_box().unwrap().unwrap();
    assert_eq!(b.length, 4);
    assert_eq!(b.data_range.start, 8);
    assert_eq!(b.data_range.end, 4);
}

#[test]
fn box_past_the_data_is_invalid() {
    let mut data = SIGNATURE.to_vec();
    data.extend_from_slice(&[0, 0, 0, 40, 0x6A, 0x70, 0x32, 0x63, 0xFF, 0x4F]);
    let mut reader = Jp2Reader::new(&data);
    assert_eq!(reader.find_codestream(), Err(JpeglsError::InvalidData));
}

#[test]
fn context_overflow_keeps_the_update() {
    let mut ctx = RegularModeContext::new(256);
    assert_eq!(ctx.get_error_correction(0), 0);
    assert_eq!(ctx.update_variables_and_bias(65536, 255, 64), Err(JpeglsError::InvalidData));
    assert_eq!(ctx.c(), 0);
    assert_eq!(ctx.get_error_correction(0), 1);
}

#[test]
fn single_sample_forward_copies_it() {
    let mut l = [0i32; 1];
    let mut h: [i32; 0] = [];
    Dwt53::forward(&[5], &mut l, &mut h);
    assert_eq!(l, [5]);
}

#[test]
fn remaining_slice_starts_at_position() {
    let mut buffer = [0u8; 6];
    let mut writer = JpegStreamWriter::new(&mut buffer);
    writer.write_byte(1).unwrap();
    writer.write_byte(2).unwrap();
    let rest = writer.remaining_slice();
    assert_eq!(rest.len(), 4);
    rest[0] = 9;
    assert_eq!(buffer, [1, 2, 9, 0, 0, 0]);
}

#[test]
fn signed_samples_are_marked_in_siz() {
    let pixels: Vec<u8> = (0..64u32).map(|i| (i as i32 - 32) as i8 as u8).collect();
    let frame_info = FrameInfo { width: 8, height: 8, bits_per_sample: 8, component_count: 1 };
    let mut encoded = vec![0u8; 4096];
    let mut encoder = J2kEncoder::new();
    encoder.set_signed(true);
    let n = encoder.encode(&pixels, &frame_info, &mut encoded).unwrap();
    assert!(n > 44);
    assert_eq!(&encoded[2..4], &[0xFF, 0x51]);
    assert_eq!(encoded[42], 0x87);
}

#[test]
fn short_pixels_leave_destination_untouched() {
    let pixels = vec![7u8; 10];
    let frame_info = FrameInfo { width: 8, height: 8, bits_per_sample: 8, component_count: 1 };
    let mut encoded = vec![0xAAu8; 64];
    let mut encoder = J2kEncoder::new();
    assert_eq!(encoder.encode(&pixels, &frame_info, &mut encoded), Err(JpeglsError::InvalidData));
    assert!(encoded.iter().all(|&b| b == 0xAA));
}
