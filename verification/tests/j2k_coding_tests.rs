use jpegexp_rs::jpeg2000::bit_io::{J2kBitReader, J2kBitWriter};
use jpegexp_rs::jpeg2000::decoder::J2kDecoder;
use jpegexp_rs::jpeg2000::encoder::J2kEncoder;
use jpegexp_rs::jpeg2000::packet::{CodeBlockInfo, PacketHeader, PrecinctState};
use jpegexp_rs::jpeg2000::tag_tree::TagTree;
use jpegexp_rs::jpeg_stream_reader::JpegStreamReader;
use jpegexp_rs::{FrameInfo, JpeglsError};

#[test]
fn test_tag_tree_structure() {
    let tt = TagTree::new(3, 3);
    assert_eq!(tt.nodes.len(), 14);
    let leaf0 = &tt.nodes[0];
    assert_eq!(leaf0.parent_index, Some(9));
    let leaf8 = &tt.nodes[8];
    assert_eq!(leaf8.parent_index, Some(12));
}

#[test]
fn test_tag_tree_roundtrip() {
    let mut tt_enc = TagTree::new(2, 2);
    tt_enc.set_value(0, 0, 5);
    tt_enc.set_value(1, 0, 2);
    tt_enc.set_value(0, 1, 10);
    tt_enc.set_value(1, 1, 0);
    let mut writer = J2kBitWriter::new();
    tt_enc.encode(&mut writer, 0, 0, 6);
    tt_enc.encode(&mut writer, 1, 0, 6);
    let buffer = writer.finish();
    let mut tt_dec = TagTree::new(2, 2);
    let mut buf_reader = JpegStreamReader::new(&buffer);
    let mut reader = J2kBitReader::new(&mut buf_reader);
    let res1 = tt_dec.decode(&mut reader, 0, 0, 6).unwrap();
    assert!(!res1);
    let res2 = tt_dec.decode(&mut reader, 1, 0, 6).unwrap();
    assert!(!res2);
    let mut tt_enc3 = TagTree::new(1, 1);
    tt_enc3.set_value(0, 0, 5);
    let mut writer3 = J2kBitWriter::new();
    tt_enc3.encode(&mut writer3, 0, 0, 5);
    let buf3 = writer3.finish();
    let mut tt_dec3 = TagTree::new(1, 1);
    let mut buf_reader3 = JpegStreamReader::new(&buf3);
    let mut reader3 = J2kBitReader::new(&mut buf_reader3);
    let res3 = tt_dec3.decode(&mut reader3, 0, 0, 5).unwrap();
    assert!(res3);
}

#[test]
fn tag_tree_set_value_propagates_minimum() {
    let mut tt = TagTree::new(2, 2);
    tt.set_value(0, 0, 7);
    tt.set_value(1, 1, 3);
    assert_eq!(tt.nodes[0].value, 7);
    assert_eq!(tt.nodes[3].value, 3);
    assert_eq!(tt.get_current_value(0, 0), 0);
    let root = tt.nodes.len() - 1;
    assert_eq!(tt.nodes[root].value, 3);
}

#[test]
fn bit_writer_reader_roundtrip() {
    let mut w = J2kBitWriter::new();
    w.write_bits(0b1011, 4);
    w.write_bit(1);
    w.write_bits(0x1FF, 9);
    let buf = w.finish();
    let mut src = JpegStreamReader::new(&buf);
    let mut r = J2kBitReader::new(&mut src);
    assert_eq!(r.read_bits(4).unwrap(), 0b1011);
    assert_eq!(r.read_bit().unwrap(), 1);
    assert_eq!(r.read_bits(9).unwrap(), 0x1FF);
}

#[test]
fn bit_reader_end_of_data() {
    let buf: Vec<u8> = vec![];
    let mut src = JpegStreamReader::new(&buf);
    let mut r = J2kBitReader::new(&mut src);
    assert!(r.read_bit().is_err());
}

fn block(subband_index: u8, num_passes: u8, data_len: u32, zero_bp: u8) -> CodeBlockInfo {
    CodeBlockInfo { x: 0, y: 0, subband_index, included: true, num_passes, data_len, zero_bp, numlenbits: 3 }
}

#[test]
fn test_packet_header_roundtrip_complex() {
    let mut header = PacketHeader { packet_seq_num: 0, empty: false, layer_index: 0, included_cblks: Vec::new() };
    header.included_cblks.push(block(0, 3, 15, 3));
    header.included_cblks.push(block(1, 1, 31, 0));
    header.included_cblks.push(block(2, 1, 7, 0));
    let mut writer = J2kBitWriter::new();
    let mut state_enc = PrecinctState::new(1, 1);
    let grids = vec![(1, 1); 3];
    header.write(&mut writer, &mut state_enc, &grids, 3);
    let buffer = writer.finish();
    let mut buf_reader = JpegStreamReader::new(&buffer);
    let mut reader = J2kBitReader::new(&mut buf_reader);
    let mut state_dec = PrecinctState::new(1, 1);
    let decoded = PacketHeader::read(&mut reader, &mut state_dec, 0, &grids, 3).unwrap();
    assert_eq!(decoded.included_cblks.len(), 3);
    assert_eq!(decoded.included_cblks[0].zero_bp, 3);
    assert_eq!(decoded.included_cblks[1].data_len, 31);
}

#[test]
fn empty_packet_header_is_one_zero_byte() {
    let header = PacketHeader { packet_seq_num: 0, empty: true, layer_index: 0, included_cblks: Vec::new() };
    let mut writer = J2kBitWriter::new();
    let mut state = PrecinctState::new(1, 1);
    header.write(&mut writer, &mut state, &[(1, 1)], 1);
    let buffer = writer.finish();
    assert_eq!(buffer, vec![0u8]);
    let mut src = JpegStreamReader::new(&buffer);
    let mut reader = J2kBitReader::new(&mut src);
    let mut state_dec = PrecinctState::new(1, 1);
    let decoded = PacketHeader::read(&mut reader, &mut state_dec, 0, &[(1, 1)], 1).unwrap();
    assert!(decoded.empty);
    assert!(decoded.included_cblks.is_empty());
}

fn gradient(width: usize, height: usize) -> Vec<u8> {
    let mut pixels = vec![0u8; width * height];
    for y in 0..height {
        for x in 0..width {
            pixels[y * width + x] = ((x + y) * 16).min(255) as u8;
        }
    }
    pixels
}

#[test]
fn test_encoder_creates_valid_codestream() {
    let pixels = gradient(8, 8);
    let frame_info = FrameInfo { width: 8, height: 8, bits_per_sample: 8, component_count: 1 };
    let mut encoded = vec![0u8; 4096];
    let mut encoder = J2kEncoder::new();
    encoder.set_irreversible(false);
    let result = encoder.encode(&pixels, &frame_info, &mut encoded);
    assert!(result.is_ok(), "Encoding should succeed");
    let len = result.unwrap();
    assert!(len > 0, "Should produce non-empty output");
    assert_eq!(encoded[0], 0xFF, "Should start with FF");
    assert_eq!(encoded[1], 0x4F, "Should have SOC marker");
    assert_eq!(encoded[len - 2], 0xFF, "Should end with FF");
    assert_eq!(encoded[len - 1], 0xD9, "Should have EOC marker");
}

#[test]
fn test_encoder_includes_tlm_plt() {
    let pixels = vec![0u8; 16 * 16];
    let frame_info = FrameInfo { width: 16, height: 16, bits_per_sample: 8, component_count: 1 };
    let mut encoded = vec![0u8; 8192];
    let mut encoder = J2kEncoder::new();
    encoder.set_include_tlm(true);
    encoder.set_include_plt(true);
    let result = encoder.encode(&pixels, &frame_info, &mut encoded).unwrap();
    let written = &encoded[..result];
    assert!(written.windows(2).any(|w| w == [0xFF, 0x55]), "TLM marker not found");
    assert!(written.windows(2).any(|w| w == [0xFF, 0x58]), "PLT marker not found");
}

#[test]
fn test_forward_dwt_produces_output() {
    let width = 8;
    let height = 8;
    let mut data: Vec<i32> = (0..width * height).map(|i| (i % 256) as i32).collect();
    let encoder = J2kEncoder::new();
    let result = encoder.apply_forward_dwt_2d(&mut data, width, height);
    assert!(result.is_ok());
    let coeffs = result.unwrap();
    assert_eq!(coeffs.len(), width * height);
}

#[test]
fn encoder_rejects_short_pixels() {
    let pixels = vec![0u8; 10];
    let frame_info = FrameInfo { width: 8, height: 8, bits_per_sample: 8, component_count: 1 };
    let mut encoded = vec![0u8; 4096];
    let mut encoder = J2kEncoder::new();
    assert_eq!(encoder.encode(&pixels, &frame_info, &mut encoded), Err(JpeglsError::InvalidData));
}

#[test]
fn encoder_without_markers_omits_tlm_plt() {
    let pixels = gradient(8, 8);
    let frame_info = FrameInfo { width: 8, height: 8, bits_per_sample: 8, component_count: 1 };
    let mut encoded = vec![0u8; 8192];
    let mut encoder = J2kEncoder::new();
    encoder.set_include_tlm(false);
    encoder.set_include_plt(false);
    let n = encoder.encode(&pixels, &frame_info, &mut encoded).unwrap();
    let written = &encoded[..n];
    assert!(!written.windows(2).any(|w| w == [0xFF, 0x55]));
    assert!(!written.windows(2).any(|w| w == [0xFF, 0x58]));
}

#[test]
fn encoded_codestream_decodes_header() {
    let pixels = gradient(8, 8);
    let frame_info = FrameInfo { width: 8, height: 8, bits_per_sample: 8, component_count: 1 };
    let mut encoded = vec![0u8; 8192];
    let mut encoder = J2kEncoder::new();
    encoder.set_decomposition_levels(1);
    let n = encoder.encode(&pixels, &frame_info, &mut encoded).unwrap();
    let mut reader = JpegStreamReader::new(&encoded[..n]);
    let mut decoder = J2kDecoder::new(&mut reader);
    let image = decoder.decode().unwrap();
    assert_eq!(image.width, 8);
    assert_eq!(image.height, 8);
    assert_eq!(image.component_count, 1);
    assert_eq!(image.cod.as_ref().unwrap().decomposition_levels, 1);
}

#[test]
fn ll_size_halves_per_level() {
    let encoder = J2kEncoder::new();
    assert_eq!(encoder.get_ll_size(17, 9, 2, 0), (5, 3));
    assert_eq!(encoder.get_ll_size(17, 9, 2, 1), (9, 5));
    assert_eq!(encoder.get_ll_size(17, 9, 2, 2), (17, 9));
}
