use jpegexp_rs::jpeg_marker_code::JpegMarkerCode;
use jpegexp_rs::jpeg_stream_reader::JpegStreamReader;
use jpegexp_rs::jpeg_stream_writer::JpegStreamWriter;
use jpegexp_rs::jpegls::{InterleaveMode, JpeglsDecoder, JpeglsEncoder};
use jpegexp_rs::{FrameInfo, JpeglsError};

fn encode(frame: FrameInfo, near: i32, mode: InterleaveMode, source: &[u8]) -> Vec<u8> {
    let mut out = vec![0u8; 4096 + source.len() * 4];
    let n = {
        let mut enc = JpeglsEncoder::new(&mut out);
        enc.set_frame_info(frame).unwrap();
        enc.set_near_lossless(near).unwrap();
        enc.set_interleave_mode(mode).unwrap();
        enc.encode(source).unwrap()
    };
    out.truncate(n);
    out
}

/// Decodes the whole image.
fn decode_all(encoded: &[u8], size: usize) -> (FrameInfo, Vec<u8>) {
    let mut dec = JpeglsDecoder::new(encoded);
    dec.read_header().unwrap();
    let frame = dec.frame_info();
    let mut out = vec![0u8; size];
    dec.decode(&mut out).unwrap();
    (frame, out)
}

#[test]
fn single_line_roundtrip_through_decoder() {
    let frame = FrameInfo { width: 6, height: 1, bits_per_sample: 8, component_count: 1 };
    let pixels = vec![0u8, 10, 200, 201, 199, 5];
    let encoded = encode(frame, 0, InterleaveMode::NotInterleaved, &pixels);
    assert_eq!(&encoded[0..2], &[0xFF, 0xD8]);
    assert_eq!(&encoded[encoded.len() - 2..], &[0xFF, 0xD9]);
    let mut dec = JpeglsDecoder::new(&encoded);
    dec.read_header().unwrap();
    assert_eq!(dec.frame_info(), frame);
    assert_eq!(dec.read_spiff_header(), Ok(false));
    let mut out = vec![0u8; 6];
    dec.decode(&mut out).unwrap();
    assert_eq!(out, pixels);
}

#[test]
fn lossless_gray_roundtrip() {
    let (w, h) = (13usize, 9usize);
    let pixels: Vec<u8> = (0..w * h).map(|i| ((i * 37) % 251) as u8).collect();
    let frame = FrameInfo { width: w as u32, height: h as u32, bits_per_sample: 8, component_count: 1 };
    let encoded = encode(frame, 0, InterleaveMode::NotInterleaved, &pixels);
    let (read_frame, out) = decode_all(&encoded, w * h);
    assert_eq!(read_frame, frame);
    assert_eq!(out, pixels);
}

#[test]
fn lossless_flat_image_roundtrip() {
    let (w, h) = (16usize, 16usize);
    let pixels = vec![77u8; w * h];
    let frame = FrameInfo { width: w as u32, height: h as u32, bits_per_sample: 8, component_count: 1 };
    let encoded = encode(frame, 0, InterleaveMode::NotInterleaved, &pixels);
    assert!(encoded.len() < pixels.len());
    let (_, out) = decode_all(&encoded, w * h);
    assert_eq!(out, pixels);
}

#[test]
fn near_lossless_encoding_frames_the_scan() {
    let (w, h) = (11usize, 6usize);
    let pixels: Vec<u8> = (0..w * h).map(|i| ((i * 91) % 256) as u8).collect();
    let frame = FrameInfo { width: w as u32, height: h as u32, bits_per_sample: 8, component_count: 1 };
    let encoded = encode(frame, 2, InterleaveMode::NotInterleaved, &pixels);
    assert_eq!(&encoded[0..2], &[0xFF, 0xD8]);
    assert_eq!(&encoded[encoded.len() - 2..], &[0xFF, 0xD9]);
    let mut dec = JpeglsDecoder::new(&encoded);
    dec.read_header().unwrap();
    assert_eq!(dec.frame_info(), frame);
}

#[test]
fn sixteen_bit_roundtrip() {
    let (w, h) = (5usize, 4usize);
    let samples: Vec<u16> = (0..w * h).map(|i| ((i * 13397) % 65536) as u16).collect();
    let mut bytes = Vec::new();
    for s in &samples {
        bytes.extend_from_slice(&s.to_le_bytes());
    }
    let frame = FrameInfo { width: w as u32, height: h as u32, bits_per_sample: 16, component_count: 1 };
    let encoded = encode(frame, 0, InterleaveMode::NotInterleaved, &bytes);
    let (_, out) = decode_all(&encoded, w * h * 2);
    assert_eq!(out, bytes);
}

#[test]
fn encode_without_frame_fails() {
    let mut out = vec![0u8; 64];
    let mut enc = JpeglsEncoder::new(&mut out);
    assert_eq!(enc.encode(&[1, 2, 3]), Err(JpeglsError::InvalidParameterComponentCount));
}

#[test]
fn encode_with_too_few_samples_fails() {
    let mut out = vec![0u8; 256];
    let mut enc = JpeglsEncoder::new(&mut out);
    enc.set_frame_info(FrameInfo { width: 4, height: 4, bits_per_sample: 8, component_count: 1 }).unwrap();
    assert_eq!(enc.encode(&[1, 2, 3]), Err(JpeglsError::InvalidData));
}

#[test]
fn encode_into_tiny_destination_fails() {
    let mut out = vec![0u8; 8];
    let mut enc = JpeglsEncoder::new(&mut out);
    enc.set_frame_info(FrameInfo { width: 2, height: 2, bits_per_sample: 8, component_count: 1 }).unwrap();
    assert!(enc.encode(&[1, 2, 3, 4]).is_err());
}

#[test]
fn decoder_rejects_missing_soi() {
    let data = [0x00u8, 0x11, 0x22];
    let mut dec = JpeglsDecoder::new(&data);
    assert!(dec.read_header().is_err());
}

#[test]
fn marker_code_values_roundtrip() {
    for v in 0u8..=255 {
        if let Ok(m) = JpegMarkerCode::try_from(v) {
            assert_eq!(m.code(), v);
        }
    }
    assert_eq!(JpegMarkerCode::try_from(0xD8u8), Ok(JpegMarkerCode::StartOfImage));
    assert!(JpegMarkerCode::try_from(0x00u8).is_err());
}

#[test]
fn interleave_mode_values() {
    assert_eq!(InterleaveMode::try_from(0u8), Ok(InterleaveMode::NotInterleaved));
    assert_eq!(InterleaveMode::try_from(2u8), Ok(InterleaveMode::Sample));
    assert!(InterleaveMode::try_from(3u8).is_err());
    assert_eq!(InterleaveMode::Line.value(), 1);
}

#[test]
fn stream_writer_reader_big_endian() {
    let mut buf = vec![0u8; 16];
    let n = {
        let mut w = JpegStreamWriter::new(&mut buf);
        w.write_marker(JpegMarkerCode::StartOfImage).unwrap();
        w.write_u16(0x1234).unwrap();
        w.write_u32(0xDEADBEEF).unwrap();
        w.write_byte(7).unwrap();
        w.len()
    };
    assert_eq!(n, 9);
    assert_eq!(&buf[..9], &[0xFF, 0xD8, 0x12, 0x34, 0xDE, 0xAD, 0xBE, 0xEF, 7]);
    let mut r = JpegStreamReader::new(&buf[..9]);
    assert_eq!(r.read_marker(), Ok(JpegMarkerCode::StartOfImage));
    assert_eq!(r.read_u16(), Ok(0x1234));
    assert_eq!(r.read_u32(), Ok(0xDEADBEEF));
    assert_eq!(r.read_u8(), Ok(7));
    assert!(r.read_u8().is_err());
}

#[test]
fn stream_writer_full_buffer() {
    let mut buf = vec![0u8; 1];
    let mut w = JpegStreamWriter::new(&mut buf);
    assert!(w.write_u16(0x0102).is_err());
    assert_eq!(w.len(), 1);
    assert_eq!(buf[0], 0x01);
}
