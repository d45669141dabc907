use jpegexp_rs::jpeg2000::decoder::J2kDecoder;
use jpegexp_rs::jpeg2000::encoder::J2kEncoder;
use jpegexp_rs::jpeg2000::parser::J2kParser;
use jpegexp_rs::jpeg_stream_reader::JpegStreamReader;
use jpegexp_rs::FrameInfo;

fn encode_gray(width: usize, height: usize, levels: u8) -> (Vec<u8>, Vec<u8>) {
    let mut pixels = Vec::new();
    for y in 0..height {
        for x in 0..width {
            pixels.push(((x * 37 + y * 11) % 256) as u8);
        }
    }
    let fi = FrameInfo { width: width as u32, height: height as u32, bits_per_sample: 8, component_count: 1 };
    let mut encoder = J2kEncoder::new();
    encoder.set_decomposition_levels(levels);
    let mut out = vec![0u8; 4096 + width * height * 4];
    let n = encoder.encode(&pixels, &fi, &mut out).unwrap();
    out.truncate(n);
    (pixels, out)
}

fn cod_levels(codestream: &[u8]) -> u8 {
    let at = codestream.windows(2).position(|w| w == [0xFF, 0x52]).unwrap();
    codestream[at + 9]
}

fn decode_pixels(codestream: &[u8]) -> Vec<u8> {
    let mut reader = JpegStreamReader::new(codestream);
    let mut decoder = J2kDecoder::new(&mut reader);
    let image = decoder.decode().unwrap();
    image.reconstruct_pixels().unwrap()
}

#[test]
fn odd_sized_image_signals_the_levels_it_transforms() {
    let (pixels, cs) = encode_gray(3, 3, 5);
    assert_eq!(cod_levels(&cs), 1);
    assert_eq!(decode_pixels(&cs), pixels);
}

#[test]
fn levels_above_five_are_clamped_and_round_trip() {
    let (pixels, cs) = encode_gray(64, 64, 7);
    assert_eq!(cod_levels(&cs), 5);
    assert_eq!(decode_pixels(&cs), pixels);
}

#[test]
fn levels_clamped_by_the_smaller_side() {
    let (pixels, cs) = encode_gray(40, 5, 5);
    assert_eq!(cod_levels(&cs), 2);
    assert_eq!(decode_pixels(&cs), pixels);
}

#[test]
fn encoder_settings_unchanged_by_encode() {
    let mut encoder = J2kEncoder::new();
    encoder.set_decomposition_levels(7);
    let fi = FrameInfo { width: 4, height: 4, bits_per_sample: 8, component_count: 1 };
    let mut out = vec![0u8; 4096];
    encoder.encode(&[7u8; 16], &fi, &mut out).unwrap();
    assert_eq!(encoder.decomposition_levels, 7);
}

#[test]
fn tile_part_header_reads_to_sod() {
    // Lsot, Isot = 3, Psot = 0x20, TPsot, TNsot, then a skipped COM segment and SOD.
    let data = vec![
        0x00, 0x0A, 0x00, 0x03, 0x00, 0x00, 0x00, 0x20, 0x00, 0x01, 0xFF, 0x64, 0x00, 0x04, 0xAA, 0xBB, 0xFF, 0x93, 0x12,
    ];
    let mut reader = JpegStreamReader::new(&data);
    let mut parser = J2kParser::new(&mut reader);
    assert_eq!(parser.parse_tile_part_header(), Ok((0x20, 3)));
    assert_eq!(parser.reader.position(), 18);
}

#[test]
fn tile_part_header_without_sod_fails() {
    let data = vec![0x00, 0x0A, 0x00, 0x00, 0x00, 0x00, 0x00, 0x00, 0x00, 0x01, 0xFF, 0x64, 0x00, 0x04, 0xAA, 0xBB];
    let mut reader = JpegStreamReader::new(&data);
    let mut parser = J2kParser::new(&mut reader);
    assert!(parser.parse_tile_part_header().is_err());
}

#[test]
fn main_header_stops_after_sot() {
    let (_, cs) = encode_gray(8, 8, 1);
    let sot = cs.windows(2).position(|w| w == [0xFF, 0x90]).unwrap();
    let mut reader = JpegStreamReader::new(&cs);
    let mut parser = J2kParser::new(&mut reader);
    assert!(parser.parse_main_header().is_ok());
    assert_eq!(parser.reader.position(), sot + 2);
}

#[test]
fn codestream_without_eoc_fails_to_parse() {
    let (_, cs) = encode_gray(8, 8, 1);
    let sot = cs.windows(2).position(|w| w == [0xFF, 0x90]).unwrap();
    let mut stream = cs[..sot].to_vec();
    stream.extend_from_slice(&[0xFF, 0x90, 0x00, 0x0A, 0x00, 0x00, 0x00, 0x00, 0x00, 0x14, 0x00, 0x01]);
    stream.extend_from_slice(&[0xFF, 0x93, 0x11, 0x22, 0x33]);
    let mut reader = JpegStreamReader::new(&stream);
    let mut parser = J2kParser::new(&mut reader);
    assert!(parser.parse_codestream().is_err());
    stream.extend_from_slice(&[0xFF, 0xD9]);
    let mut reader = JpegStreamReader::new(&stream);
    let mut parser = J2kParser::new(&mut reader);
    assert!(parser.parse_codestream().is_ok());
}

#[test]
fn plain_jpegls_header_gives_the_frame() {
    let data = vec![
        0xFF, 0xD8, // SOI
        0xFF, 0xF7, 0x00, 0x0B, 0x08, 0x00, 0x10, 0x00, 0x20, 0x01, 0x01, 0x11, 0x00, // SOF55: 32 x 16, 8 bits
        0xFF, 0xDD, 0x00, 0x04, 0x00, 0x05, // DRI
        0xFF, 0xDA, 0x00, 0x08, // SOS
    ];
    let mut reader = JpegStreamReader::new(&data);
    let mut spiff = None;
    assert_eq!(reader.read_header(&mut spiff), Ok(()));
    assert_eq!(reader.position(), 21);
    let fi = reader.frame_info();
    assert_eq!((fi.width, fi.height, fi.bits_per_sample, fi.component_count), (32, 16, 8, 1));
}

#[test]
fn gradients_round_trip_at_every_level() {
    let mut failures = Vec::new();
    for &(w, h, top) in &[(4usize, 4usize, 5u8), (8, 8, 5), (16, 16, 5), (32, 17, 5), (16, 5, 5), (40, 5, 5), (12, 12, 5), (5, 40, 5), (33, 17, 5), (7, 7, 5), (9, 9, 5), (10, 10, 5), (1, 9, 5), (9, 1, 5)] {
        for lv in 0..=top {
            let (pixels, cs) = encode_gray(w, h, lv);
            let got = decode_pixels(&cs);
            let bad = got.iter().zip(pixels.iter()).filter(|(a, b)| a != b).count();
            if bad != 0 || got.len() != pixels.len() {
                failures.push(format!("{}x{} L{}: {} differ", w, h, lv, bad));
            }
        }
    }
    assert!(failures.is_empty(), "{}", failures.join("; "));
}

#[test]
fn rgb_and_deep_images_round_trip() {
    let (w, h) = (13usize, 11usize);
    let mut rgb = Vec::new();
    for y in 0..h {
        for x in 0..w {
            rgb.push(((x * 29 + y * 7) % 256) as u8);
            rgb.push(((x * 3 + y * 41) % 256) as u8);
            rgb.push(((x * y * 5 + 17) % 256) as u8);
        }
    }
    let fi = FrameInfo { width: w as u32, height: h as u32, bits_per_sample: 8, component_count: 3 };
    let mut out = vec![0u8; 65536];
    let n = J2kEncoder::new().encode(&rgb, &fi, &mut out).unwrap();
    assert_eq!(decode_pixels(&out[..n]), rgb);

    let mut deep = Vec::new();
    for y in 0..h {
        for x in 0..w {
            let v = ((x * 311 + y * 97) % 4096) as u16;
            deep.extend_from_slice(&v.to_le_bytes());
        }
    }
    let fi = FrameInfo { width: w as u32, height: h as u32, bits_per_sample: 12, component_count: 1 };
    let mut out = vec![0u8; 65536];
    let n = J2kEncoder::new().encode(&deep, &fi, &mut out).unwrap();
    let got = decode_pixels(&out[..n]);
    assert_eq!(got.len(), deep.len());
    assert_eq!(got, deep);
}
