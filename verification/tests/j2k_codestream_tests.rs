use jpegexp_rs::jpeg2000::decoder::J2kDecoder;
use jpegexp_rs::jpeg2000::image::{
    J2kCod, J2kCodeBlock, J2kComponentInfo, J2kImage, J2kQcd, J2kResolution, J2kSubband, J2kTile, J2kTileComponent,
    SubbandOrientation,
};
use jpegexp_rs::jpeg2000::parser::J2kParser;
use jpegexp_rs::jpeg2000::writer::J2kWriter;
use jpegexp_rs::jpeg_stream_reader::JpegStreamReader;
use jpegexp_rs::JpeglsError;

fn siz_256() -> Vec<u8> {
    vec![
        0xFF, 0x51, 0x00, 0x29, 0x00, 0x00, // SIZ, length, caps
        0x00, 0x00, 0x01, 0x00, 0x00, 0x00, 0x01, 0x00, // 256 x 256
        0x00, 0x00, 0x00, 0x00, 0x00, 0x00, 0x00, 0x00, // origin
        0x00, 0x00, 0x01, 0x00, 0x00, 0x00, 0x01, 0x00, // tile 256 x 256
        0x00, 0x00, 0x00, 0x00, 0x00, 0x00, 0x00, 0x00, // tile origin
        0x00, 0x01, 0x07, 0x01, 0x01, // 1 component, depth 8
    ]
}

#[test]
fn smoke_test() {
    let _reader = JpegStreamReader::new(&[]);
    let _decoder = J2kDecoder::new(&mut JpegStreamReader::new(&[]));
}

#[test]
fn test_parse_siz() {
    let mut data = vec![0xFF, 0x4F];
    data.extend(siz_256());
    data.extend([0xFF, 0x90, 0x00, 0x0A, 0x00, 0x00, 0x00, 0x00, 0x00, 0x00]);
    let mut reader = JpegStreamReader::new(&data);
    let mut parser = J2kParser::new(&mut reader);
    parser.parse_main_header().unwrap();
    assert_eq!(parser.image.width, 256);
    assert_eq!(parser.image.height, 256);
    assert_eq!(parser.image.component_count, 1);
}

#[test]
fn test_parse_codestream() {
    let mut data = vec![0xFF, 0x4F];
    data.extend(siz_256());
    data.extend([
        0xFF, 0x90, 0x00, 0x0A, 0x00, 0x00, 0x00, 0x00, 0x00, 0x14, 0x00, 0x01, // SOT
        0xFF, 0x93, 0xAA, 0xBB, 0xCC, 0xDD, 0xEE, 0xFF, 0x00, 0x11, // SOD + data
        0xFF, 0xD9,
    ]);
    let mut reader = JpegStreamReader::new(&data);
    let mut parser = J2kParser::new(&mut reader);
    let res = parser.parse_codestream();
    assert!(res.is_ok(), "Codestream parsing failed: {:?}", res.err());
}

#[test]
fn test_parse_cod_qcd() {
    let mut data = vec![0xFF, 0x4F];
    data.extend(siz_256());
    data.extend([
        0xFF, 0x52, 0x00, 0x0C, 0x00, 0x02, 0x00, 0x01, 0x00, 0x03, 0x04, 0x05, 0x00, 0x00, // COD
        0xFF, 0x5C, 0x00, 0x04, 0x06, 0x10, // QCD
        0xFF, 0x90, 0x00, 0x0A, 0x00, 0x00, 0x00, 0x00, 0x00, 0x00, // SOT
    ]);
    let mut reader = JpegStreamReader::new(&data);
    let mut parser = J2kParser::new(&mut reader);
    parser.parse_main_header().unwrap();
    let cod = parser.image.cod.as_ref().expect("COD should be parsed");
    assert_eq!(cod.coding_style, 0x00);
    assert_eq!(cod.progression_order, 0x02);
    assert_eq!(cod.number_of_layers, 1);
    let qcd = parser.image.qcd.as_ref().expect("QCD should be parsed");
    assert_eq!(qcd.quant_style, 0x06);
    assert_eq!(qcd.step_sizes, vec![0x1000]);
}

#[test]
fn parse_main_header_without_soc_fails() {
    let mut data = siz_256();
    data.extend([0xFF, 0xD9]);
    let mut reader = JpegStreamReader::new(&data);
    let mut parser = J2kParser::new(&mut reader);
    assert!(parser.parse_main_header().is_err());
}

#[test]
fn test_subsampling_resolution_calculation() {
    let mut image = J2kImage::default();
    image.width = 512;
    image.height = 512;
    image.x_origin = 0;
    image.y_origin = 0;
    image.tile_width = 512;
    image.tile_height = 512;
    image.tile_x_origin = 0;
    image.tile_y_origin = 0;
    image.component_count = 2;
    image.components.push(J2kComponentInfo { depth: 8, is_signed: false, dx: 1, dy: 1 });
    image.components.push(J2kComponentInfo { depth: 8, is_signed: false, dx: 2, dy: 2 });
    image.tiles.resize_with(1, Default::default);
    image.tiles[0].index = 0;
    image.cod = Some(J2kCod {
        coding_style: 0,
        progression_order: 0,
        number_of_layers: 1,
        mct: 0,
        decomposition_levels: 1,
        codeblock_width_exp: 4,
        codeblock_height_exp: 4,
        transformation: 0,
        code_block_style: 0,
        precinct_sizes: vec![],
    });
    let data = vec![0; 100];
    let mut reader = JpegStreamReader::new(&data);
    let mut parser = J2kParser::new(&mut reader);
    parser.image = Box::new(image);
    let mut tile_states = Vec::new();
    let _ = J2kDecoder::decode_tile_data(&mut parser, 0, 0, false, &mut tile_states);
    let tile = &parser.image.tiles[0];
    assert_eq!(tile.components.len(), 2);
    let comp0 = &tile.components[0];
    assert_eq!(comp0.resolutions.len(), 2);
    assert_eq!(comp0.resolutions[0].width, 256, "Comp 0 Res 0 width mismatch");
    assert_eq!(comp0.resolutions[0].height, 256, "Comp 0 Res 0 height mismatch");
    assert_eq!(comp0.resolutions[1].width, 512, "Comp 0 Res 1 width mismatch");
    assert_eq!(comp0.resolutions[1].height, 512, "Comp 0 Res 1 height mismatch");
    let comp1 = &tile.components[1];
    assert_eq!(comp1.resolutions.len(), 2);
    assert_eq!(comp1.resolutions[0].width, 128, "Comp 1 Res 0 width mismatch");
    assert_eq!(comp1.resolutions[0].height, 128, "Comp 1 Res 0 height mismatch");
    assert_eq!(comp1.resolutions[1].width, 256, "Comp 1 Res 1 width mismatch");
    assert_eq!(comp1.resolutions[1].height, 256, "Comp 1 Res 1 height mismatch");
}

#[test]
fn test_decoder_htj2k_integration_final() {
    let mut data = vec![0xFF, 0x4F, 0xFF, 0x50, 0x00, 0x06, 0x00, 0x00, 0x40, 0x00];
    data.extend(siz_256());
    data.extend([
        0xFF, 0x52, 0x00, 0x0C, 0x00, 0x00, 0x00, 0x01, 0x00, 0x01, 0x04, 0x04, 0x00, 0x00, // COD
        0xFF, 0x5C, 0x00, 0x05, 0x00, 0x00, 0x10, // QCD
        0xFF, 0x90, 0x00, 0x0A, 0x00, 0x00, 0x00, 0x00, 0x00, 0x14, 0x00, 0x01, // SOT
        0xFF, 0x93, 0x00, 0x00, 0x00, 0x00, 0x00, 0x00, 0x00, 0x00, // SOD + data
        0xFF, 0xD9,
    ]);
    let mut reader = JpegStreamReader::new(&data);
    let mut decoder = J2kDecoder::new(&mut reader);
    let res = decoder.decode();
    if let Err(e) = &res {
        panic!("Decode failed: {:?}", e);
    }
    let image = res.unwrap();
    assert!(image.cap.is_some(), "CAP marker not present in parsed image");
    let cap = image.cap.as_ref().unwrap();
    assert_eq!(cap.pcap & (1 << 14), 1 << 14, "HTJ2K bit (14) not set in PCAP: {:08X}", cap.pcap);
}

#[test]
fn decoder_rejects_garbage() {
    let data = vec![0x12, 0x34, 0x56];
    let mut reader = JpegStreamReader::new(&data);
    let mut decoder = J2kDecoder::new(&mut reader);
    assert!(matches!(decoder.decode(), Err(JpeglsError::InvalidData)));
}

#[test]
fn test_write_header_sequence() {
    let mut buffer = vec![0u8; 1024];
    let mut j2k_writer = J2kWriter::new(&mut buffer);
    j2k_writer.write_soc().unwrap();
    j2k_writer.write_siz(512, 512, 128, 128, 3, 8, false, 1, 1).unwrap();
    let cod = J2kCod { coding_style: 0, progression_order: 0, number_of_layers: 1, ..Default::default() };
    j2k_writer.write_cod(&cod).unwrap();
    let qcd = J2kQcd { quant_style: 0, step_sizes: vec![12345] };
    j2k_writer.write_qcd(&qcd).unwrap();
    j2k_writer.write_sot(0, 0, 0, 1).unwrap();
    j2k_writer.write_sod().unwrap();
    j2k_writer.write_bytes(&[0x11, 0x22]).unwrap();
    j2k_writer.write_eoc().unwrap();
    let len = j2k_writer.len();
    let written = &buffer[..len];
    assert_eq!(written[0], 0xFF);
    assert_eq!(written[1], 0x4F);
    assert_eq!(written[2], 0xFF);
    assert_eq!(written[3], 0x51);
    assert!(written.windows(2).any(|w| w == [0xFF, 0x90]));
    assert!(written.windows(2).any(|w| w == [0xFF, 0x93]));
    assert!(written.windows(2).any(|w| w == [0xFF, 0xD9]));
}

#[test]
fn writer_reports_full_buffer() {
    let mut buffer = vec![0u8; 3];
    let mut w = J2kWriter::new(&mut buffer);
    w.write_soc().unwrap();
    assert!(w.write_eoc().is_err());
    assert_eq!(w.len(), 3);
}

#[test]
fn written_header_parses_back() {
    let mut buffer = vec![0u8; 256];
    let len = {
        let mut w = J2kWriter::new(&mut buffer);
        w.write_soc().unwrap();
        w.write_siz(100, 60, 100, 60, 1, 12, true, 1, 1).unwrap();
        let cod = J2kCod {
            progression_order: 1,
            number_of_layers: 3,
            decomposition_levels: 2,
            codeblock_width_exp: 4,
            codeblock_height_exp: 3,
            transformation: 1,
            ..Default::default()
        };
        w.write_cod(&cod).unwrap();
        w.write_qcd(&J2kQcd { quant_style: 0, step_sizes: vec![0x40, 0x48] }).unwrap();
        w.write_sot(0, 0, 0, 1).unwrap();
        w.len()
    };
    let mut reader = JpegStreamReader::new(&buffer[..len]);
    let mut parser = J2kParser::new(&mut reader);
    parser.parse_main_header().unwrap();
    assert_eq!(parser.image.width, 100);
    assert_eq!(parser.image.height, 60);
    assert_eq!(parser.image.components[0].depth, 12);
    assert!(parser.image.components[0].is_signed);
    let cod = parser.image.cod.as_ref().unwrap();
    assert_eq!(cod.number_of_layers, 3);
    assert_eq!(cod.decomposition_levels, 2);
    assert_eq!(cod.codeblock_height_exp, 3);
}

fn one_block_image(coefficients: Vec<i32>, transformation: u8) -> J2kImage {
    let mut image = J2kImage::default();
    image.width = 2;
    image.height = 2;
    image.component_count = 1;
    image.components.push(J2kComponentInfo { depth: 8, is_signed: false, dx: 1, dy: 1 });
    image.cod = Some(J2kCod { codeblock_width_exp: 4, codeblock_height_exp: 4, transformation, ..Default::default() });
    let block = J2kCodeBlock { x: 0, y: 0, width: 2, height: 2, coefficients, ..Default::default() };
    let subband = J2kSubband { orientation: SubbandOrientation::LL, width: 2, height: 2, codeblocks: vec![block] };
    let resolution = J2kResolution { level: 0, width: 2, height: 2, subbands: vec![subband] };
    let component = J2kTileComponent { component_index: 0, resolutions: vec![resolution] };
    image.tiles.push(J2kTile { index: 0, components: vec![component] });
    image
}

#[test]
fn reconstruct_single_level_shifts_and_clamps() {
    let image = one_block_image(vec![0, 10, -128, 200], 1);
    assert_eq!(image.reconstruct_pixels(), Ok(vec![128, 138, 0, 255]));
}

#[test]
fn reconstruct_reports_missing_parts() {
    let image = J2kImage::default();
    assert_eq!(image.reconstruct_pixels(), Err("No tiles".to_string()));
    let mut image = one_block_image(vec![0; 4], 1);
    image.cod = None;
    assert_eq!(image.reconstruct_pixels(), Err("No COD".to_string()));
    let image = one_block_image(vec![0; 4], 0);
    assert!(image.reconstruct_pixels().is_err());
}

#[test]
fn test_jpeg2000_mae_measurement() {
    let width = 8usize;
    let height = 8usize;
    let components = 3usize;
    let mut original_pixels = Vec::with_capacity(width * height * components);
    for _y in 0..height {
        for _x in 0..width {
            for c in 0..components {
                let val = match c {
                    0 => 10u8,
                    1 => 20u8,
                    2 => 30u8,
                    _ => 0,
                };
                original_pixels.push(val);
            }
        }
    }
    let frame_info = jpegexp_rs::FrameInfo {
        width: width as u32,
        height: height as u32,
        bits_per_sample: 8,
        component_count: components as i32,
    };
    let mut encoded = vec![0u8; original_pixels.len() * 2];
    let mut encoder = jpegexp_rs::jpeg2000::encoder::J2kEncoder::new();
    encoder.set_irreversible(false);
    let encoded_len = encoder.encode(&original_pixels, &frame_info, &mut encoded).unwrap();
    encoded.truncate(encoded_len);
    let mut reader = JpegStreamReader::new(&encoded);
    let mut decoder = J2kDecoder::new(&mut reader);
    let decoded_image = decoder.decode().unwrap_or_else(|e| panic!("Decode failed: {:?}", e));
    let reconstructed =
        decoded_image.reconstruct_pixels().unwrap_or_else(|e| panic!("Reconstruction failed: {:?}", e));
    let mut total_diff = 0u64;
    let mut max_diff = 0u32;
    let mut pixel_count = 0;
    for (orig, &recon) in original_pixels.iter().zip(reconstructed.iter()) {
        let diff = (*orig as i32 - recon as i32).unsigned_abs();
        total_diff += diff as u64;
        max_diff = max_diff.max(diff);
        pixel_count += 1;
    }
    let mae = total_diff as f64 / pixel_count as f64;
    let compression_ratio = original_pixels.len() as f64 / encoded_len as f64;
    println!("JPEG2000 MAE: {}", mae);
    println!("Max pixel difference: {}", max_diff);
    println!("Compression ratio: {}", compression_ratio);
    assert!(compression_ratio > 0.5, "Should achieve reasonable compression: {}", compression_ratio);
    assert!(reconstructed.len() == original_pixels.len(), "Output size should match input");
}
