use jpegexp_rs::jpeg2000::ht_block_coder::encoder::{MagSgnEncoder, MelEncoder, VlcEncoder};
use jpegexp_rs::jpeg2000::ht_block_coder::mag_sgn::MagSgnDecoder;
use jpegexp_rs::jpeg2000::ht_block_coder::mel::MelDecoder;
use jpegexp_rs::jpeg2000::ht_block_coder::vlc::{decode_uvlc, encode_uvlc};

#[test]
fn test_mel_decoder_basic() {
    let data = vec![0xFF, 0xFF, 0x0F];
    let mut mel = MelDecoder::new(&data, 4);
    let _run = mel.get_run();
    assert!(true);
}

#[test]
fn mel_decoder_first_runs() {
    // All ones: each symbol is a full run in state 0..2 (E = 0), coded as 0.
    let data = vec![0xFF, 0x7F, 0x7F, 0x7F, 0x7F];
    let mut mel = MelDecoder::new(&data, 4);
    assert_eq!(mel.get_run(), 0);
    assert_eq!(mel.get_run(), 0);
    assert_eq!(mel.get_run(), 0);
}

#[test]
fn mel_decoder_peek_and_advance() {
    let data = vec![0b1010_0000, 0x00, 0x00, 0x00, 0x00, 0x00];
    let mut mel = MelDecoder::new(&data, 4);
    assert_eq!(mel.peek_bits(3), 0b101);
    mel.advance(1);
    assert_eq!(mel.peek_bits(2), 0b01);
}

#[test]
fn uvlc_values() {
    let cw = encode_uvlc(2, 1, 0);
    assert_eq!(cw.bits, 5);
    assert_eq!(cw.value, 0b10100);
    assert_eq!(decode_uvlc(cw.value as u16, 0), (2, 1, 5));
    let cw = encode_uvlc(0, 40, 0);
    assert_eq!(cw.bits, 33);
    assert_eq!(cw.value, 1);
}

#[test]
fn uvlc_roundtrip_small() {
    for a in 0u8..8 {
        for b in 0u8..(14 - a) {
            let cw = encode_uvlc(a, b, 0);
            assert_eq!(decode_uvlc(cw.value as u16, 0), (a, b, a + b + 2));
        }
    }
}

#[test]
fn magsgn_write_read_roundtrip() {
    let mut enc = MagSgnEncoder::new();
    enc.write_bits(0xFF, 8);
    enc.write_bits(0b1011001, 7);
    enc.write_bit(1);
    enc.flush();
    let bytes = enc.get_buffer().to_vec();
    assert_eq!(bytes[0], 0xFF);
    let mut dec = MagSgnDecoder::new(&bytes);
    assert_eq!(dec.read_bits(8), Some(0xFF));
    assert_eq!(dec.read_bits(7), Some(0b1011001));
    assert_eq!(dec.read_bit(), Some(1));
}

#[test]
fn magsgn_reader_end_of_data() {
    let bytes: Vec<u8> = vec![];
    let mut dec = MagSgnDecoder::new(&bytes);
    assert_eq!(dec.read_bit(), None);
}

#[test]
fn mel_encoder_runs() {
    let mut mel = MelEncoder::new();
    // State 0: E = 0, so each insignificant quad completes a run (bit 1).
    mel.encode(false);
    mel.encode(false);
    mel.encode(false);
    // State 3: E = 1; a significant quad writes 0 and one bit of the run (0).
    mel.encode(true);
    mel.flush();
    assert_eq!(mel.get_buffer().to_vec(), vec![0b1110_0000]);
}

#[test]
fn vlc_encoder_packs_lsb_first() {
    let mut vlc = VlcEncoder::new();
    vlc.write_bits(0b101, 3);
    assert!(vlc.get_buffer().is_empty());
    vlc.write_bits(0, 1);
    assert_eq!(vlc.get_buffer().to_vec(), vec![0x5F]);
}
