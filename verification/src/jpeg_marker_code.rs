use crate::error::JpeglsError;
use vstd::prelude::*;

verus! {

/// Marker codes (the byte after `0xFF`) of JPEG, JPEG-LS and JPEG 2000 codestreams.
#[derive(Debug, Clone, Copy, PartialEq, Eq, Structural)]
pub enum JpegMarkerCode {
    /// SOI: Marks the start of an image.
    StartOfImage,
    /// EOI (also EOC in JPEG 2000): Marks the end of an image.
    EndOfImage,
    /// SOS: Marks the start of scan.
    StartOfScan,
    /// DNL: Defines the number of lines in a scan.
    DefineNumberOfLines,
    /// DRI: Defines the restart interval used in succeeding scans.
    DefineRestartInterval,
    /// DQT: Defines quantization tables (JPEG 1).
    DefineQuantizationTable,
    /// DHT: Defines Huffman tables (JPEG 1).
    DefineHuffmanTable,
    /// SOF0: Marks the start of a baseline DCT frame (JPEG 1).
    StartOfFrameBaseline,
    /// APP0: Application data 0.
    ApplicationData0,
    /// APP1: Application data 1.
    ApplicationData1,
    /// APP2: Application data 2.
    ApplicationData2,
    /// APP3: Application data 3.
    ApplicationData3,
    /// APP4: Application data 4.
    ApplicationData4,
    /// APP5: Application data 5.
    ApplicationData5,
    /// APP6: Application data 6.
    ApplicationData6,
    /// APP7: Application data 7.
    ApplicationData7,
    /// APP8: Application data 8.
    ApplicationData8,
    /// APP9: Application data 9.
    ApplicationData9,
    /// APP10: Application data 10.
    ApplicationData10,
    /// APP11: Application data 11.
    ApplicationData11,
    /// APP12: Application data 12.
    ApplicationData12,
    /// APP13: Application data 13.
    ApplicationData13,
    /// APP14: Application data 14.
    ApplicationData14,
    /// APP15: Application data 15.
    ApplicationData15,
    /// COM: Comment block.
    Comment,
    /// SOF_55: Marks the start of a JPEG-LS encoded frame.
    StartOfFrameJpegls,
    /// LSE: Marks the start of a JPEG-LS preset parameters segment.
    JpeglsPresetParameters,
    /// SOC: Start of a JPEG 2000 codestream.
    StartOfCodestream,
    /// CAP: Extended capabilities (HTJ2K).
    Capability,
    /// SIZ: Image and tile size.
    ImageAndTileSize,
    /// COD: Coding style default.
    CodingStyleDefault,
    /// TLM: Tile-part lengths.
    TilePartLengths,
    /// PLT: Packet lengths, tile-part header.
    PacketLengths,
    /// QCD: Quantization default.
    QuantizationDefault,
    /// RGN: Region of interest.
    RegionOfInterest,
    /// COM (JPEG 2000): Comment.
    J2kComment,
    /// SOT: Start of tile-part.
    StartOfTile,
    /// SOD: Start of data.
    StartOfData,
}

/// The byte that follows `0xFF` for each marker.
pub open spec fn spec_marker_code(m: JpegMarkerCode) -> u8 {
    match m {
        JpegMarkerCode::StartOfImage => 0xD8,
        JpegMarkerCode::EndOfImage => 0xD9,
        JpegMarkerCode::StartOfScan => 0xDA,
        JpegMarkerCode::DefineNumberOfLines => 0xDC,
        JpegMarkerCode::DefineRestartInterval => 0xDD,
        JpegMarkerCode::DefineQuantizationTable => 0xDB,
        JpegMarkerCode::DefineHuffmanTable => 0xC4,
        JpegMarkerCode::StartOfFrameBaseline => 0xC0,
        JpegMarkerCode::ApplicationData0 => 0xE0,
        JpegMarkerCode::ApplicationData1 => 0xE1,
        JpegMarkerCode::ApplicationData2 => 0xE2,
        JpegMarkerCode::ApplicationData3 => 0xE3,
        JpegMarkerCode::ApplicationData4 => 0xE4,
        JpegMarkerCode::ApplicationData5 => 0xE5,
        JpegMarkerCode::ApplicationData6 => 0xE6,
        JpegMarkerCode::ApplicationData7 => 0xE7,
        JpegMarkerCode::ApplicationData8 => 0xE8,
        JpegMarkerCode::ApplicationData9 => 0xE9,
        JpegMarkerCode::ApplicationData10 => 0xEA,
        JpegMarkerCode::ApplicationData11 => 0xEB,
        JpegMarkerCode::ApplicationData12 => 0xEC,
        JpegMarkerCode::ApplicationData13 => 0xED,
        JpegMarkerCode::ApplicationData14 => 0xEE,
        JpegMarkerCode::ApplicationData15 => 0xEF,
        JpegMarkerCode::Comment => 0xFE,
        JpegMarkerCode::StartOfFrameJpegls => 0xF7,
        JpegMarkerCode::JpeglsPresetParameters => 0xF8,
        JpegMarkerCode::StartOfCodestream => 0x4F,
        JpegMarkerCode::Capability => 0x50,
        JpegMarkerCode::ImageAndTileSize => 0x51,
        JpegMarkerCode::CodingStyleDefault => 0x52,
        JpegMarkerCode::TilePartLengths => 0x55,
        JpegMarkerCode::PacketLengths => 0x58,
        JpegMarkerCode::QuantizationDefault => 0x5C,
        JpegMarkerCode::RegionOfInterest => 0x5E,
        JpegMarkerCode::J2kComment => 0x64,
        JpegMarkerCode::StartOfTile => 0x90,
        JpegMarkerCode::StartOfData => 0x93,
    }
}

/// Whether `v` is the code of some marker of this enumeration.
pub open spec fn is_marker_code(v: u8) -> bool {
    exists|m: JpegMarkerCode| spec_marker_code(m) == v
}

impl JpegMarkerCode {
    /// The marker's code byte.
    pub fn code(self) -> (r: u8)
        ensures
            r == spec_marker_code(self),
    {
        match self {
            JpegMarkerCode::StartOfImage => 0xD8,
            JpegMarkerCode::EndOfImage => 0xD9,
            JpegMarkerCode::StartOfScan => 0xDA,
            JpegMarkerCode::DefineNumberOfLines => 0xDC,
            JpegMarkerCode::DefineRestartInterval => 0xDD,
            JpegMarkerCode::DefineQuantizationTable => 0xDB,
            JpegMarkerCode::DefineHuffmanTable => 0xC4,
            JpegMarkerCode::StartOfFrameBaseline => 0xC0,
            JpegMarkerCode::ApplicationData0 => 0xE0,
            JpegMarkerCode::ApplicationData1 => 0xE1,
            JpegMarkerCode::ApplicationData2 => 0xE2,
            JpegMarkerCode::ApplicationData3 => 0xE3,
            JpegMarkerCode::ApplicationData4 => 0xE4,
            JpegMarkerCode::ApplicationData5 => 0xE5,
            JpegMarkerCode::ApplicationData6 => 0xE6,
            JpegMarkerCode::ApplicationData7 => 0xE7,
            JpegMarkerCode::ApplicationData8 => 0xE8,
            JpegMarkerCode::ApplicationData9 => 0xE9,
            JpegMarkerCode::ApplicationData10 => 0xEA,
            JpegMarkerCode::ApplicationData11 => 0xEB,
            JpegMarkerCode::ApplicationData12 => 0xEC,
            JpegMarkerCode::ApplicationData13 => 0xED,
            JpegMarkerCode::ApplicationData14 => 0xEE,
            JpegMarkerCode::ApplicationData15 => 0xEF,
            JpegMarkerCode::Comment => 0xFE,
            JpegMarkerCode::StartOfFrameJpegls => 0xF7,
            JpegMarkerCode::JpeglsPresetParameters => 0xF8,
            JpegMarkerCode::StartOfCodestream => 0x4F,
            JpegMarkerCode::Capability => 0x50,
            JpegMarkerCode::ImageAndTileSize => 0x51,
            JpegMarkerCode::CodingStyleDefault => 0x52,
            JpegMarkerCode::TilePartLengths => 0x55,
            JpegMarkerCode::PacketLengths => 0x58,
            JpegMarkerCode::QuantizationDefault => 0x5C,
            JpegMarkerCode::RegionOfInterest => 0x5E,
            JpegMarkerCode::J2kComment => 0x64,
            JpegMarkerCode::StartOfTile => 0x90,
            JpegMarkerCode::StartOfData => 0x93,
        }
    }

    /// Maps a code byte to its marker; an unknown byte is `InvalidData`.
    pub fn try_from(v: u8) -> (r: Result<JpegMarkerCode, JpeglsError>)
        ensures
            match r {
                Ok(m) => spec_marker_code(m) == v,
                Err(e) => e == JpeglsError::InvalidData && !is_marker_code(v),
            },
    {
        match v {
            0xD8 => Ok(JpegMarkerCode::StartOfImage),
            0xD9 => Ok(JpegMarkerCode::EndOfImage),
            0xDA => Ok(JpegMarkerCode::StartOfScan),
            0xDC => Ok(JpegMarkerCode::DefineNumberOfLines),
            0xDD => Ok(JpegMarkerCode::DefineRestartInterval),
            0xDB => Ok(JpegMarkerCode::DefineQuantizationTable),
            0xC4 => Ok(JpegMarkerCode::DefineHuffmanTable),
            0xC0 => Ok(JpegMarkerCode::StartOfFrameBaseline),
            0xE0 => Ok(JpegMarkerCode::ApplicationData0),
            0xE1 => Ok(JpegMarkerCode::ApplicationData1),
            0xE2 => Ok(JpegMarkerCode::ApplicationData2),
            0xE3 => Ok(JpegMarkerCode::ApplicationData3),
            0xE4 => Ok(JpegMarkerCode::ApplicationData4),
            0xE5 => Ok(JpegMarkerCode::ApplicationData5),
            0xE6 => Ok(JpegMarkerCode::ApplicationData6),
            0xE7 => Ok(JpegMarkerCode::ApplicationData7),
            0xE8 => Ok(JpegMarkerCode::ApplicationData8),
            0xE9 => Ok(JpegMarkerCode::ApplicationData9),
            0xEA => Ok(JpegMarkerCode::ApplicationData10),
            0xEB => Ok(JpegMarkerCode::ApplicationData11),
            0xEC => Ok(JpegMarkerCode::ApplicationData12),
            0xED => Ok(JpegMarkerCode::ApplicationData13),
            0xEE => Ok(JpegMarkerCode::ApplicationData14),
            0xEF => Ok(JpegMarkerCode::ApplicationData15),
            0xFE => Ok(JpegMarkerCode::Comment),
            0xF7 => Ok(JpegMarkerCode::StartOfFrameJpegls),
            0xF8 => Ok(JpegMarkerCode::JpeglsPresetParameters),
            0x4F => Ok(JpegMarkerCode::StartOfCodestream),
            0x50 => Ok(JpegMarkerCode::Capability),
            0x51 => Ok(JpegMarkerCode::ImageAndTileSize),
            0x52 => Ok(JpegMarkerCode::CodingStyleDefault),
            0x55 => Ok(JpegMarkerCode::TilePartLengths),
            0x58 => Ok(JpegMarkerCode::PacketLengths),
            0x5C => Ok(JpegMarkerCode::QuantizationDefault),
            0x5E => Ok(JpegMarkerCode::RegionOfInterest),
            0x64 => Ok(JpegMarkerCode::J2kComment),
            0x90 => Ok(JpegMarkerCode::StartOfTile),
            0x93 => Ok(JpegMarkerCode::StartOfData),
            _ => {
                proof {
                    assert forall|m: JpegMarkerCode| spec_marker_code(m) != v by {
                        match m {
                            JpegMarkerCode::StartOfImage => {},
                            JpegMarkerCode::EndOfImage => {},
                            JpegMarkerCode::StartOfScan => {},
                            JpegMarkerCode::DefineNumberOfLines => {},
                            JpegMarkerCode::DefineRestartInterval => {},
                            JpegMarkerCode::DefineQuantizationTable => {},
                            JpegMarkerCode::DefineHuffmanTable => {},
                            JpegMarkerCode::StartOfFrameBaseline => {},
                            JpegMarkerCode::ApplicationData0 => {},
                            JpegMarkerCode::ApplicationData1 => {},
                            JpegMarkerCode::ApplicationData2 => {},
                            JpegMarkerCode::ApplicationData3 => {},
                            JpegMarkerCode::ApplicationData4 => {},
                            JpegMarkerCode::ApplicationData5 => {},
                            JpegMarkerCode::ApplicationData6 => {},
                            JpegMarkerCode::ApplicationData7 => {},
                            JpegMarkerCode::ApplicationData8 => {},
                            JpegMarkerCode::ApplicationData9 => {},
                            JpegMarkerCode::ApplicationData10 => {},
                            JpegMarkerCode::ApplicationData11 => {},
                            JpegMarkerCode::ApplicationData12 => {},
                            JpegMarkerCode::ApplicationData13 => {},
                            JpegMarkerCode::ApplicationData14 => {},
                            JpegMarkerCode::ApplicationData15 => {},
                            JpegMarkerCode::Comment => {},
                            JpegMarkerCode::StartOfFrameJpegls => {},
                            JpegMarkerCode::JpeglsPresetParameters => {},
                            JpegMarkerCode::StartOfCodestream => {},
                            JpegMarkerCode::Capability => {},
                            JpegMarkerCode::ImageAndTileSize => {},
                            JpegMarkerCode::CodingStyleDefault => {},
                            JpegMarkerCode::TilePartLengths => {},
                            JpegMarkerCode::PacketLengths => {},
                            JpegMarkerCode::QuantizationDefault => {},
                            JpegMarkerCode::RegionOfInterest => {},
                            JpegMarkerCode::J2kComment => {},
                            JpegMarkerCode::StartOfTile => {},
                            JpegMarkerCode::StartOfData => {},
                        }
                    }
                }
                Err(JpeglsError::InvalidData)
            },
        }
    }
}

/// Distinct markers have distinct codes.
pub proof fn lemma_marker_code_injective(a: JpegMarkerCode, b: JpegMarkerCode)
    ensures
        spec_marker_code(a) == spec_marker_code(b) ==> a == b,
{
}

/// First byte of every marker.
pub const JPEG_MARKER_START_BYTE: u8 = 0xFF;

/// First restart marker code (RST0).
pub const JPEG_RESTART_MARKER_BASE: u8 = 0xD0;

/// Number of restart marker codes.
pub const JPEG_RESTART_MARKER_RANGE: u8 = 8;

/// Reading back the code byte of a marker gives the marker: distinct markers have
/// distinct code bytes.
pub proof fn lemma_marker_code_roundtrip(a: JpegMarkerCode, b: JpegMarkerCode)
    ensures
        is_marker_code(spec_marker_code(a)),
        spec_marker_code(a) == spec_marker_code(b) ==> a == b,
{
    assert(spec_marker_code(a) == spec_marker_code(a));
}

} // verus!
