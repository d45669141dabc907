//! The image model of a JPEG 2000 codestream: header parameters, tiles,
//! components, resolutions, subbands and code-blocks.
use vstd::prelude::*;

verus! {

/// A JPEG 2000 image: the main header's parameters and the decoded tiles.
#[derive(Debug, Clone)]
pub struct J2kImage {
    /// Width of the reference grid.
    pub width: u32,
    /// Height of the reference grid.
    pub height: u32,
    /// Horizontal offset of the image area.
    pub x_origin: u32,
    /// Vertical offset of the image area.
    pub y_origin: u32,
    /// Nominal tile width.
    pub tile_width: u32,
    /// Nominal tile height.
    pub tile_height: u32,
    /// Horizontal offset of the first tile.
    pub tile_x_origin: u32,
    /// Vertical offset of the first tile.
    pub tile_y_origin: u32,
    /// Number of components.
    pub component_count: u32,
    /// The coding style (COD), if given.
    pub cod: Option<J2kCod>,
    /// The quantization (QCD), if given.
    pub qcd: Option<J2kQcd>,
    /// The capabilities (CAP), if given.
    pub cap: Option<J2kCap>,
    /// The region of interest (RGN), if given.
    pub roi: Option<J2kRoi>,
    /// An ICC profile, if given.
    pub icc_profile: Option<Vec<u8>>,
    /// The decoded tiles.
    pub tiles: Vec<J2kTile>,
    /// Per-component information from SIZ.
    pub components: Vec<J2kComponentInfo>,
}

/// Region of interest (RGN).
#[derive(Debug, Clone, Copy, Default, PartialEq, Eq, Structural)]
pub struct J2kRoi {
    /// The component it applies to.
    pub component_index: u8,
    /// The ROI style.
    pub roi_style: u8,
    /// The ROI shift.
    pub shift_value: u8,
}

/// Capabilities (CAP).
#[derive(Debug, Clone, Default)]
pub struct J2kCap {
    /// Pcap: the parts of the standard the codestream needs.
    pub pcap: u32,
    /// Ccap: capabilities per part.
    pub ccap: Vec<u16>,
}

/// Per-component information from SIZ.
#[derive(Debug, Clone, Copy, Default, PartialEq, Eq, Structural)]
pub struct J2kComponentInfo {
    /// Bit depth.
    pub depth: u8,
    /// Whether samples are signed.
    pub is_signed: bool,
    /// Horizontal subsampling.
    pub dx: u8,
    /// Vertical subsampling.
    pub dy: u8,
}

/// A decoded tile.
#[derive(Debug, Clone, Default)]
pub struct J2kTile {
    /// Tile index.
    pub index: u32,
    /// Tile components.
    pub components: Vec<J2kTileComponent>,
}

/// One component of a tile.
#[derive(Debug, Clone, Default)]
pub struct J2kTileComponent {
    /// The component's index.
    pub component_index: u32,
    /// Its resolution levels, lowest first.
    pub resolutions: Vec<J2kResolution>,
}

/// One resolution level of a tile component.
#[derive(Debug, Clone, Default)]
pub struct J2kResolution {
    /// The level, 0 the lowest.
    pub level: u8,
    /// Width.
    pub width: u32,
    /// Height.
    pub height: u32,
    /// Its subbands: LL alone at level 0, else HL, LH and HH.
    pub subbands: Vec<J2kSubband>,
}

/// One subband of a resolution level.
#[derive(Debug, Clone, Default)]
pub struct J2kSubband {
    /// Its orientation.
    pub orientation: SubbandOrientation,
    /// Width.
    pub width: u32,
    /// Height.
    pub height: u32,
    /// Its code-blocks.
    pub codeblocks: Vec<J2kCodeBlock>,
}

/// Subband orientation.
#[derive(Debug, Clone, Copy, PartialEq, Eq, Structural)]
pub enum SubbandOrientation {
    /// Low-pass both ways.
    LL,
    /// High-pass horizontally.
    HL,
    /// High-pass vertically.
    LH,
    /// High-pass both ways.
    HH,
}

impl Default for SubbandOrientation {
    fn default() -> (r: Self)
        ensures
            r == SubbandOrientation::LL,
    {
        SubbandOrientation::LL
    }
}

/// A code-block and its coding state.
#[derive(Debug, Clone, Default)]
pub struct J2kCodeBlock {
    /// Column of the block in its subband's grid of blocks.
    pub x: u32,
    /// Row of the block in its subband's grid of blocks.
    pub y: u32,
    /// Width.
    pub width: u32,
    /// Height.
    pub height: u32,
    /// Missing most significant bit-planes.
    pub zero_bit_planes: u8,
    /// Coding passes included.
    pub coding_passes: u8,
    /// The decoded coefficients, row by row.
    pub coefficients: Vec<i32>,
    /// The coded data of each layer.
    pub layer_data: Vec<Vec<u8>>,
    /// Layers decoded so far.
    pub layers_decoded: u8,
    /// Per-coefficient coding state.
    pub state: Vec<u8>,
    /// MQ coder contexts.
    pub mq_contexts: Vec<u8>,
    /// MQ coder interval register.
    pub mq_a: u32,
    /// MQ coder code register.
    pub mq_c: u32,
    /// MQ coder bit counter.
    pub mq_ct: u32,
}

/// Coding style default (COD).
#[derive(Debug, Clone, Default)]
pub struct J2kCod {
    /// Scod: coding style flags.
    pub coding_style: u8,
    /// Progression order.
    pub progression_order: u8,
    /// Number of quality layers.
    pub number_of_layers: u16,
    /// Multiple component transform (1: on).
    pub mct: u8,
    /// Number of decomposition levels.
    pub decomposition_levels: u8,
    /// Wavelet transform: 1 for 5/3, 0 for 9/7.
    pub transformation: u8,
    /// Code-block width exponent, less 2.
    pub codeblock_width_exp: u8,
    /// Code-block height exponent, less 2.
    pub codeblock_height_exp: u8,
    /// Code-block style flags (0x40: HT block coding).
    pub code_block_style: u8,
    /// Precinct sizes, one per resolution level, when Scod says so.
    pub precinct_sizes: Vec<u8>,
}

/// Quantization default (QCD).
#[derive(Debug, Clone, Default)]
pub struct J2kQcd {
    /// Sqcd: quantization style and guard bits.
    pub quant_style: u8,
    /// Step sizes, as 16-bit values (exponent in the top five bits).
    pub step_sizes: Vec<u16>,
}

impl J2kImage {
    /// An image with no parameter read yet.
    pub open spec fn is_empty_image(&self) -> bool {
        &&& self.width == 0
        &&& self.height == 0
        &&& self.x_origin == 0
        &&& self.y_origin == 0
        &&& self.tile_width == 0
        &&& self.tile_height == 0
        &&& self.tile_x_origin == 0
        &&& self.tile_y_origin == 0
        &&& self.component_count == 0
        &&& self.cod is None
        &&& self.qcd is None
        &&& self.cap is None
        &&& self.roi is None
        &&& self.icc_profile is None
        &&& self.tiles@.len() == 0
        &&& self.components@.len() == 0
    }
}

impl Default for J2kImage {
    fn default() -> (r: Self)
        ensures
            r.is_empty_image(),
    {
        J2kImage {
            width: 0,
            height: 0,
            x_origin: 0,
            y_origin: 0,
            tile_width: 0,
            tile_height: 0,
            tile_x_origin: 0,
            tile_y_origin: 0,
            component_count: 0,
            cod: None,
            qcd: None,
            cap: None,
            roi: None,
            icc_profile: None,
            tiles: Vec::new(),
            components: Vec::new(),
        }
    }
}

} // verus!
