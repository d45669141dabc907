//! JPEG 2000 (ISO/IEC 15444-1) and High-Throughput JPEG 2000 (ISO/IEC 15444-15).

pub mod bit_io;
pub mod tag_tree;
pub mod dwt;
pub mod image;
pub mod parser;
pub mod writer;
pub mod mq_coder;
pub mod bit_plane_coder;
pub mod packet;
pub mod jp2;
pub mod decoder;
pub mod encoder;
pub mod ht_block_coder;
pub mod reconstruct;
