//! Parts of the HTJ2K block coder (ISO/IEC 15444-15): the MEL, MagSgn and VLC bit
//! streams, the unary-coded u-value pairs, and the per-quad bookkeeping of the encoder.
pub mod encoder;
pub mod mag_sgn;
pub mod mel;
pub mod vlc;
