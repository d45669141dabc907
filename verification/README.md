# jpegexp_rs

A JPEG-LS and JPEG 2000 codec library written in Verus. The code in `src/` is
verified: each function carries `requires`/`ensures` contracts that Verus proves.

## Layout

- `src/jpeg_marker_code.rs`, `src/jpeg_stream_reader.rs`, `src/jpeg_stream_writer.rs`:
  markers and segments of JPEG-family codestreams.
- `src/jpegls/`: the JPEG-LS encoder and decoder (context modelling, run mode,
  Golomb coding of errors), with the scan coders in `scan_encoder.rs` and
  `scan_decoder.rs`.
- `src/jpeg2000/`: JPEG 2000 parts: the codestream parser and writer, the
  reversible 5/3 wavelet (`dwt.rs`), the MQ coder, EBCOT bit-plane coding, tag trees,
  packet headers, the JP2 box reader, the HT block coding parts (MEL, MagSgn, UVLC),
  the encoder, the decoder and sample reconstruction.
- `src/bits.rs`: bit-level lemmas shared by the coders.
- `tests/`: executable tests of the library.
- `app/`: the parts outside verification: the irreversible 9/7 wavelet and
  quantization (floating point) and the WebAssembly bindings.

## Laws proved

Among others: 5/3 perfect reconstruction (1D and 2D), the reversible colour
transform round trip, the UVLC and MagSgn round trips, the bit writer/reader round
trip of packet headers, marker-code round trip, the JPEG-LS error unmapping, and
big-endian write/read round trips.

## Stated behaviour

- The JPEG 2000 main header, tile-part header and codestream parsers say exactly
  when they succeed (`segments_end`, `tile_parts_ok`), and where they stop.
- The JPEG-LS header reader succeeds on every header made of frame, preset,
  restart-interval and skipped segments (`plain_header_scan`), and gives the frame
  information of the last frame header (`plain_header_frame`).
- The JPEG 2000 encoder writes the main header of `encoder_header`: SIZ with the
  sample sign and depth, the COD of `min(levels asked, floor(log2 of the smaller
  side), 5)` levels (the count the transform uses) and the QCD of `encoder_steps`.
- A packet body keeps each of its code-blocks where the packet header places it
  (`block_stored`), and a new tile gets exactly one component per image component,
  each with one level per resolution.

## Checking

Run Verus on `src/lib.rs` to verify the library; the tests run with `cargo test`.
