//! Encoder for flat firmware images consumed by a handheld-game emulation
//! core: a fixed-layout configuration preamble with bit-packed fields, an
//! interleaved pixel stream, a run-length-encoded overlay mask with a hard
//! capacity bound, and a ROM-resolution step that falls back to a
//! content-hash search.

pub mod errors;
pub mod platform;
pub mod fields;
pub mod pixels;
pub mod mask;
pub mod config;
pub mod rom;
pub mod naming;
pub mod image;
