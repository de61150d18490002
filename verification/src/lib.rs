//! Bit-level codec between typed field values and packed byte streams.
//!
//! A record is an ordered list of typed fields. Each field takes between one
//! and 64 bits and declares its own bit order. The bit buffer packs and
//! unpacks those fields through one 64-bit accumulator.

pub mod bit_buffer;
pub mod decode;
pub mod descriptor;
pub mod encode;
pub mod files;
pub mod round_trip;
pub mod rows;
pub mod template;
pub mod text;
pub mod types;
