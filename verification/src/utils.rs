//! Conversions of raw bytes.

pub mod byte_conversion;
