//! Chilean national identification numbers (RUT): a number in a fixed range
//! together with a check character computed by a weighted modulo-11 checksum.
//!
//! The crate parses and validates textual RUTs, builds them from numbers,
//! draws random ones and renders them in three textual formats.  Every
//! function is specified over mathematical models (`nat`, `Seq<char>`) and
//! verified against them.
//!
//! ```text
//! Rut::from("17.951.585-7")      Ok: number 17951585, check character 7
//! Rut::from("17951585-K")        Err(InvalidDV { must_be: '7', instead: 'K' })
//! Rut::from("17.951,585-7")      Err(InvalidFormat)
//! Rut::from_number(24136773)     Ok: number 24136773, check character 8
//! Rut::from_number(999_999)      Err(OutOfRange)
//! rut.to_format(Format::DOTS)    "24.136.773-8"
//! ```
//!
//! - [`checksum`] computes the checksum, [`range`] holds the interval of numbers,
//!   [`parser`] recognises the textual shape, [`rut`] makes and renders RUTs.
//! - [`digits`], [`grouping`] and [`text`] say what numerals are and build them.
//! - [`laws`] proves what holds of parsing and rendering together.

pub mod digits;
pub mod checksum;
pub mod text;
pub mod grouping;
pub mod range;
pub mod error;
pub mod parser;
pub mod rut;
pub mod laws;

pub use error::Error;
pub use range::Range;
pub use rut::{Format, Rut};
