//! A fully parameterized CRC engine for register widths from 1 to 8 bits.
//!
//! An engine is created from a generator polynomial, a width, an initial
//! value, a final XOR value and a reflection flag.  Widths that are a
//! multiple of 8 use a 256-entry lookup table synthesized at construction;
//! the other widths run a bit-at-a-time shift-register simulation.  The
//! `model` module gives the mathematical account of both algorithms, the
//! `laws` module proves the properties that relate them.

pub mod engine;
pub mod laws;
pub mod model;
pub mod presets;

pub use engine::CRCu8;
