//! Trading back-test support library: symbol selection, sliding price
//! buffers, order and position decisions and trade statistics.
//!
//! Prices and amounts travel through the library as IEEE-754 binary64 bit
//! patterns (`u64`); the library only classifies, compares and moves them.

pub mod num_bits;
pub mod buffer;
pub mod symbols;
pub mod cli;
pub mod settings;
pub mod file_wr;
pub mod trade;
pub mod indicators;
pub mod symbol_filters;
pub mod visual;
