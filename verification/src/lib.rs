//! Column-indexed extraction and histogram alignment for merging
//! logarithmic probability densities from sampling simulations.
//!
//! The crate reads column-oriented text data (handed over as lines), pulls
//! out configured columns in one pass, derives an integer bin range per
//! file, trims invalid leading/trailing entries from each probability
//! sequence and re-derives a matching bin sub-range, so that bin count and
//! sequence length always agree. Floating point values are carried as their
//! IEEE 754 bit patterns; reading files, parsing floats and the final
//! merge of the aligned windows happen outside this crate.

pub mod align;
pub mod errors;
pub mod file_parser;
pub mod hist;
pub mod numbers;
pub mod parser;
pub mod text;
pub mod values;
pub mod worker;
