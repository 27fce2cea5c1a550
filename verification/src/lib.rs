//! Extraction of time-series economic indicators from semi-structured
//! spreadsheets: a timestamp model with bidirectional text conversion, a
//! cell interpreter that disambiguates period encodings from positional
//! and textual context, a sheet analyzer that reconstructs nested column
//! labels and streams rows, and an aggregation store that merges
//! observations from many files into per-frequency datasets.
pub mod chars;
pub mod common;
pub mod parse;
pub mod analysis;
pub mod merge;
