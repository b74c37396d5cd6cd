//! Static analysis of macro usage in Rust sources.
//!
//! The library classifies the macro-related constructs of a parsed source
//! file into a usage record, combines the records of files, crates and
//! repositories, computes statistics over derive arities, and finds and
//! deletes the byte ranges of conditional compilation.

pub mod analyzis;
pub mod cargo;
pub mod classifier;
pub mod clear_cfg;
pub mod count_code;
pub mod crate_paths;
pub mod data;
pub mod error;
pub mod github;
pub mod lines_count;
pub mod parser;
pub mod path_map;
pub mod results;
pub mod rewrite;
pub mod text;
pub mod tree;
pub mod usage;
pub mod utils;
pub mod walker;
