//! Chunked patching of text files: split files into numbered parts, narrow a
//! chunk set to selected parts, parse a patch response in a constrained tag
//! format, merge replacement parts over a re-chunked original, and make every
//! mutating run reversible through rollback and checkpoint records.

pub mod api;
pub mod applier;
pub mod chunker;
pub mod config;
pub mod errors;
pub mod files;
pub mod fsmodel;
pub mod models;
pub mod parser;
pub mod prompt;
pub mod scan;
pub mod selector;
pub mod snapshot;
pub mod text;
