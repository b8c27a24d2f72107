//! An embedded single-file key/value store driven by a small query language.

pub mod tokenizer;
pub mod parser;
pub mod format;
pub mod storage;
pub mod kiv;
