//! Chinese word tokenization with a verified filter, dedup and order stage,
//! and an in-process record store for files and their tokens.

pub mod error;
pub mod words;
pub mod tokenizer;
pub mod store;
