//! A small retrieval service: it splits a text corpus into overlapping
//! chunks, stores one embedding vector per chunk, and answers queries by
//! returning the chunks whose vectors have the highest dot product with a
//! query vector. Named agents, each wrapping one corpus, are kept in a
//! registry behind a length-prefixed line protocol.

pub mod app;
pub mod errors;
pub mod grep;
pub mod parser;
pub mod protocol;
pub mod server;
pub mod textutil;
pub mod utils;
