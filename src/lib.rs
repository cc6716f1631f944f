//! A small `wc`-style counter: line, word, byte and character statistics of a
//! byte buffer, and the argument handling and report text around them.

pub mod decode;
pub mod stats;
pub mod cli;
