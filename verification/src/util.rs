//! Readers that turn a byte stream into what a caller asked for.

pub mod read_chars;
pub mod read_lines;
pub mod source;
pub mod stream_law;
pub mod utf8_prefix;
