//! A streaming byte / word / line / character counter.
//!
//! The heart of the crate is the stream accumulator in [`file_stats`]: fed
//! a byte stream one chunk at a time, it carries the possibly truncated
//! tail of a multi-byte UTF-8 sequence from one chunk to the next and
//! produces four counters whose values depend only on the concatenated
//! stream, never on where it was split. The mathematical model of the four
//! counts lives in [`counting`].

pub mod counting;
pub mod dao;
pub mod file_stats;
