//! The value types handed back to callers: the four counters, the
//! per-counter error notes, and the tag that records which kind of source
//! a set of counters came from.

use vstd::prelude::*;
use crate::file_stats::{FileStats, StdInStats};

verus! {

/// The four counters of one completed pass over a stream.
pub struct Stats {
    pub bytes_count: u64,
    pub words_count: u64,
    pub lines_count: u64,
    pub chars_count: u64,
}

impl Stats {
    /// Creates a new instance of `Stats` with all fields set to 0.
    pub fn new() -> (r: Stats)
        ensures
            r.bytes_count == 0,
            r.words_count == 0,
            r.lines_count == 0,
            r.chars_count == 0,
    {
        Stats { bytes_count: 0, words_count: 0, lines_count: 0, chars_count: 0 }
    }
}

/// An optional error note per counter; `None` means the counter is good.
pub struct StatErrors {
    pub bytes_count: Option<String>,
    pub words_count: Option<String>,
    pub lines_count: Option<String>,
    pub chars_count: Option<String>,
}

impl StatErrors {
    /// Error notes for a pass in which no counter could be computed.
    pub fn new_all_fields_errors() -> (r: Self)
        ensures
            r.bytes_count matches Some(m) && m@ == "An error occured during computing bytes count!"@,
            r.words_count matches Some(m) && m@ == "An error occured during computing words count!"@,
            r.lines_count matches Some(m) && m@ == "An error occured during computing lines count!"@,
            r.chars_count matches Some(m) && m@ == "An error occured during computing chars count!"@,
    {
        StatErrors {
            bytes_count: Some(String::from_str("An error occured during computing bytes count!")),
            words_count: Some(String::from_str("An error occured during computing words count!")),
            lines_count: Some(String::from_str("An error occured during computing lines count!")),
            chars_count: Some(String::from_str("An error occured during computing chars count!")),
        }
    }

    /// Error notes for a clean pass: no counter is in error.
    pub fn new() -> (r: Self)
        ensures
            r.bytes_count is None,
            r.words_count is None,
            r.lines_count is None,
            r.chars_count is None,
    {
        StatErrors { bytes_count: None, words_count: None, lines_count: None, chars_count: None }
    }
}

/// Counters tagged with the kind of source they were computed from.
pub enum DataSource {
    File(FileStats),
    StdIn(StdInStats),
}

impl DataSource {
    /// The counters carried by either variant.
    pub open spec fn stats_spec(self) -> Stats {
        match self {
            DataSource::File(file_stats) => file_stats.stats,
            DataSource::StdIn(stdin_stats) => stdin_stats.stats,
        }
    }

    /// Borrows the counters, whichever kind of source they came from.
    pub fn stats(&self) -> (r: &Stats)
        ensures
            *r == self.stats_spec(),
    {
        match self {
            DataSource::File(file_stats) => &file_stats.stats,
            DataSource::StdIn(stdin_stats) => &stdin_stats.stats,
        }
    }
}

} // verus!
