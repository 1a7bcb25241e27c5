//! Counts of the log entries that were seen.

use vstd::prelude::*;

verus! {

/// How many log entries came in, how many were filtered out and how many
/// were printed.
pub struct Stats {
    pub total_logs: u128,
    pub filtered_out_logs: u128,
    pub printed_logs: u128,
}

impl Stats {
    /// Counts that all stand at zero.
    pub fn new() -> (stats: Self)
        ensures
            stats.total_logs == 0,
            stats.filtered_out_logs == 0,
            stats.printed_logs == 0,
    {
        Stats { total_logs: 0, filtered_out_logs: 0, printed_logs: 0 }
    }
}

} // verus!
