//! The per-run options that steer the scan, resolved once from the
//! command line and passed unchanged through the pipeline.

use vstd::prelude::*;

verus! {

/// One run's settings: the traversal depth bound, exactly one time-window
/// mode (an explicit day count unless one of the three calendar shortcuts
/// is set), the display limit, and the filter and output toggles.
#[derive(Clone, Debug)]
pub struct ScanFlags {
    /// Maximum directory depth to search for repositories.
    pub depth: usize,
    /// How many days back to look, when no calendar shortcut is chosen.
    pub days: i64,
    /// Window since local midnight of the current day.
    pub today: bool,
    /// Window since the first instant of the current local calendar month.
    pub month: bool,
    /// Window covering the previous local calendar month only.
    pub last_month: bool,
    /// Maximum number of commits to display, across all repositories.
    pub limit: usize,
    /// Do not filter to the configured author identity.
    pub all: bool,
    /// Include merge commits.
    pub merges: bool,
    /// Emit tab-separated machine-readable lines, with no trailing summary.
    pub raw: bool,
}

/// The day-count mode is in force when no calendar shortcut is chosen.
pub open spec fn day_mode(flags: ScanFlags) -> bool {
    !flags.today && !flags.month && !flags.last_month
}

} // verus!
