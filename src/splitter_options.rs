use vstd::prelude::*;

verus! {

/// How a message is to be split.
#[derive(Clone, Copy, Debug)]
pub struct SplitterOptions {
    /// Also accept the Turkish, Spanish and Portuguese national shift tables.
    pub support_shift_tables: bool,
    /// Compute only lengths and byte counts, leaving every part's text empty.
    pub summary: bool,
}

impl SplitterOptions {
    pub fn new(support_shift_tables: bool, summary: bool) -> (r: SplitterOptions)
        ensures
            r.support_shift_tables == support_shift_tables,
            r.summary == summary,
    {
        SplitterOptions { support_shift_tables, summary }
    }
}

impl Default for SplitterOptions {
    fn default() -> (r: SplitterOptions)
        ensures
            !r.support_shift_tables,
            !r.summary,
    {
        SplitterOptions { support_shift_tables: false, summary: false }
    }
}

} // verus!
