//! A persisted column as recorded in a manifest entry.

use crate::stats::TypedStatistics;
use vstd::prelude::*;

verus! {

/// Name of a persisted column and its statistics; `None` for a column whose
/// values were all null, which never prunes a file.
#[derive(Debug)]
pub struct Column {
    pub name: String,
    pub stats: Option<TypedStatistics>,
}

impl Column {
    /// Whether rows of this column may hold an integer in `[lo, hi]`: false
    /// only when integer statistics exist and miss that interval.
    pub fn may_hold_int_in(&self, lo: i64, hi: i64) -> (r: bool)
        ensures
            r == (match self.stats {
                Some(TypedStatistics::Int(s)) => crate::stats::intervals_meet(
                    s.min as int,
                    s.max as int,
                    lo as int,
                    hi as int,
                ),
                _ => true,
            }),
    {
        match &self.stats {
            Some(TypedStatistics::Int(s)) => s.overlaps(lo, hi),
            _ => true,
        }
    }
}

} // verus!
