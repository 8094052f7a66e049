//! Per-column statistics kept in manifests and the range test used to prune
//! files that cannot hold rows of a queried interval.

use crate::text::{lemma_text_lt_irreflexive, lemma_text_lt_total, lemma_text_lt_transitive, text_less, text_lt};
use vstd::prelude::*;

verus! {

/// Whether `x` lies in the closed interval `[a, b]`.
pub open spec fn within(x: int, a: int, b: int) -> bool {
    a <= x <= b
}

/// Whether the closed intervals `[min, max]` and `[lo, hi]` share a point.
pub open spec fn intervals_meet(min: int, max: int, lo: int, hi: int) -> bool {
    exists|x: int| #[trigger] within(x, min, max) && within(x, lo, hi)
}

/// Minimum and maximum of a column of signed 64-bit integers.
#[derive(Clone, Copy, Debug, PartialEq, Eq, Structural)]
pub struct Int64Type {
    pub min: i64,
    pub max: i64,
}

/// Minimum and maximum of a boolean column (`false < true`).
#[derive(Clone, Copy, Debug, PartialEq, Eq, Structural)]
pub struct BoolType {
    pub min: bool,
    pub max: bool,
}

/// Minimum and maximum of a text column, in lexicographic order.
#[derive(Debug)]
pub struct Utf8Type {
    pub min: String,
    pub max: String,
}

/// Statistics of one column, by the column's type.
#[derive(Debug)]
pub enum TypedStatistics {
    Bool(BoolType),
    Int(Int64Type),
    Utf8(Utf8Type),
}

/// Lexicographic order on texts, not strict.
pub open spec fn text_le(a: Seq<char>, b: Seq<char>) -> bool {
    a == b || text_lt(a, b)
}

/// Whether the closed text intervals `[min, max]` and `[lo, hi]` share a text.
pub open spec fn text_intervals_meet(min: Seq<char>, max: Seq<char>, lo: Seq<char>, hi: Seq<char>) -> bool {
    exists|x: Seq<char>|
        #[trigger] text_le(min, x) && text_le(x, max) && text_le(lo, x) && text_le(x, hi)
}

proof fn lemma_text_le_transitive(a: Seq<char>, b: Seq<char>, c: Seq<char>)
    requires
        text_le(a, b),
        text_le(b, c),
    ensures
        text_le(a, c),
{
    if a != b && b != c {
        lemma_text_lt_transitive(a, b, c);
    }
}

proof fn lemma_text_le_total(a: Seq<char>, b: Seq<char>)
    ensures
        text_le(a, b) || text_le(b, a),
        text_le(a, b) && text_le(b, a) ==> a == b,
{
    if a != b {
        lemma_text_lt_total(a, b);
        if text_lt(a, b) && text_lt(b, a) {
            lemma_text_lt_transitive(a, b, a);
            lemma_text_lt_irreflexive(a);
        }
    }
}

fn text_at_most(a: &String, b: &String) -> (r: bool)
    ensures
        r == text_le(a@, b@),
{
    *a == *b || text_less(a.as_str(), b.as_str())
}

impl Utf8Type {
    /// Whether some value of the column may lie in `[lo, hi]`.
    pub fn overlaps(&self, lo: &String, hi: &String) -> (r: bool)
        ensures
            r == text_intervals_meet(self.min@, self.max@, lo@, hi@),
    {
        let r = text_at_most(&self.min, &self.max) && text_at_most(lo, hi) && text_at_most(&self.min, hi)
            && text_at_most(lo, &self.max);
        proof {
            let (min, max, l, h) = (self.min@, self.max@, lo@, hi@);
            lemma_text_le_total(min, l);
            if r {
                let x = if text_le(l, min) { min } else { l };
                assert(text_le(min, x) && text_le(x, max) && text_le(l, x) && text_le(x, h));
            } else if text_intervals_meet(min, max, l, h) {
                let x = choose|x: Seq<char>|
                    #[trigger] text_le(min, x) && text_le(x, max) && text_le(l, x) && text_le(x, h);
                lemma_text_le_transitive(min, x, max);
                lemma_text_le_transitive(l, x, h);
                lemma_text_le_transitive(min, x, h);
                lemma_text_le_transitive(l, x, max);
            }
        }
        r
    }
}

/// Returns true exactly when `[min, max]` and `[lo, hi]` intersect.
pub fn matches_range(min: i64, max: i64, lo: i64, hi: i64) -> (r: bool)
    ensures
        r == intervals_meet(min as int, max as int, lo as int, hi as int),
{
    let r = min <= max && lo <= hi && min <= hi && lo <= max;
    proof {
        if r {
            let x: int = if min >= lo { min as int } else { lo as int };
            assert(within(x, min as int, max as int) && within(x, lo as int, hi as int));
        }
    }
    r
}

impl Int64Type {
    /// Whether some value of the column may lie in `[lo, hi]`.
    pub fn overlaps(&self, lo: i64, hi: i64) -> (r: bool)
        ensures
            r == intervals_meet(self.min as int, self.max as int, lo as int, hi as int),
    {
        matches_range(self.min, self.max, lo, hi)
    }
}

/// The integer order on booleans, `false < true`.
pub open spec fn bool_rank(b: bool) -> int {
    if b { 1 } else { 0 }
}

impl BoolType {
    /// Whether some value of the column may lie in `[lo, hi]` (`false < true`).
    pub fn overlaps(&self, lo: bool, hi: bool) -> (r: bool)
        ensures
            r == intervals_meet(bool_rank(self.min), bool_rank(self.max), bool_rank(lo), bool_rank(hi)),
    {
        let min: i64 = if self.min { 1 } else { 0 };
        let max: i64 = if self.max { 1 } else { 0 };
        let l: i64 = if lo { 1 } else { 0 };
        let h: i64 = if hi { 1 } else { 0 };
        matches_range(min, max, l, h)
    }
}

impl TypedStatistics {
    /// The integer minimum and maximum, for statistics of an integer column.
    pub fn int_bounds(&self) -> (r: Option<(i64, i64)>)
        ensures
            r == (match *self {
                TypedStatistics::Int(s) => Some((s.min, s.max)),
                _ => None,
            }),
    {
        match self {
            TypedStatistics::Int(s) => Some((s.min, s.max)),
            _ => None,
        }
    }
}

} // verus!
