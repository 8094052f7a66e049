//! Event counts over time bins, computed from manifest statistics alone: a
//! file counts towards the bin that holds the minimum of its time column.

use crate::column::Column;
use crate::event::{time_column, DEFAULT_TIMESTAMP_KEY};
use crate::manifest::{File, Manifest};
use crate::stats::TypedStatistics;
use crate::time::{in_time_range, parsed_millis, parse_utc_millis, rfc3339, rfc3339_text, MAX_MILLIS};
use vstd::prelude::*;
use vstd::string::*;

verus! {

pub const MILLIS_PER_MINUTE: i64 = 60_000;

/// The first column of `cols` named `name`.
pub open spec fn first_named(cols: Seq<Column>, name: Seq<char>) -> Option<Column>
    decreases cols.len(),
{
    if cols.len() == 0 {
        None
    } else if cols[0].name@ == name {
        Some(cols[0])
    } else {
        first_named(cols.drop_first(), name)
    }
}

/// The minimum of a file's time column `tp`, when that column has integer
/// statistics.
pub open spec fn partition_min(f: File, tp: Seq<char>) -> Option<i64> {
    match first_named(f.columns@, tp) {
        Some(c) => match c.stats {
            Some(TypedStatistics::Int(s)) => Some(s.min),
            _ => None,
        },
        None => None,
    }
}

/// Whether a file's time minimum lies in the half-open interval `[lo, hi)`.
pub open spec fn in_bin(f: File, tp: Seq<char>, lo: int, hi: int) -> bool {
    match partition_min(f, tp) {
        Some(m) => lo <= m < hi,
        None => false,
    }
}

/// Whether a file's time minimum lies in the closed interval `[lo, hi]`.
pub open spec fn in_closed(f: File, tp: Seq<char>, lo: int, hi: int) -> bool {
    match partition_min(f, tp) {
        Some(m) => lo <= m <= hi,
        None => false,
    }
}

/// Rows of the files whose time minimum lies in `[lo, hi)`.
pub open spec fn rows_in(files: Seq<File>, tp: Seq<char>, lo: int, hi: int) -> int
    decreases files.len(),
{
    if files.len() == 0 {
        0
    } else {
        rows_in(files.drop_last(), tp, lo, hi) + if in_bin(files.last(), tp, lo, hi) {
            files.last().num_rows as int
        } else {
            0
        }
    }
}

/// Rows of the files whose time minimum lies in `[lo, hi]`.
pub open spec fn rows_in_closed(files: Seq<File>, tp: Seq<char>, lo: int, hi: int) -> int
    decreases files.len(),
{
    if files.len() == 0 {
        0
    } else {
        rows_in_closed(files.drop_last(), tp, lo, hi) + if in_closed(files.last(), tp, lo, hi) {
            files.last().num_rows as int
        } else {
            0
        }
    }
}

/// Rows of the files counted in a bin `[lo, hi)`, or `[lo, hi]` for the
/// last bin, which holds the end of the range.
pub open spec fn bin_rows(files: Seq<File>, tp: Seq<char>, lo: int, hi: int, last: bool) -> int {
    if last {
        rows_in_closed(files, tp, lo, hi)
    } else {
        rows_in(files, tp, lo, hi)
    }
}

/// Rows of all the files.
pub open spec fn all_rows(files: Seq<File>) -> int
    decreases files.len(),
{
    if files.len() == 0 {
        0
    } else {
        all_rows(files.drop_last()) + files.last().num_rows as int
    }
}

/// The files of the manifests, in order.
pub open spec fn manifest_files(ms: Seq<Manifest>) -> Seq<File>
    decreases ms.len(),
{
    if ms.len() == 0 {
        Seq::empty()
    } else {
        manifest_files(ms.drop_last()) + ms.last().files@
    }
}

/// Whole minutes from `start` to `end`.
pub open spec fn total_minutes(start: int, end: int) -> int {
    (end - start) / MILLIS_PER_MINUTE as int
}

/// Number of bins: `n`, and one more for the remaining minutes when `n` does
/// not divide `total`.
pub open spec fn bin_count(total: int, n: int) -> int {
    if total % n > 0 {
        n + 1
    } else {
        n
    }
}

/// Start of bin `k`: each of the first `n` bins spans `total / n` minutes.
pub open spec fn bin_lo(start: int, total: int, n: int, k: int) -> int {
    start + k * (total / n) * MILLIS_PER_MINUTE as int
}

/// End of bin `k`; the extra last bin spans the `total % n` remaining minutes.
pub open spec fn bin_hi(start: int, total: int, n: int, k: int) -> int {
    if k < n {
        start + (k + 1) * (total / n) * MILLIS_PER_MINUTE as int
    } else {
        start + (n * (total / n) + total % n) * MILLIS_PER_MINUTE as int
    }
}

/// Sum of the counts of bins `0..k`.
pub open spec fn bins_sum(files: Seq<File>, tp: Seq<char>, start: int, total: int, n: int, k: int) -> int
    decreases k,
{
    if k <= 0 {
        0
    } else {
        bins_sum(files, tp, start, total, n, k - 1) + bin_rows(
            files,
            tp,
            bin_lo(start, total, n, k - 1),
            bin_hi(start, total, n, k - 1),
            k - 1 == bin_count(total, n) - 1,
        )
    }
}

/// The bounds of a time bin, in milliseconds.
#[derive(Clone, Copy, Debug, PartialEq, Eq, Structural)]
pub struct TimeBounds {
    pub start: i64,
    pub end: i64,
}

/// Number of rows whose time falls in one bin.
#[derive(Clone, Copy, Debug, PartialEq, Eq, Structural)]
pub struct BinCount {
    pub start: i64,
    pub end: i64,
    pub count: u64,
}

/// Count of one bin, with the bin's bounds in RFC 3339.
#[derive(Debug)]
pub struct CountsRecord {
    pub start_time: String,
    pub end_time: String,
    pub count: u64,
}

/// The counts of a stream, with the fields of the stream.
#[derive(Debug)]
pub struct CountsResponse {
    pub fields: Vec<String>,
    pub records: Vec<CountsRecord>,
}

/// Request for counts of a stream between two instants.
#[derive(Debug)]
pub struct CountsRequest {
    pub stream: String,
    /// Included start, RFC 3339.
    pub start_time: String,
    /// Excluded end, RFC 3339.
    pub end_time: String,
    pub num_bins: u64,
}

/// Why a counts request was refused.
#[derive(Debug, PartialEq, Eq)]
pub enum QueryError {
    /// The start or end time (the text given) is not a date-time.
    TimeParse(String),
    /// The end time is not after the start time.
    EmptyRange,
    /// An instant lies too far from the epoch.
    OutOfRange,
    /// The rows of the manifests do not fit a 64-bit count.
    CountOverflow,
}

proof fn lemma_bin_step(total: int, n: int, k: int)
    requires
        n >= 1,
        total >= 0,
        0 <= k < n,
    ensures
        0 <= (k + 1) * (total / n) <= total,
        (k + 1) * (total / n) * 60000 == k * (total / n) * 60000 + (total / n) * 60000,
        0 <= k * (total / n),
        n * (total / n) + total % n == total,
{
    let q = total / n;
    assert(total == n * q + total % n) by {
        vstd::arithmetic::div_mod::lemma_fundamental_div_mod(total, n);
    }
    assert(0 <= total % n) by {
        vstd::arithmetic::div_mod::lemma_mod_pos_bound(total, n);
    }
    assert(q >= 0) by {
        vstd::arithmetic::div_mod::lemma_div_pos_is_pos(total, n);
    }
    assert((k + 1) * q <= n * q) by (nonlinear_arith)
        requires
            k + 1 <= n,
            q >= 0,
    ;
    assert(0 <= (k + 1) * q) by (nonlinear_arith)
        requires
            k + 1 >= 0,
            q >= 0,
    ;
    assert(0 <= k * q) by (nonlinear_arith)
        requires
            k >= 0,
            q >= 0,
    ;
    assert((k + 1) * q * 60000 == k * q * 60000 + q * 60000) by (nonlinear_arith);
}

impl CountsRequest {
    /// The bins of `[start, end)`: `num_bins` bins of `total / num_bins`
    /// minutes each from `start`, then, when minutes remain, one bin of the
    /// remaining minutes.
    pub fn get_bounds(&self, start: i64, end: i64) -> (r: Vec<TimeBounds>)
        requires
            start < end,
            self.num_bins >= 1,
            in_time_range(start as int),
            in_time_range(end as int),
        ensures
            r@.len() == bin_count(total_minutes(start as int, end as int), self.num_bins as int),
            forall|k: int|
                0 <= k < r@.len() ==> {
                    &&& #[trigger] r@[k].start == bin_lo(
                        start as int,
                        total_minutes(start as int, end as int),
                        self.num_bins as int,
                        k,
                    )
                    &&& r@[k].end == bin_hi(
                        start as int,
                        total_minutes(start as int, end as int),
                        self.num_bins as int,
                        k,
                    )
                    &&& start <= r@[k].start <= r@[k].end <= end
                },
    {
        let ghost total = total_minutes(start as int, end as int);
        let ghost n = self.num_bins as int;
        let total_minutes: u64 = ((end - start) / MILLIS_PER_MINUTE) as u64;
        assert(total_minutes as int == total);
        assert(total * 60000 <= end - start) by (nonlinear_arith)
            requires
                total == (end - start) / 60000,
                end - start > 0,
        ;
        let quotient = total_minutes / self.num_bins;
        let remainder = total_minutes % self.num_bins;
        let mut bounds: Vec<TimeBounds> = Vec::new();
        let mut lo: i64 = start;
        let mut k: u64 = 0;
        while k < self.num_bins
            invariant
                k <= n,
                start < end,
                in_time_range(start as int),
                in_time_range(end as int),
                n == self.num_bins as int,
                n >= 1,
                total >= 0,
                total * 60000 <= end - start,
                quotient as int == total / n,
                remainder as int == total % n,
                lo as int == bin_lo(start as int, total, n, k as int),
                start <= lo <= start + total * 60000,
                bounds@.len() == k,
                forall|j: int|
                    0 <= j < k ==> {
                        &&& #[trigger] bounds@[j].start == bin_lo(start as int, total, n, j)
                        &&& bounds@[j].end == bin_hi(start as int, total, n, j)
                        &&& start <= bounds@[j].start <= bounds@[j].end <= end
                    },
            decreases n - k,
        {
            proof {
                lemma_bin_step(total, n, k as int);
                assert(total / n <= (k as int + 1) * (total / n)) by (nonlinear_arith)
                    requires
                        k >= 0,
                        total / n >= 0,
                ;
                assert((total / n) * 60000 <= total * 60000) by (nonlinear_arith)
                    requires
                        total / n <= total,
                ;
                assert(0 <= (total / n) * 60000) by (nonlinear_arith)
                    requires
                        total / n >= 0,
                ;
                assert((k as int + 1) * (total / n) * 60000 <= total * 60000) by (nonlinear_arith)
                    requires
                        (k as int + 1) * (total / n) <= total,
                ;
            }
            let hi: i64 = lo + (quotient as i64) * MILLIS_PER_MINUTE;
            bounds.push(TimeBounds { start: lo, end: hi });
            lo = hi;
            k = k + 1;
        }
        if remainder > 0 {
            proof {
                lemma_bin_step(total, n, n - 1);
                assert(total * 60000 == n * (total / n) * 60000 + (total % n) * 60000) by (nonlinear_arith)
                    requires
                        n * (total / n) + total % n == total,
                ;
                assert(n * (total / n) * 60000 == (n - 1 + 1) * (total / n) * 60000);
                assert(0 <= (total % n) * 60000) by (nonlinear_arith)
                    requires
                        total % n >= 0,
                ;
            }
            let hi: i64 = lo + (remainder as i64) * MILLIS_PER_MINUTE;
            bounds.push(TimeBounds { start: lo, end: hi });
        }
        bounds
    }
}


proof fn lemma_all_rows_append(a: Seq<File>, b: Seq<File>)
    ensures
        all_rows(a + b) == all_rows(a) + all_rows(b),
    decreases b.len(),
{
    if b.len() == 0 {
        assert(a + b =~= a);
    } else {
        lemma_all_rows_append(a, b.drop_last());
        assert((a + b).drop_last() =~= a + b.drop_last());
    }
}

proof fn lemma_rows_in_closed_bounds(s: Seq<File>, tp: Seq<char>, lo: int, hi: int)
    ensures
        0 <= rows_in_closed(s, tp, lo, hi) <= all_rows(s),
    decreases s.len(),
{
    if s.len() > 0 {
        lemma_rows_in_closed_bounds(s.drop_last(), tp, lo, hi);
    }
}

proof fn lemma_rows_in_bounds(s: Seq<File>, tp: Seq<char>, lo: int, hi: int)
    ensures
        0 <= rows_in(s, tp, lo, hi) <= all_rows(s),
    decreases s.len(),
{
    if s.len() > 0 {
        lemma_rows_in_bounds(s.drop_last(), tp, lo, hi);
    }
}

proof fn lemma_files_append(a: Seq<Manifest>, b: Seq<Manifest>)
    ensures
        manifest_files(a + b) == manifest_files(a) + manifest_files(b),
    decreases b.len(),
{
    if b.len() == 0 {
        assert(a + b =~= a);
        assert(manifest_files(a) + manifest_files(b) =~= manifest_files(a));
    } else {
        lemma_files_append(a, b.drop_last());
        assert((a + b).drop_last() =~= a + b.drop_last());
        assert(manifest_files(a + b) =~= manifest_files(a) + manifest_files(b));
    }
}

proof fn lemma_files_step(ms: Seq<Manifest>, i: int)
    requires
        0 <= i < ms.len(),
    ensures
        manifest_files(ms.subrange(0, i + 1)) == manifest_files(ms.subrange(0, i)) + ms[i].files@,
{
    assert(ms.subrange(0, i + 1).drop_last() =~= ms.subrange(0, i));
}

/// The rows of a prefix of the files of `ms` are at most those of all its files.
proof fn lemma_prefix_rows(ms: Seq<Manifest>, i: int, j: int)
    requires
        0 <= i < ms.len(),
        0 <= j <= ms[i].files@.len(),
    ensures
        all_rows(manifest_files(ms.subrange(0, i)) + ms[i].files@.subrange(0, j)) <= all_rows(
            manifest_files(ms),
        ),
{
    let files = ms[i].files@;
    let pre = manifest_files(ms.subrange(0, i)) + files.subrange(0, j);
    let rest = manifest_files(ms.subrange(i + 1, ms.len() as int));
    assert(ms =~= ms.subrange(0, i + 1) + ms.subrange(i + 1, ms.len() as int));
    lemma_files_append(ms.subrange(0, i + 1), ms.subrange(i + 1, ms.len() as int));
    lemma_files_step(ms, i);
    assert(files =~= files.subrange(0, j) + files.subrange(j, files.len() as int));
    assert(manifest_files(ms) =~= pre + (files.subrange(j, files.len() as int) + rest));
    lemma_all_rows_append(pre, files.subrange(j, files.len() as int) + rest);
    lemma_rows_in_bounds(files.subrange(j, files.len() as int) + rest, Seq::empty(), 0, 0);
}

/// The minimum of the file's time column `tp`, when it has integer statistics.
pub fn file_partition_min(f: &File, tp: &String) -> (r: Option<i64>)
    ensures
        r == partition_min(*f, tp@),
{
    let ghost cols = f.columns@;
    assert(cols.subrange(0, cols.len() as int) =~= cols);
    let mut i: usize = 0;
    while i < f.columns.len()
        invariant
            cols == f.columns@,
            i <= cols.len(),
            first_named(cols, tp@) == first_named(cols.subrange(i as int, cols.len() as int), tp@),
        decreases cols.len() - i,
    {
        let c = &f.columns[i];
        proof {
            let s = cols.subrange(i as int, cols.len() as int);
            assert(s[0] == cols[i as int]);
            assert(s.drop_first() =~= cols.subrange(i as int + 1, cols.len() as int));
        }
        if c.name == *tp {
            return match &c.stats {
                Some(TypedStatistics::Int(s)) => Some(s.min),
                _ => None,
            };
        }
        i = i + 1;
    }
    None
}

/// Rows of the files of `manifests` whose time minimum lies in `[lo, hi)`,
/// or in `[lo, hi]` when `closed_end` holds.
pub fn rows_between(manifests: &Vec<Manifest>, tp: &String, lo: i64, hi: i64, closed_end: bool) -> (r: u64)
    requires
        all_rows(manifest_files(manifests@)) <= u64::MAX,
    ensures
        r == bin_rows(manifest_files(manifests@), tp@, lo as int, hi as int, closed_end),
{
    let ghost ms = manifests@;
    let mut count: u64 = 0;
    let mut i: usize = 0;
    while i < manifests.len()
        invariant
            ms == manifests@,
            i <= ms.len(),
            all_rows(manifest_files(ms)) <= u64::MAX,
            count == bin_rows(manifest_files(ms.subrange(0, i as int)), tp@, lo as int, hi as int, closed_end),
        decreases ms.len() - i,
    {
        let files = &manifests[i].files;
        let ghost before = manifest_files(ms.subrange(0, i as int));
        let mut j: usize = 0;
        proof {
            assert(files@.subrange(0, 0) =~= Seq::<File>::empty());
            assert(before + files@.subrange(0, 0) =~= before);
        }
        while j < files.len()
            invariant
                ms == manifests@,
                i < ms.len(),
                files@ == ms[i as int].files@,
                before == manifest_files(ms.subrange(0, i as int)),
                j <= files@.len(),
                all_rows(manifest_files(ms)) <= u64::MAX,
                count == bin_rows(before + files@.subrange(0, j as int), tp@, lo as int, hi as int, closed_end),
            decreases files@.len() - j,
        {
            let f = &files[j];
            let ghost pre = before + files@.subrange(0, j as int + 1);
            proof {
                assert(pre.drop_last() =~= before + files@.subrange(0, j as int));
                assert(pre.last() == files@[j as int]);
                lemma_prefix_rows(ms, i as int, j as int + 1);
                lemma_rows_in_bounds(pre, tp@, lo as int, hi as int);
                lemma_rows_in_closed_bounds(pre, tp@, lo as int, hi as int);
            }
            match file_partition_min(f, tp) {
                Some(m) => {
                    if lo <= m && (m < hi || (closed_end && m == hi)) {
                        count = count + f.num_rows;
                    }
                },
                None => {},
            }
            j = j + 1;
        }
        proof {
            assert(files@.subrange(0, j as int) =~= files@);
            lemma_files_step(ms, i as int);
        }
        i = i + 1;
    }
    assert(ms.subrange(0, i as int) =~= ms);
    count
}


/// Rows of all files of `manifests`, or `None` when they do not fit a `u64`.
pub fn total_rows(manifests: &Vec<Manifest>) -> (r: Option<u64>)
    ensures
        r matches Some(t) ==> t == all_rows(manifest_files(manifests@)),
        r is None <==> all_rows(manifest_files(manifests@)) > u64::MAX,
{
    let ghost ms = manifests@;
    let mut total: u64 = 0;
    let mut i: usize = 0;
    while i < manifests.len()
        invariant
            ms == manifests@,
            i <= ms.len(),
            total == all_rows(manifest_files(ms.subrange(0, i as int))),
        decreases ms.len() - i,
    {
        let files = &manifests[i].files;
        let ghost before = manifest_files(ms.subrange(0, i as int));
        let mut j: usize = 0;
        proof {
            assert(before + files@.subrange(0, 0) =~= before);
        }
        while j < files.len()
            invariant
                ms == manifests@,
                i < ms.len(),
                files@ == ms[i as int].files@,
                before == manifest_files(ms.subrange(0, i as int)),
                j <= files@.len(),
                total == all_rows(before + files@.subrange(0, j as int)),
            decreases files@.len() - j,
        {
            let ghost pre = before + files@.subrange(0, j as int + 1);
            proof {
                assert(pre.drop_last() =~= before + files@.subrange(0, j as int));
                lemma_prefix_rows(ms, i as int, j as int + 1);
            }
            match total.checked_add(files[j].num_rows) {
                Some(t) => {
                    total = t;
                },
                None => {
                    return None;
                },
            }
            j = j + 1;
        }
        proof {
            assert(files@.subrange(0, j as int) =~= files@);
            lemma_files_step(ms, i as int);
        }
        i = i + 1;
    }
    assert(ms.subrange(0, i as int) =~= ms);
    Some(total)
}

impl CountsRequest {
    /// Counts of each bin of the range (see `get_bounds`): the rows of the
    /// files whose time column `tp` has its minimum in the bin, each bin
    /// half-open but the last, which also holds its end.
    pub fn bin_counts(&self, start: i64, end: i64, manifests: &Vec<Manifest>, tp: &String) -> (r: Vec<
        BinCount,
    >)
        requires
            start < end,
            self.num_bins >= 1,
            in_time_range(start as int),
            in_time_range(end as int),
            all_rows(manifest_files(manifests@)) <= u64::MAX,
        ensures
            r@.len() == bin_count(total_minutes(start as int, end as int), self.num_bins as int),
            forall|k: int|
                0 <= k < r@.len() ==> {
                    &&& #[trigger] r@[k].start == bin_lo(
                        start as int,
                        total_minutes(start as int, end as int),
                        self.num_bins as int,
                        k,
                    )
                    &&& r@[k].end == bin_hi(
                        start as int,
                        total_minutes(start as int, end as int),
                        self.num_bins as int,
                        k,
                    )
                    &&& start <= r@[k].start <= r@[k].end <= end
                    &&& r@[k].count == bin_rows(
                        manifest_files(manifests@),
                        tp@,
                        r@[k].start as int,
                        r@[k].end as int,
                        k == r@.len() - 1,
                    )
                },
    {
        let bounds = self.get_bounds(start, end);
        let mut out: Vec<BinCount> = Vec::new();
        let mut k: usize = 0;
        while k < bounds.len()
            invariant
                k <= bounds@.len(),
                out@.len() == k,
                all_rows(manifest_files(manifests@)) <= u64::MAX,
                forall|j: int|
                    0 <= j < k ==> {
                        &&& #[trigger] out@[j].start == bounds@[j].start
                        &&& out@[j].end == bounds@[j].end
                        &&& out@[j].count == bin_rows(
                            manifest_files(manifests@),
                            tp@,
                            out@[j].start as int,
                            out@[j].end as int,
                            j == bounds@.len() - 1,
                        )
                    },
            decreases bounds@.len() - k,
        {
            let b = bounds[k];
            let count = rows_between(manifests, tp, b.start, b.end, k + 1 == bounds.len());
            out.push(BinCount { start: b.start, end: b.end, count });
            k = k + 1;
        }
        out
    }

    /// The start and end instants of the request.
    pub fn time_range(&self) -> (r: Result<(i64, i64), QueryError>)
        ensures
            match (parsed_millis(self.start_time@), parsed_millis(self.end_time@)) {
                (Some(s), Some(e)) => r == Ok::<(i64, i64), QueryError>((s, e)),
                (None, _) => r is Err && r->Err_0 is TimeParse && r->Err_0->TimeParse_0@ == self.start_time@,
                (Some(_), None) => r is Err && r->Err_0 is TimeParse && r->Err_0->TimeParse_0@ == self.end_time@,
            },
    {
        let start = match parse_utc_millis(self.start_time.as_str()) {
            Some(t) => t,
            None => {
                return Err(QueryError::TimeParse(self.start_time.clone()));
            },
        };
        match parse_utc_millis(self.end_time.as_str()) {
            Some(end) => Ok((start, end)),
            None => Err(QueryError::TimeParse(self.end_time.clone())),
        }
    }

    /// Counts of each bin of the request's time range, with the bins' bounds
    /// in RFC 3339; `time_partition` names the stream's time column, if any.
    pub fn get_bin_density(&self, manifests: &Vec<Manifest>, time_partition: &Option<String>) -> (r:
        Result<Vec<CountsRecord>, QueryError>)
        requires
            self.num_bins >= 1,
        ensures
            parsed_millis(self.start_time@) is None ==> r is Err && r->Err_0 is TimeParse
                && r->Err_0->TimeParse_0@ == self.start_time@,
            parsed_millis(self.start_time@) is Some && parsed_millis(self.end_time@) is None ==> r is Err
                && r->Err_0 is TimeParse && r->Err_0->TimeParse_0@ == self.end_time@,
            parsed_millis(self.start_time@) matches Some(s) ==> parsed_millis(self.end_time@) matches Some(
                e,
            ) ==> {
                let total = total_minutes(s as int, e as int);
                let n = self.num_bins as int;
                let files = manifest_files(manifests@);
                let tp = time_column(
                    match *time_partition {
                        Some(t) => Some(t@),
                        None => None,
                    },
                );
                &&& e <= s ==> r == Err::<Vec<CountsRecord>, QueryError>(QueryError::EmptyRange)
                &&& s < e && !(in_time_range(s as int) && in_time_range(e as int)) ==> r == Err::<
                    Vec<CountsRecord>,
                    QueryError,
                >(QueryError::OutOfRange)
                &&& s < e && in_time_range(s as int) && in_time_range(e as int) && all_rows(files)
                    > u64::MAX ==> r == Err::<Vec<CountsRecord>, QueryError>(QueryError::CountOverflow)
                &&& s < e && in_time_range(s as int) && in_time_range(e as int) && all_rows(files)
                    <= u64::MAX ==> r is Ok && r->Ok_0@.len() == bin_count(total, n) && forall|k: int|
                    0 <= k < bin_count(total, n) ==> {
                        &&& (#[trigger] r->Ok_0@[k]).start_time@ == rfc3339_text(
                            bin_lo(s as int, total, n, k),
                        )
                        &&& r->Ok_0@[k].end_time@ == rfc3339_text(bin_hi(s as int, total, n, k))
                        &&& r->Ok_0@[k].count == bin_rows(
                            files,
                            tp,
                            bin_lo(s as int, total, n, k),
                            bin_hi(s as int, total, n, k),
                            k == bin_count(total, n) - 1,
                        )
                    }
            },
    {
        let start = match parse_utc_millis(self.start_time.as_str()) {
            Some(t) => t,
            None => {
                return Err(QueryError::TimeParse(self.start_time.clone()));
            },
        };
        let end = match parse_utc_millis(self.end_time.as_str()) {
            Some(t) => t,
            None => {
                return Err(QueryError::TimeParse(self.end_time.clone()));
            },
        };
        if end <= start {
            return Err(QueryError::EmptyRange);
        }
        if start < -MAX_MILLIS || start > MAX_MILLIS || end < -MAX_MILLIS || end > MAX_MILLIS {
            return Err(QueryError::OutOfRange);
        }
        if total_rows(manifests).is_none() {
            return Err(QueryError::CountOverflow);
        }
        let tp = match time_partition {
            Some(t) => t.clone(),
            None => String::from_str(DEFAULT_TIMESTAMP_KEY),
        };
        let bins = self.bin_counts(start, end, manifests, &tp);
        let mut records: Vec<CountsRecord> = Vec::new();
        let mut k: usize = 0;
        while k < bins.len()
            invariant
                k <= bins@.len(),
                records@.len() == k,
                forall|j: int|
                    0 <= j < bins@.len() ==> start <= (#[trigger] bins@[j]).start <= bins@[j].end <= end,
                in_time_range(start as int),
                in_time_range(end as int),
                forall|j: int|
                    0 <= j < k ==> {
                        &&& (#[trigger] records@[j]).start_time@ == rfc3339_text(bins@[j].start as int)
                        &&& records@[j].end_time@ == rfc3339_text(bins@[j].end as int)
                        &&& records@[j].count == bins@[j].count
                    },
            decreases bins@.len() - k,
        {
            let b = bins[k];
            records.push(
                CountsRecord { start_time: rfc3339(b.start), end_time: rfc3339(b.end), count: b.count },
            );
            k = k + 1;
        }
        Ok(records)
    }
}


proof fn lemma_rows_in_split(files: Seq<File>, tp: Seq<char>, lo: int, mid: int, hi: int)
    requires
        lo <= mid <= hi,
    ensures
        rows_in(files, tp, lo, mid) + rows_in(files, tp, mid, hi) == rows_in(files, tp, lo, hi),
    decreases files.len(),
{
    if files.len() > 0 {
        lemma_rows_in_split(files.drop_last(), tp, lo, mid, hi);
    }
}

proof fn lemma_rows_in_empty(files: Seq<File>, tp: Seq<char>, lo: int)
    ensures
        rows_in(files, tp, lo, lo) == 0,
    decreases files.len(),
{
    if files.len() > 0 {
        lemma_rows_in_empty(files.drop_last(), tp, lo);
    }
}

proof fn lemma_rows_split_closed(files: Seq<File>, tp: Seq<char>, lo: int, mid: int, hi: int)
    requires
        lo <= mid <= hi,
    ensures
        rows_in(files, tp, lo, mid) + rows_in_closed(files, tp, mid, hi) == rows_in_closed(files, tp, lo, hi),
    decreases files.len(),
{
    if files.len() > 0 {
        lemma_rows_split_closed(files.drop_last(), tp, lo, mid, hi);
    }
}

proof fn lemma_bins_prefix(files: Seq<File>, tp: Seq<char>, start: int, total: int, n: int, k: int)
    requires
        n >= 1,
        total >= 0,
        0 <= k <= n,
        k <= bin_count(total, n) - 1,
    ensures
        bins_sum(files, tp, start, total, n, k) == rows_in(files, tp, start, bin_lo(start, total, n, k)),
        start <= bin_lo(start, total, n, k),
    decreases k,
{
    let q = total / n;
    assert(q >= 0) by {
        vstd::arithmetic::div_mod::lemma_div_pos_is_pos(total, n);
    }
    if k == 0 {
        assert(0 * q * 60000 == 0);
        assert(bin_lo(start, total, n, 0) == start);
        lemma_rows_in_empty(files, tp, start);
    } else {
        lemma_bins_prefix(files, tp, start, total, n, k - 1);
        assert(0 <= q * 60000) by (nonlinear_arith)
            requires
                q >= 0,
        ;
        assert(k * q * 60000 == (k - 1) * q * 60000 + q * 60000) by (nonlinear_arith);
        assert((k - 1 + 1) * q * 60000 == k * q * 60000);
        assert(bin_hi(start, total, n, k - 1) == bin_lo(start, total, n, k));
        assert(k - 1 != bin_count(total, n) - 1);
        lemma_rows_in_split(
            files,
            tp,
            start,
            bin_lo(start, total, n, k - 1),
            bin_lo(start, total, n, k),
        );
    }
}

/// The bins of a range share out the rows of the files whose time minimum
/// lies in `[start, end]`: each bin is half-open but the last, which is closed
/// at `end`, so the counts of all bins add up to them. This holds when the
/// range is a whole number of minutes, since the bins cover whole minutes.
pub proof fn lemma_bin_counts_sum(files: Seq<File>, tp: Seq<char>, start: i64, end: i64, n: int)
    requires
        start < end,
        n >= 1,
        (end - start) % (MILLIS_PER_MINUTE as int) == 0,
    ensures
        bins_sum(
            files,
            tp,
            start as int,
            total_minutes(start as int, end as int),
            n,
            bin_count(total_minutes(start as int, end as int), n),
        ) == rows_in_closed(files, tp, start as int, end as int),
{
    let total = total_minutes(start as int, end as int);
    let q = total / n;
    let c = bin_count(total, n);
    assert(end - start == total * 60000) by {
        vstd::arithmetic::div_mod::lemma_fundamental_div_mod(end - start, 60000);
    }
    assert(total >= 0);
    assert(total == n * q + total % n) by {
        vstd::arithmetic::div_mod::lemma_fundamental_div_mod(total, n);
    }
    assert(0 <= total % n) by {
        vstd::arithmetic::div_mod::lemma_mod_pos_bound(total, n);
    }
    assert(q >= 0) by {
        vstd::arithmetic::div_mod::lemma_div_pos_is_pos(total, n);
    }
    lemma_bins_prefix(files, tp, start as int, total, n, c - 1);
    assert(total * 60000 == n * q * 60000 + (total % n) * 60000) by (nonlinear_arith)
        requires
            total == n * q + total % n,
    ;
    if total % n > 0 {
        assert(c - 1 == n);
        assert(bin_hi(start as int, total, n, n) == end);
        assert(0 <= (total % n) * 60000) by (nonlinear_arith)
            requires
                total % n >= 0,
        ;
    } else {
        assert(c - 1 == n - 1);
        assert((n - 1 + 1) * q * 60000 == n * q * 60000);
        assert(bin_hi(start as int, total, n, n - 1) == end);
        assert((n - 1 + 1) * q * 60000 == (n - 1) * q * 60000 + q * 60000) by (nonlinear_arith);
        assert(0 <= q * 60000) by (nonlinear_arith)
            requires
                q >= 0,
        ;
    }
    lemma_rows_split_closed(files, tp, start as int, bin_lo(start as int, total, n, c - 1), end as int);
}

/// With one bin there is exactly one bin, `[start, start + m)` for the `m`
/// whole minutes of the range: all of `[start, end)` when the range is a whole
/// number of minutes.
pub proof fn lemma_single_bin(start: int, end: int)
    requires
        start < end,
    ensures
        bin_count(total_minutes(start, end), 1) == 1,
        bin_lo(start, total_minutes(start, end), 1, 0) == start,
        bin_hi(start, total_minutes(start, end), 1, 0) == start + total_minutes(start, end)
            * MILLIS_PER_MINUTE as int,
        (end - start) % (MILLIS_PER_MINUTE as int) == 0 ==> bin_hi(
            start,
            total_minutes(start, end),
            1,
            0,
        ) == end,
{
    let total = total_minutes(start, end);
    assert(end - start == total * 60000 + (end - start) % 60000) by {
        vstd::arithmetic::div_mod::lemma_fundamental_div_mod(end - start, 60000);
    }
}

} // verus!
