//! The query-plan decisions around the engine: which table a query reads,
//! whether a scan already filters on the time column, the time-range filter
//! put above scans that do not, and whether a plan is a bare `COUNT(*)`.

use crate::event::{time_column, DEFAULT_TIMESTAMP_KEY};
use vstd::prelude::*;
use vstd::string::*;

verus! {

/// A comparison or conjunction operator.
#[derive(Clone, Copy, Debug, PartialEq, Eq, Structural)]
pub enum Operator {
    Eq,
    Lt,
    LtEq,
    Gt,
    GtEq,
    And,
    Other,
}

/// An expression of a plan, as far as the decisions here read it.
#[derive(Debug, PartialEq)]
pub enum Expr {
    Column(String),
    Alias(Box<Expr>, String),
    BinaryExpr(Box<Expr>, Operator, Box<Expr>),
    /// A timestamp literal, in milliseconds.
    Timestamp(i64),
    Other,
}

#[derive(Debug, PartialEq)]
pub struct TableScan {
    pub table_name: String,
    pub filters: Vec<Expr>,
}

#[derive(Debug, PartialEq)]
pub struct Projection {
    pub input: Box<LogicalPlan>,
    pub expr: Vec<Expr>,
}

#[derive(Debug, PartialEq)]
pub struct Aggregate {
    pub input: Box<LogicalPlan>,
}

#[derive(Debug, PartialEq)]
pub struct Filter {
    pub predicate: Expr,
    pub input: Box<LogicalPlan>,
}

#[derive(Debug, PartialEq)]
pub struct Explain {
    pub verbose: bool,
    pub plan: Box<LogicalPlan>,
}

/// A logical plan, as far as the decisions here read it; `Other` stands for
/// any other node with its inputs.
#[derive(Debug, PartialEq)]
pub enum LogicalPlan {
    TableScan(TableScan),
    Projection(Projection),
    Aggregate(Aggregate),
    Filter(Filter),
    Explain(Explain),
    Other(Vec<LogicalPlan>),
}

/// The first table that a plan scans, visiting nodes before their inputs.
pub open spec fn first_table(p: LogicalPlan) -> Option<Seq<char>>
    decreases p,
{
    match p {
        LogicalPlan::TableScan(t) => Some(t.table_name@),
        LogicalPlan::Projection(x) => first_table(*x.input),
        LogicalPlan::Aggregate(x) => first_table(*x.input),
        LogicalPlan::Filter(x) => first_table(*x.input),
        LogicalPlan::Explain(x) => first_table(*x.plan),
        LogicalPlan::Other(inputs) => first_table_in(inputs@),
    }
}

/// The first table that some plans scan, in order.
pub open spec fn first_table_in(ps: Seq<LogicalPlan>) -> Option<Seq<char>>
    decreases ps,
{
    if ps.len() == 0 {
        None
    } else {
        match first_table(ps[0]) {
            Some(t) => Some(t),
            None => first_table_in(ps.drop_first()),
        }
    }
}

impl LogicalPlan {
    /// The first table that the plan scans.
    pub fn first_table_name(&self) -> (r: Option<String>)
        ensures
            match r {
                Some(t) => first_table(*self) == Some(t@),
                None => first_table(*self) is None,
            },
        decreases self,
    {
        match self {
            LogicalPlan::TableScan(t) => Some(t.table_name.clone()),
            LogicalPlan::Projection(x) => x.input.first_table_name(),
            LogicalPlan::Aggregate(x) => x.input.first_table_name(),
            LogicalPlan::Filter(x) => x.input.first_table_name(),
            LogicalPlan::Explain(x) => x.plan.first_table_name(),
            LogicalPlan::Other(inputs) => {
                let ghost ps = inputs@;
                assert(ps.subrange(0, ps.len() as int) =~= ps);
                let mut i: usize = 0;
                while i < inputs.len()
                    invariant
                        *self == LogicalPlan::Other(*inputs),
                        ps == inputs@,
                        i <= ps.len(),
                        first_table_in(ps) == first_table_in(ps.subrange(i as int, ps.len() as int)),
                    decreases ps.len() - i,
                {
                    proof {
                        let t = ps.subrange(i as int, ps.len() as int);
                        assert(t[0] == ps[i as int]);
                        assert(t.drop_first() =~= ps.subrange(i as int + 1, ps.len() as int));
                        assert(decreases_to!(*self => self->Other_0));
                        assert(decreases_to!(self->Other_0 => self->Other_0@));
                        assert(decreases_to!(self->Other_0@ => self->Other_0@[i as int]));
                    }
                    let found = inputs[i].first_table_name();
                    if found.is_some() {
                        return found;
                    }
                    i = i + 1;
                }
                None
            },
        }
    }
}

pub open spec fn opt_text(t: Option<String>) -> Option<Seq<char>> {
    match t {
        Some(s) => Some(s@),
        None => None,
    }
}

/// Whether a filter compares the column `col` (as its left operand).
pub open spec fn filters_on(e: Expr, col: Seq<char>) -> bool {
    match e {
        Expr::BinaryExpr(l, _, _) => match *l {
            Expr::Column(n) => n@ == col,
            _ => false,
        },
        _ => false,
    }
}

/// Whether some filter of a scan compares the column `col`.
pub open spec fn scan_filters_on(t: TableScan, col: Seq<char>) -> bool {
    exists|i: int| 0 <= i < t.filters@.len() && #[trigger] filters_on(t.filters@[i], col)
}

fn filters_on_column(table: &TableScan, col: &String) -> (r: bool)
    ensures
        r == scan_filters_on(*table, col@),
{
    let mut i: usize = 0;
    while i < table.filters.len()
        invariant
            i <= table.filters@.len(),
            forall|j: int| 0 <= j < i ==> !#[trigger] filters_on(table.filters@[j], col@),
        decreases table.filters@.len() - i,
    {
        if let Expr::BinaryExpr(l, _, _) = &table.filters[i] {
            let l: &Expr = l;
            if let Expr::Column(n) = l {
                if *n == *col {
                    assert(filters_on(table.filters@[i as int], col@));
                    return true;
                }
            }
        }
        i = i + 1;
    }
    false
}

/// The name of the time column.
pub fn time_column_name(time_partition: &Option<String>) -> (r: String)
    ensures
        r@ == time_column(opt_text(*time_partition)),
{
    match time_partition {
        Some(t) => t.clone(),
        None => String::from_str(DEFAULT_TIMESTAMP_KEY),
    }
}

/// Whether some filter of a scan compares the time column.
pub fn table_contains_any_time_filters(table: &TableScan, time_partition: &Option<String>) -> (r: bool)
    ensures
        r == scan_filters_on(*table, time_column(opt_text(*time_partition))),
{
    let col = time_column_name(time_partition);
    filters_on_column(table, &col)
}

/// `col >= lo AND col < hi`.
pub open spec fn range_predicate(col: String, lo: i64, hi: i64) -> Expr {
    Expr::BinaryExpr(
        Box::new(Expr::BinaryExpr(Box::new(Expr::Column(col)), Operator::GtEq, Box::new(Expr::Timestamp(lo)))),
        Operator::And,
        Box::new(Expr::BinaryExpr(Box::new(Expr::Column(col)), Operator::Lt, Box::new(Expr::Timestamp(hi)))),
    )
}

/// Whether `q` is `p` with every scan that does not filter on `col` put under
/// a filter keeping the rows with `lo <= col < hi`.
pub open spec fn transformed(p: LogicalPlan, q: LogicalPlan, col: String, lo: i64, hi: i64) -> bool
    decreases p,
{
    match p {
        LogicalPlan::TableScan(t) => if scan_filters_on(t, col@) {
            q == LogicalPlan::TableScan(t)
        } else {
            q == LogicalPlan::Filter(
                Filter { predicate: range_predicate(col, lo, hi), input: Box::new(LogicalPlan::TableScan(t)) },
            )
        },
        LogicalPlan::Projection(x) => q is Projection && q->Projection_0.expr == x.expr && transformed(
            *x.input,
            *q->Projection_0.input,
            col,
            lo,
            hi,
        ),
        LogicalPlan::Aggregate(x) => q is Aggregate && transformed(*x.input, *q->Aggregate_0.input, col, lo, hi),
        LogicalPlan::Filter(x) => q is Filter && q->Filter_0.predicate == x.predicate && transformed(
            *x.input,
            *q->Filter_0.input,
            col,
            lo,
            hi,
        ),
        LogicalPlan::Explain(x) => q is Explain && q->Explain_0.verbose == x.verbose && transformed(
            *x.plan,
            *q->Explain_0.plan,
            col,
            lo,
            hi,
        ),
        LogicalPlan::Other(inputs) => q is Other && q->Other_0@.len() == inputs@.len() && forall|i: int|
            0 <= i < inputs@.len() ==> transformed(#[trigger] inputs@[i], q->Other_0@[i], col, lo, hi),
    }
}

/// Puts every scan of the plan that does not already filter on the time
/// column `col` under a filter keeping the rows with `lo <= col < hi`; an
/// `EXPLAIN` keeps wrapping the transformed plan.
pub fn transform(plan: LogicalPlan, col: &String, lo: i64, hi: i64) -> (r: LogicalPlan)
    ensures
        transformed(plan, r, *col, lo, hi),
    decreases plan,
{
    match plan {
        LogicalPlan::TableScan(t) => {
            if filters_on_column(&t, col) {
                LogicalPlan::TableScan(t)
            } else {
                let predicate = Expr::BinaryExpr(
                    Box::new(
                        Expr::BinaryExpr(
                            Box::new(Expr::Column(col.clone())),
                            Operator::GtEq,
                            Box::new(Expr::Timestamp(lo)),
                        ),
                    ),
                    Operator::And,
                    Box::new(
                        Expr::BinaryExpr(
                            Box::new(Expr::Column(col.clone())),
                            Operator::Lt,
                            Box::new(Expr::Timestamp(hi)),
                        ),
                    ),
                );
                LogicalPlan::Filter(Filter { predicate, input: Box::new(LogicalPlan::TableScan(t)) })
            }
        },
        LogicalPlan::Projection(x) => {
            let Projection { input, expr } = x;
            LogicalPlan::Projection(Projection { input: Box::new(transform(*input, col, lo, hi)), expr })
        },
        LogicalPlan::Aggregate(x) => {
            let Aggregate { input } = x;
            LogicalPlan::Aggregate(Aggregate { input: Box::new(transform(*input, col, lo, hi)) })
        },
        LogicalPlan::Filter(x) => {
            let Filter { predicate, input } = x;
            LogicalPlan::Filter(Filter { predicate, input: Box::new(transform(*input, col, lo, hi)) })
        },
        LogicalPlan::Explain(x) => {
            let Explain { verbose, plan: inner } = x;
            LogicalPlan::Explain(Explain { verbose, plan: Box::new(transform(*inner, col, lo, hi)) })
        },
        LogicalPlan::Other(inputs) => {
            let ghost orig = inputs@;
            let mut rest = inputs;
            let mut out: Vec<LogicalPlan> = Vec::new();
            while rest.len() > 0
                invariant
                    plan == LogicalPlan::Other(plan->Other_0),
                    orig == plan->Other_0@,
                    out@.len() + rest@.len() == orig.len(),
                    rest@ == orig.subrange(out@.len() as int, orig.len() as int),
                    forall|i: int| 0 <= i < out@.len() ==> transformed(#[trigger] orig[i], out@[i], *col, lo, hi),
                decreases rest@.len(),
            {
                let ghost k = out@.len() as int;
                let x = rest.remove(0);
                proof {
                    assert(x == orig[k]);
                    assert(decreases_to!(plan => plan->Other_0));
                    assert(decreases_to!(plan->Other_0 => plan->Other_0@));
                    assert(decreases_to!(plan->Other_0@ => plan->Other_0@[k]));
                }
                let y = transform(x, col, lo, hi);
                out.push(y);
                proof {
                    assert(rest@ =~= orig.subrange(out@.len() as int, orig.len() as int));
                }
            }
            LogicalPlan::Other(out)
        },
    }
}

/// The plan to run for a query over `[lo, hi)`: every scan without a filter
/// on the time column gets the time-range filter.
pub fn final_logical_plan(plan: LogicalPlan, time_partition: &Option<String>, lo: i64, hi: i64) -> (r:
    LogicalPlan)
    ensures
        exists|col: String|
            col@ == time_column(opt_text(*time_partition)) && #[trigger] transformed(plan, r, col, lo, hi),
{
    let col = time_column_name(time_partition);
    transform(plan, &col, lo, hi)
}

/// For a projection of one expression over an aggregate over a scan: the
/// column that the expression reads and the name it is answered under (the
/// alias, if any).
pub open spec fn count_candidate(p: LogicalPlan) -> Option<(Seq<char>, Seq<char>)> {
    match p {
        LogicalPlan::Projection(x) => match *x.input {
            LogicalPlan::Aggregate(a) => match *a.input {
                LogicalPlan::TableScan(_) => if x.expr@.len() == 1 {
                    match x.expr@[0] {
                        Expr::Column(n) => Some((n@, n@)),
                        Expr::Alias(inner, name) => match *inner {
                            Expr::Column(n) => Some((n@, name@)),
                            _ => None,
                        },
                        _ => None,
                    }
                } else {
                    None
                },
                _ => None,
            },
            _ => None,
        },
        _ => None,
    }
}

/// The lower-case form of a text.
pub uninterp spec fn lower_of(s: Seq<char>) -> Seq<char>;

/// Relies on `str::to_lowercase` of std: the result depends on the text alone.
#[verifier::external_body]
fn lowercase(s: &str) -> (r: String)
    ensures
        r@ == lower_of(s@),
{
    s.to_lowercase()
}

/// The answer name of a bare count, given the lower-case form of the column
/// that its expression reads.
pub fn answer_if_count(lowered_column: &String, answer: String) -> (r: Option<String>)
    ensures
        r == (if lowered_column@ == "count(*)"@ {
            Some(answer)
        } else {
            None
        }),
{
    proof {
        reveal_strlit("count(*)");
    }
    if *lowered_column == String::from_str("count(*)") {
        Some(answer)
    } else {
        None
    }
}

impl LogicalPlan {
    /// The column read and the answer name of a plan shaped as a bare count
    /// (see `count_candidate`).
    pub fn count_candidate(&self) -> (r: Option<(String, String)>)
        ensures
            match r {
                Some((c, n)) => count_candidate(*self) == Some((c@, n@)),
                None => count_candidate(*self) is None,
            },
    {
        if let LogicalPlan::Projection(x) = self {
            let input: &LogicalPlan = &x.input;
            if let LogicalPlan::Aggregate(a) = input {
                let inner: &LogicalPlan = &a.input;
                if let LogicalPlan::TableScan(_) = inner {
                    if x.expr.len() == 1 {
                        return match &x.expr[0] {
                            Expr::Column(n) => Some((n.clone(), n.clone())),
                            Expr::Alias(e, name) => {
                                let e: &Expr = e;
                                match e {
                                    Expr::Column(n) => Some((n.clone(), name.clone())),
                                    _ => None,
                                }
                            },
                            _ => None,
                        };
                    }
                }
            }
        }
        None
    }

    /// The name under which a plan answers `SELECT COUNT(*)` (or `COUNT(*) AS
    /// name`) over one table with no filter.
    pub fn is_logical_plan_count_without_filters(&self) -> (r: Option<String>)
        ensures
            match count_candidate(*self) {
                Some((c, n)) => if lower_of(c) == "count(*)"@ {
                    r is Some && r->0@ == n
                } else {
                    r is None
                },
                None => r is None,
            },
    {
        match self.count_candidate() {
            Some((c, n)) => answer_if_count(&lowercase(c.as_str()), n),
            None => None,
        }
    }
}

/// The memory that the query engine may use: `percent` hundredths of `size`
/// bytes.
#[derive(Clone, Copy, Debug, PartialEq, Eq, Structural)]
pub struct MemoryPool {
    pub size: usize,
    pub percent: u8,
}

/// The query memory pool: all of a configured size, else 85% of the memory
/// available on the host.
pub fn memory_pool(configured: Option<usize>, available: usize) -> (r: MemoryPool)
    ensures
        r == (match configured {
            Some(size) => MemoryPool { size, percent: 100 },
            None => MemoryPool { size: available, percent: 85 },
        }),
{
    match configured {
        Some(size) => MemoryPool { size, percent: 100 },
        None => MemoryPool { size: available, percent: 85 },
    }
}

} // verus!
