//! Conversion of flattened JSON rows into a columnar batch: one column per
//! leaf, typed by the stream schema or inferred from the first non-null
//! value, plus the reserved timestamp, tags and metadata columns.

use crate::flatten::{
    cell, cell_of, event_rows, keys_of_row, keys_of_rows, lemma_keys_of_rows, lemma_top_rows_len,
    lemma_top_rows_non_object, lookup, row_keys, view_rows, Entries, Row,
};
use crate::json::{lemma_view_values, lemma_view_values_push, view_value, view_values, Json, JsonValue};
use crate::text::{
    lemma_text_lt_irreflexive, lemma_text_lt_total, lemma_text_lt_transitive, strictly_sorted,
    text_less, text_lt,
};
use vstd::prelude::*;
use vstd::string::*;

verus! {

/// Column holding the time at which a batch was ingested.
pub const DEFAULT_TIMESTAMP_KEY: &'static str = "p_timestamp";

/// Column holding the event's tags.
pub const DEFAULT_TAGS_KEY: &'static str = "p_tags";

/// Column holding the event's metadata.
pub const DEFAULT_METADATA_KEY: &'static str = "p_metadata";

/// The column that holds the time of the rows: the stream's time partition,
/// or the default timestamp column.
pub open spec fn time_column(time_partition: Option<Seq<char>>) -> Seq<char> {
    match time_partition {
        Some(t) => t,
        None => DEFAULT_TIMESTAMP_KEY@,
    }
}

/// Logical type of a column.
#[derive(Debug, PartialEq)]
pub enum DataType {
    Null,
    Boolean,
    Int64,
    Float64,
    Utf8,
    TimestampMs,
    Struct,
    List(Box<DataType>),
}

/// A named, typed column of a schema.
#[derive(Debug, PartialEq)]
pub struct Field {
    pub name: String,
    pub data_type: DataType,
}

/// The type of a JSON value; an array's element type is that of its first
/// non-null element.
pub open spec fn type_of(v: Json) -> DataType
    decreases v,
{
    match v {
        Json::Null => DataType::Null,
        Json::Bool(_) => DataType::Boolean,
        Json::Int(_) => DataType::Int64,
        Json::UInt(_) => DataType::Float64,
        Json::Float(_) => DataType::Float64,
        Json::Str(_) => DataType::Utf8,
        Json::Object(_) => DataType::Struct,
        Json::Array(a) => DataType::List(Box::new(elem_type(a))),
    }
}

/// The type of the first non-null value of `a`, or `Null`.
pub open spec fn elem_type(a: Seq<Json>) -> DataType
    decreases a,
{
    if a.len() == 0 {
        DataType::Null
    } else if a[0] is Null {
        elem_type(a.drop_first())
    } else {
        type_of(a[0])
    }
}

/// Whether a value may stand in a column of type `t`; null may stand anywhere.
pub open spec fn valid_for(v: Json, t: DataType) -> bool
    decreases v,
{
    match v {
        Json::Null => true,
        Json::Bool(_) => t == DataType::Boolean,
        Json::Int(_) => t == DataType::Int64 || t == DataType::TimestampMs,
        Json::UInt(_) => t == DataType::Float64 || t == DataType::TimestampMs,
        Json::Float(_) => t == DataType::Float64,
        Json::Str(_) => t == DataType::Utf8 || t == DataType::TimestampMs,
        Json::Object(_) => t == DataType::Struct,
        Json::Array(a) => match t {
            DataType::List(e) => all_valid_for(a, *e),
            _ => false,
        },
    }
}

/// Whether every value of `a` may stand in a column of type `t`.
pub open spec fn all_valid_for(a: Seq<Json>, t: DataType) -> bool
    decreases a,
{
    if a.len() == 0 {
        true
    } else {
        valid_for(a.last(), t) && all_valid_for(a.drop_last(), t)
    }
}

/// The type that the schema gives to a field name.
pub open spec fn schema_type(schema: Seq<Field>, k: Seq<char>) -> Option<DataType>
    decreases schema.len(),
{
    if schema.len() == 0 {
        None
    } else if schema[0].name@ == k {
        Some(schema[0].data_type)
    } else {
        schema_type(schema.drop_first(), k)
    }
}

/// The type of the first non-null value of leaf `k` over the rows, or `Null`.
pub open spec fn inferred_type(rows: Seq<Row>, k: Seq<char>) -> DataType
    decreases rows.len(),
{
    if rows.len() == 0 {
        DataType::Null
    } else if cell(rows[0], k) is Null {
        inferred_type(rows.drop_first(), k)
    } else {
        type_of(cell(rows[0], k))
    }
}

/// The type of a leaf's column: the schema's, else the inferred one.
pub open spec fn field_type(schema: Seq<Field>, rows: Seq<Row>, k: Seq<char>) -> DataType {
    match schema_type(schema, k) {
        Some(t) => t,
        None => inferred_type(rows, k),
    }
}

pub open spec fn is_reserved(k: Seq<char>) -> bool {
    k == DEFAULT_TIMESTAMP_KEY@ || k == DEFAULT_TAGS_KEY@ || k == DEFAULT_METADATA_KEY@
}

/// Why an event could not become a batch.
#[derive(Debug, PartialEq)]
pub enum EventError {
    /// The payload is neither an object nor an array of objects, or an array
    /// of objects also holds another kind of value.
    NotObject,
    /// A leaf has the name of a reserved column.
    ReservedField(String),
    /// Under a static schema, a leaf is missing from the schema.
    SchemaMismatch(String),
    /// A value does not fit the type of its leaf's column.
    SchemaConflict(String),
}

/// What is wrong with leaf `k`, in order of precedence: 1 reserved name,
/// 2 missing from a static schema, 3 a value of another type; 0 nothing.
pub open spec fn leaf_problem(schema: Seq<Field>, static_schema: bool, rows: Seq<Row>, k: Seq<char>) -> int {
    if is_reserved(k) {
        1
    } else if static_schema && schema_type(schema, k) is None {
        2
    } else if !(forall|i: int|
        0 <= i < rows.len() ==> valid_for(#[trigger] cell(rows[i], k), field_type(schema, rows, k))) {
        3
    } else {
        0
    }
}

/// A columnar batch: one cell per row in each column.
#[derive(Debug)]
pub struct RecordBatch {
    pub fields: Vec<Field>,
    pub columns: Vec<Vec<JsonValue>>,
    pub num_rows: usize,
}

pub open spec fn names_view(s: Seq<String>) -> Seq<Seq<char>> {
    s.map_values(|x: String| x@)
}

/// Inserts `k` into the sorted names `v`, unless present.
fn insert_sorted(v: &mut Vec<String>, k: &String)
    requires
        strictly_sorted(names_view(old(v)@)),
    ensures
        strictly_sorted(names_view(final(v)@)),
        names_view(final(v)@).to_set() == names_view(old(v)@).to_set().insert(k@),
{
    let ghost nv = names_view(v@);
    let mut p: usize = 0;
    while p < v.len()
        invariant
            nv == names_view(v@),
            p <= v@.len(),
            forall|j: int| 0 <= j < p ==> text_lt(#[trigger] nv[j], k@),
        ensures
            p <= v@.len(),
            forall|j: int| 0 <= j < p ==> text_lt(#[trigger] nv[j], k@),
            p < v@.len() ==> !text_lt(nv[p as int], k@),
        decreases v@.len() - p,
    {
        if !text_less(v[p].as_str(), k.as_str()) {
            break;
        }
        p = p + 1;
    }
    if p < v.len() && v[p] == *k {
        assert(nv.to_set().insert(k@) =~= nv.to_set()) by {
            assert(nv[p as int] == k@);
        }
        return;
    }
    proof {
        if p < nv.len() {
            lemma_text_lt_total(nv[p as int], k@);
            assert(text_lt(k@, nv[p as int]));
        }
    }
    v.insert(p, k.clone());
    proof {
        let w = names_view(v@);
        assert(w =~= nv.insert(p as int, k@));
        assert forall|i: int, j: int| 0 <= i < j < w.len() implies text_lt(#[trigger] w[i], #[trigger] w[j]) by {
            if j < p {
            } else if j == p {
                assert(w[i] == nv[i]);
            } else if i < p {
                assert(w[j] == nv[j - 1]);
                if j - 1 > p {
                    lemma_text_lt_transitive(k@, nv[p as int], nv[j - 1]);
                }
                lemma_text_lt_transitive(nv[i], k@, nv[j - 1]);
            } else if i == p {
                if j - 1 > p {
                    lemma_text_lt_transitive(k@, nv[p as int], nv[j - 1]);
                }
            } else {
                assert(w[i] == nv[i - 1] && w[j] == nv[j - 1]);
            }
        }
        assert(w.to_set() =~= nv.to_set().insert(k@)) by {
            assert forall|x| w.to_set().contains(x) <==> nv.to_set().insert(k@).contains(x) by {
                if w.to_set().contains(x) {
                    let i = choose|i: int| 0 <= i < w.len() && w[i] == x;
                    if i < p {
                        assert(nv[i] == x);
                    } else if i > p {
                        assert(nv[i - 1] == x);
                    }
                }
                if nv.to_set().contains(x) {
                    let i = choose|i: int| 0 <= i < nv.len() && nv[i] == x;
                    if i < p {
                        assert(w[i] == x);
                    } else {
                        assert(w[i + 1] == x);
                    }
                }
                if x == k@ {
                    assert(w[p as int] == x);
                }
            }
        }
    }
}


pub proof fn lemma_all_valid_for(a: Seq<Json>, t: DataType)
    ensures
        all_valid_for(a, t) <==> forall|i: int| 0 <= i < a.len() ==> valid_for(#[trigger] a[i], t),
    decreases a.len(),
{
    if a.len() > 0 {
        lemma_all_valid_for(a.drop_last(), t);
        if all_valid_for(a, t) {
            assert forall|i: int| 0 <= i < a.len() implies valid_for(#[trigger] a[i], t) by {
                if i < a.len() - 1 {
                    assert(a.drop_last()[i] == a[i]);
                }
            }
        }
        if forall|i: int| 0 <= i < a.len() ==> valid_for(#[trigger] a[i], t) {
            assert forall|i: int| 0 <= i < a.drop_last().len() implies valid_for(
                #[trigger] a.drop_last()[i],
                t,
            ) by {
                assert(a.drop_last()[i] == a[i]);
            }
        }
    }
}

impl DataType {
    /// A copy of the type.
    pub fn copy(&self) -> (r: DataType)
        ensures
            r == *self,
        decreases self,
    {
        match self {
            DataType::Null => DataType::Null,
            DataType::Boolean => DataType::Boolean,
            DataType::Int64 => DataType::Int64,
            DataType::Float64 => DataType::Float64,
            DataType::Utf8 => DataType::Utf8,
            DataType::TimestampMs => DataType::TimestampMs,
            DataType::Struct => DataType::Struct,
            DataType::List(e) => {
                let inner: &DataType = e;
                DataType::List(Box::new(inner.copy()))
            },
        }
    }
}

/// The type of a value (see `type_of`).
pub fn value_type(v: &JsonValue) -> (r: DataType)
    ensures
        r == type_of(view_value(*v)),
    decreases v,
{
    match v {
        JsonValue::Null => DataType::Null,
        JsonValue::Bool(_) => DataType::Boolean,
        JsonValue::Int(_) => DataType::Int64,
        JsonValue::UInt(_) => DataType::Float64,
        JsonValue::Float(_) => DataType::Float64,
        JsonValue::Str(_) => DataType::Utf8,
        JsonValue::Object(_) => DataType::Struct,
        JsonValue::Array(a) => {
            let ghost av = view_values(a@);
            proof {
                lemma_view_values(a@);
                assert(av.subrange(0, av.len() as int) =~= av);
            }
            let mut i: usize = 0;
            while i < a.len()
                invariant
                    *v == JsonValue::Array(*a),
                    av == view_values(a@),
                    av.len() == a@.len(),
                    forall|j: int| 0 <= j < a@.len() ==> #[trigger] av[j] == view_value(a@[j]),
                    i <= a@.len(),
                    elem_type(av) == elem_type(av.subrange(i as int, av.len() as int)),
                decreases a@.len() - i,
            {
                let ghost t = av.subrange(i as int, av.len() as int);
                proof {
                    assert(t[0] == av[i as int]);
                    assert(t.drop_first() =~= av.subrange(i as int + 1, av.len() as int));
                }
                if let JsonValue::Null = &a[i] {
                } else {
                    proof {
                        assert(decreases_to!(*v => v->Array_0));
                        assert(decreases_to!(v->Array_0 => v->Array_0@));
                        assert(decreases_to!(v->Array_0@ => v->Array_0@[i as int]));
                    }
                    return DataType::List(Box::new(value_type(&a[i])));
                }
                i = i + 1;
            }
            DataType::List(Box::new(DataType::Null))
        },
    }
}

/// Whether a value may stand in a column of type `t` (see `valid_for`).
pub fn value_fits(v: &JsonValue, t: &DataType) -> (r: bool)
    ensures
        r == valid_for(view_value(*v), *t),
    decreases v,
{
    match v {
        JsonValue::Null => true,
        JsonValue::Bool(_) => matches!(t, DataType::Boolean),
        JsonValue::Int(_) => matches!(t, DataType::Int64) || matches!(t, DataType::TimestampMs),
        JsonValue::UInt(_) => matches!(t, DataType::Float64) || matches!(t, DataType::TimestampMs),
        JsonValue::Float(_) => matches!(t, DataType::Float64),
        JsonValue::Str(_) => matches!(t, DataType::Utf8) || matches!(t, DataType::TimestampMs),
        JsonValue::Object(_) => matches!(t, DataType::Struct),
        JsonValue::Array(a) => match t {
            DataType::List(e) => {
                let e: &DataType = e;
                let ghost av = view_values(a@);
                proof {
                    lemma_view_values(a@);
                    lemma_all_valid_for(av, *e);
                }
                assert(valid_for(view_value(*v), *t) == all_valid_for(av, *e));
                let mut i: usize = 0;
                while i < a.len()
                    invariant
                        *v == JsonValue::Array(*a),
                        av == view_values(a@),
                        av.len() == a@.len(),
                        forall|j: int| 0 <= j < a@.len() ==> #[trigger] av[j] == view_value(a@[j]),
                        i <= a@.len(),
                        forall|j: int| 0 <= j < i ==> valid_for(#[trigger] av[j], *e),
                        valid_for(view_value(*v), *t) == all_valid_for(av, *e),
                        all_valid_for(av, *e) <==> forall|j: int|
                            0 <= j < av.len() ==> valid_for(#[trigger] av[j], *e),
                    decreases a@.len() - i,
                {
                    proof {
                        assert(decreases_to!(*v => v->Array_0));
                        assert(decreases_to!(v->Array_0 => v->Array_0@));
                        assert(decreases_to!(v->Array_0@ => v->Array_0@[i as int]));
                    }
                    if !value_fits(&a[i], e) {
                        assert(!valid_for(av[i as int], *e));
                        return false;
                    }
                    i = i + 1;
                }
                true
            },
            _ => false,
        },
    }
}

/// The type that the schema gives to field `k`.
pub fn schema_field_type(schema: &Vec<Field>, k: &String) -> (r: Option<DataType>)
    ensures
        r == schema_type(schema@, k@),
{
    let ghost s = schema@;
    assert(s.subrange(0, s.len() as int) =~= s);
    let mut i: usize = 0;
    while i < schema.len()
        invariant
            s == schema@,
            i <= s.len(),
            schema_type(s, k@) == schema_type(s.subrange(i as int, s.len() as int), k@),
        decreases s.len() - i,
    {
        proof {
            let t = s.subrange(i as int, s.len() as int);
            assert(t[0] == s[i as int]);
            assert(t.drop_first() =~= s.subrange(i as int + 1, s.len() as int));
        }
        if schema[i].name == *k {
            return Some(schema[i].data_type.copy());
        }
        i = i + 1;
    }
    None
}


/// The leaf names of a batch: the fields between the timestamp column and the
/// tags and metadata columns.
pub open spec fn data_names(b: RecordBatch) -> Seq<Seq<char>> {
    Seq::new((b.fields@.len() - 3) as nat, |j: int| b.fields@[j + 1].name@)
}

/// `n` copies of `v`.
pub open spec fn constant_column(n: int, v: Json) -> Seq<Json> {
    Seq::new(n as nat, |i: int| v)
}

/// Whether `k` names a field of the schema other than a reserved column.
pub open spec fn schema_leaf(schema: Seq<Field>, k: Seq<char>) -> bool {
    !is_reserved(k) && exists|i: int| 0 <= i < schema.len() && (#[trigger] schema[i]).name@ == k
}

/// The leaves of a batch: the leaves of its rows and the fields of the schema.
pub open spec fn batch_names(rows: Seq<Row>, schema: Seq<Field>) -> Set<Seq<char>> {
    keys_of_rows(rows).to_set().union(Set::new(|k: Seq<char>| schema_leaf(schema, k)))
}

/// Whether `b` is the batch of `rows`: the timestamp column, then one column
/// per leaf of the rows or field of the schema, in ascending name order, then
/// the tags and metadata columns.
pub open spec fn batch_of(
    b: RecordBatch,
    rows: Seq<Row>,
    schema: Seq<Field>,
    tags: Seq<char>,
    metadata: Seq<char>,
    now: i64,
) -> bool {
    let m = b.fields@.len() - 3;
    let names = data_names(b);
    &&& b.fields@.len() >= 3
    &&& b.columns@.len() == b.fields@.len()
    &&& b.num_rows == rows.len()
    &&& b.fields@[0].name@ == DEFAULT_TIMESTAMP_KEY@
    &&& b.fields@[0].data_type == DataType::TimestampMs
    &&& b.fields@[m + 1].name@ == DEFAULT_TAGS_KEY@
    &&& b.fields@[m + 1].data_type == DataType::Utf8
    &&& b.fields@[m + 2].name@ == DEFAULT_METADATA_KEY@
    &&& b.fields@[m + 2].data_type == DataType::Utf8
    &&& strictly_sorted(names)
    &&& names.to_set() == batch_names(rows, schema)
    &&& forall|j: int|
        0 <= j < m ==> (#[trigger] b.fields@[j + 1]).data_type == field_type(schema, rows, names[j])
    &&& forall|j: int|
        0 <= j < m ==> view_values((#[trigger] b.columns@[j + 1])@) == Seq::new(
            rows.len(),
            |i: int| cell(rows[i], names[j]),
        )
    &&& view_values(b.columns@[0]@) == constant_column(rows.len() as int, Json::Int(now))
    &&& view_values(b.columns@[m + 1]@) == constant_column(rows.len() as int, Json::Str(tags))
    &&& view_values(b.columns@[m + 2]@) == constant_column(rows.len() as int, Json::Str(metadata))
}

/// Whether every leaf of the rows is free of problems.
pub open spec fn rows_acceptable(schema: Seq<Field>, static_schema: bool, rows: Seq<Row>) -> bool {
    forall|k: Seq<char>|
        #[trigger] batch_names(rows, schema).contains(k) ==> leaf_problem(schema, static_schema, rows, k) == 0
}

/// Whether leaf `n` has problem `p` and is the first leaf, by name, with one.
pub open spec fn first_problem(
    schema: Seq<Field>,
    static_schema: bool,
    rows: Seq<Row>,
    n: Seq<char>,
    p: int,
) -> bool {
    &&& batch_names(rows, schema).contains(n)
    &&& leaf_problem(schema, static_schema, rows, n) == p
    &&& forall|k: Seq<char>|
        #[trigger] batch_names(rows, schema).contains(k) && text_lt(k, n) ==> leaf_problem(
            schema,
            static_schema,
            rows,
            k,
        ) == 0
}

fn constant_cells(n: usize, v: &JsonValue) -> (r: Vec<JsonValue>)
    ensures
        view_values(r@) == constant_column(n as int, view_value(*v)),
{
    let mut out: Vec<JsonValue> = Vec::new();
    let mut i: usize = 0;
    while i < n
        invariant
            i <= n,
            view_values(out@) == constant_column(i as int, view_value(*v)),
        decreases n - i,
    {
        let c = v.copy();
        let ghost prev = out@;
        out.push(c);
        proof {
            lemma_view_values_push(prev, c);
            assert(view_values(out@) =~= constant_column(i as int + 1, view_value(*v)));
        }
        i = i + 1;
    }
    out
}

fn leaf_cells(rows: &Vec<Entries>, k: &String) -> (r: Vec<JsonValue>)
    ensures
        view_values(r@) == Seq::new(rows@.len(), |i: int| cell(view_rows(rows@)[i], k@)),
{
    let ghost vr = view_rows(rows@);
    let mut out: Vec<JsonValue> = Vec::new();
    let mut i: usize = 0;
    while i < rows.len()
        invariant
            vr == view_rows(rows@),
            i <= rows@.len(),
            view_values(out@) == Seq::new(i as nat, |m: int| cell(vr[m], k@)),
        decreases rows@.len() - i,
    {
        let c = cell_of(&rows[i], k);
        let ghost prev = out@;
        out.push(c);
        proof {
            lemma_view_values_push(prev, c);
            assert(view_values(out@) =~= Seq::new((i + 1) as nat, |m: int| cell(vr[m], k@)));
        }
        i = i + 1;
    }
    out
}

fn infer_type(rows: &Vec<Entries>, k: &String) -> (r: DataType)
    ensures
        r == inferred_type(view_rows(rows@), k@),
{
    let ghost vr = view_rows(rows@);
    assert(vr.subrange(0, vr.len() as int) =~= vr);
    let mut i: usize = 0;
    while i < rows.len()
        invariant
            vr == view_rows(rows@),
            i <= rows@.len(),
            inferred_type(vr, k@) == inferred_type(vr.subrange(i as int, vr.len() as int), k@),
        decreases rows@.len() - i,
    {
        proof {
            let t = vr.subrange(i as int, vr.len() as int);
            assert(t[0] == vr[i as int]);
            assert(t.drop_first() =~= vr.subrange(i as int + 1, vr.len() as int));
        }
        let c = cell_of(&rows[i], k);
        if let JsonValue::Null = c {
        } else {
            return value_type(&c);
        }
        i = i + 1;
    }
    DataType::Null
}

/// The problem of leaf `k` (see `leaf_problem`) and the type of its column.
fn leaf_check(schema: &Vec<Field>, static_schema: bool, rows: &Vec<Entries>, k: &String) -> (r: (
    u8,
    DataType,
))
    ensures
        r.0 as int == leaf_problem(schema@, static_schema, view_rows(rows@), k@),
        r.1 == field_type(schema@, view_rows(rows@), k@),
{
    let ghost vr = view_rows(rows@);
    let from_schema = schema_field_type(schema, k);
    let t = match &from_schema {
        Some(t) => t.copy(),
        None => infer_type(rows, k),
    };
    let ts = String::from_str(DEFAULT_TIMESTAMP_KEY);
    let tg = String::from_str(DEFAULT_TAGS_KEY);
    let md = String::from_str(DEFAULT_METADATA_KEY);
    if *k == ts || *k == tg || *k == md {
        return (1, t);
    }
    if static_schema && from_schema.is_none() {
        return (2, t);
    }
    let mut i: usize = 0;
    while i < rows.len()
        invariant
            vr == view_rows(rows@),
            t == field_type(schema@, vr, k@),
            !is_reserved(k@),
            !(static_schema && schema_type(schema@, k@) is None),
            i <= rows@.len(),
            forall|m: int| 0 <= m < i ==> valid_for(#[trigger] cell(vr[m], k@), t),
        decreases rows@.len() - i,
    {
        let c = cell_of(&rows[i], k);
        if !value_fits(&c, &t) {
            assert(!valid_for(cell(vr[i as int], k@), t));
            return (3, t);
        }
        i = i + 1;
    }
    (0, t)
}

/// The names of the first `s` fields of the schema, reserved names left out.
pub open spec fn schema_leaves_upto(schema: Seq<Field>, s: int) -> Set<Seq<char>> {
    Set::new(|k: Seq<char>| !is_reserved(k) && exists|i: int| 0 <= i < s && (#[trigger] schema[i]).name@ == k)
}

/// Whether `k` is the name of a reserved column.
fn reserved_name(k: &String) -> (r: bool)
    ensures
        r == is_reserved(k@),
{
    let ts = String::from_str(DEFAULT_TIMESTAMP_KEY);
    let tg = String::from_str(DEFAULT_TAGS_KEY);
    let md = String::from_str(DEFAULT_METADATA_KEY);
    *k == ts || *k == tg || *k == md
}

/// Builds the batch of flattened rows: the leaves and the schema's fields
/// (reserved names aside) become columns in ascending name order, null where
/// a row lacks them, typed by the schema or by their first non-null value; the
/// timestamp column holds `now` and the tags and metadata columns hold the
/// given texts in every row. Fails on the first leaf, by name, that has a
/// reserved name, is missing from a static schema, or holds a value of
/// another type than its column's.
pub fn rows_into_batch(
    rows: &Vec<Entries>,
    schema: &Vec<Field>,
    static_schema: bool,
    tags: &String,
    metadata: &String,
    now: i64,
) -> (r: Result<RecordBatch, EventError>)
    ensures
        match r {
            Ok(b) => batch_of(b, view_rows(rows@), schema@, tags@, metadata@, now) && rows_acceptable(
                schema@,
                static_schema,
                view_rows(rows@),
            ),
            Err(EventError::ReservedField(n)) => first_problem(
                schema@,
                static_schema,
                view_rows(rows@),
                n@,
                1,
            ),
            Err(EventError::SchemaMismatch(n)) => first_problem(
                schema@,
                static_schema,
                view_rows(rows@),
                n@,
                2,
            ),
            Err(EventError::SchemaConflict(n)) => first_problem(
                schema@,
                static_schema,
                view_rows(rows@),
                n@,
                3,
            ),
            Err(EventError::NotObject) => false,
        },
{
    let ghost vr = view_rows(rows@);
    let ks = row_keys(rows);
    let ghost kv = names_view(ks@);
    let mut names: Vec<String> = Vec::new();
    let mut i: usize = 0;
    proof {
        assert(names_view(names@) =~= Seq::<Seq<char>>::empty());
        assert(kv.subrange(0, 0).to_set() =~= Set::<Seq<char>>::empty());
        assert(names_view(names@).to_set() =~= Set::<Seq<char>>::empty());
    }
    while i < ks.len()
        invariant
            kv == names_view(ks@),
            i <= ks@.len(),
            strictly_sorted(names_view(names@)),
            names_view(names@).to_set() == kv.subrange(0, i as int).to_set(),
        decreases ks@.len() - i,
    {
        insert_sorted(&mut names, &ks[i]);
        proof {
            assert(kv.subrange(0, i as int + 1) =~= kv.subrange(0, i as int).push(kv[i as int]));
            kv.subrange(0, i as int).lemma_push_to_set_commute(kv[i as int]);
        }
        i = i + 1;
    }
    proof {
        assert(kv.subrange(0, i as int) =~= kv);
        assert(kv == keys_of_rows(vr));
        assert(kv.to_set().union(schema_leaves_upto(schema@, 0)) =~= kv.to_set());
    }
    let mut s: usize = 0;
    while s < schema.len()
        invariant
            kv == keys_of_rows(vr),
            s <= schema@.len(),
            strictly_sorted(names_view(names@)),
            names_view(names@).to_set() == kv.to_set().union(schema_leaves_upto(schema@, s as int)),
        decreases schema@.len() - s,
    {
        let name = &schema[s].name;
        let ghost before = names_view(names@).to_set();
        if !reserved_name(name) {
            insert_sorted(&mut names, name);
        }
        proof {
            let k = schema@[s as int].name@;
            let next = schema_leaves_upto(schema@, s as int + 1);
            let prev = schema_leaves_upto(schema@, s as int);
            if is_reserved(k) {
                assert(next =~= prev) by {
                    assert forall|x| next.contains(x) implies prev.contains(x) by {
                        let w = choose|w: int| 0 <= w < s + 1 && (#[trigger] schema@[w]).name@ == x;
                        assert(w < s);
                    }
                }
            } else {
                assert(next =~= prev.insert(k)) by {
                    assert forall|x| next.contains(x) implies prev.insert(k).contains(x) by {
                        let w = choose|w: int| 0 <= w < s + 1 && (#[trigger] schema@[w]).name@ == x;
                        if w < s {
                            assert(prev.contains(x));
                        }
                    }
                    assert(next.contains(k)) by {
                        assert(schema@[s as int].name@ == k);
                    }
                }
            }
            assert(names_view(names@).to_set() =~= kv.to_set().union(next));
        }
        s = s + 1;
    }
    let ghost nv = names_view(names@);
    proof {
        assert(schema_leaves_upto(schema@, s as int) =~= Set::new(|k: Seq<char>| schema_leaf(schema@, k)));
        assert(nv.to_set() == batch_names(vr, schema@));
    }
    let n = rows.len();
    let mut fields: Vec<Field> = vec![
        Field { name: String::from_str(DEFAULT_TIMESTAMP_KEY), data_type: DataType::TimestampMs },
    ];
    let mut columns: Vec<Vec<JsonValue>> = vec![constant_cells(n, &JsonValue::Int(now))];
    let mut j: usize = 0;
    while j < names.len()
        invariant
            vr == view_rows(rows@),
            n == rows@.len(),
            nv == names_view(names@),
            strictly_sorted(nv),
            nv.to_set() == batch_names(vr, schema@),
            j <= nv.len(),
            fields@.len() == j + 1,
            columns@.len() == j + 1,
            fields@[0].name@ == DEFAULT_TIMESTAMP_KEY@,
            fields@[0].data_type == DataType::TimestampMs,
            view_values(columns@[0]@) == constant_column(n as int, Json::Int(now)),
            forall|m: int|
                0 <= m < j ==> {
                    &&& (#[trigger] fields@[m + 1]).name@ == nv[m]
                    &&& fields@[m + 1].data_type == field_type(schema@, vr, nv[m])
                },
            forall|m: int|
                0 <= m < j ==> view_values((#[trigger] columns@[m + 1])@) == Seq::new(
                    n as nat,
                    |i: int| cell(vr[i], nv[m]),
                ),
            forall|m: int| 0 <= m < j ==> leaf_problem(schema@, static_schema, vr, #[trigger] nv[m]) == 0,
        decreases nv.len() - j,
    {
        let (problem, t) = leaf_check(schema, static_schema, rows, &names[j]);
        if problem != 0 {
            proof {
                assert(nv.contains(nv[j as int]));
                assert(nv.to_set().contains(nv[j as int]));
                assert(batch_names(vr, schema@).contains(nv[j as int]));
                assert forall|k: Seq<char>|
                    #[trigger] batch_names(vr, schema@).contains(k) && text_lt(k, nv[j as int]) implies leaf_problem(
                    schema@,
                    static_schema,
                    vr,
                    k,
                ) == 0 by {
                    assert(nv.to_set().contains(k));
                    let m = choose|m: int| 0 <= m < nv.len() && nv[m] == k;
                    if m == j {
                        lemma_text_lt_irreflexive(k);
                    } else if m > j {
                        assert(text_lt(nv[j as int], nv[m]));
                        lemma_text_lt_transitive(k, nv[j as int], k);
                        lemma_text_lt_irreflexive(k);
                    }
                }
            }
            if problem == 1 {
                return Err(EventError::ReservedField(names[j].clone()));
            } else if problem == 2 {
                return Err(EventError::SchemaMismatch(names[j].clone()));
            } else {
                return Err(EventError::SchemaConflict(names[j].clone()));
            }
        }
        let col = leaf_cells(rows, &names[j]);
        fields.push(Field { name: names[j].clone(), data_type: t });
        columns.push(col);
        j = j + 1;
    }
    let ghost m = nv.len() as int;
    fields.push(Field { name: String::from_str(DEFAULT_TAGS_KEY), data_type: DataType::Utf8 });
    fields.push(Field { name: String::from_str(DEFAULT_METADATA_KEY), data_type: DataType::Utf8 });
    columns.push(constant_cells(n, &JsonValue::Str(tags.clone())));
    columns.push(constant_cells(n, &JsonValue::Str(metadata.clone())));
    let b = RecordBatch { fields, columns, num_rows: n };
    proof {
        assert(data_names(b) =~= nv);
        assert forall|k: Seq<char>| #[trigger] batch_names(vr, schema@).contains(k) implies leaf_problem(
            schema@,
            static_schema,
            vr,
            k,
        ) == 0 by {
            assert(nv.to_set().contains(k));
        }
        assert forall|jj: int| 0 <= jj < m implies (#[trigger] b.fields@[jj + 1]).data_type == field_type(
            schema@,
            vr,
            data_names(b)[jj],
        ) by {}
        assert forall|jj: int| 0 <= jj < m implies view_values((#[trigger] b.columns@[jj + 1])@) == Seq::new(
            vr.len(),
            |i: int| cell(vr[i], data_names(b)[jj]),
        ) by {}
    }
    Ok(b)
}


/// A single JSON object becomes a batch of exactly one row.
pub proof fn lemma_object_one_row(
    es: Seq<(Seq<char>, Json)>,
    rows: Seq<Row>,
    b: RecordBatch,
    schema: Seq<Field>,
    tags: Seq<char>,
    metadata: Seq<char>,
    now: i64,
)
    requires
        event_rows(Json::Object(es)) == Some(rows),
        batch_of(b, rows, schema, tags, metadata, now),
    ensures
        b.num_rows == 1,
{
}

/// An array of `N` objects becomes a batch of exactly `N` rows.
pub proof fn lemma_array_rows(
    a: Seq<Json>,
    rows: Seq<Row>,
    b: RecordBatch,
    schema: Seq<Field>,
    tags: Seq<char>,
    metadata: Seq<char>,
    now: i64,
)
    requires
        event_rows(Json::Array(a)) == Some(rows),
        batch_of(b, rows, schema, tags, metadata, now),
    ensures
        b.num_rows == a.len(),
{
    lemma_top_rows_len(a);
}

pub proof fn lemma_sorted_distinct(s: Seq<Seq<char>>)
    requires
        strictly_sorted(s),
    ensures
        s.no_duplicates(),
        s.to_set().len() == s.len(),
{
    assert forall|i: int, j: int| 0 <= i < s.len() && 0 <= j < s.len() && i != j implies s[i] != s[j] by {
        if i < j {
            assert(text_lt(s[i], s[j]));
        } else {
            assert(text_lt(s[j], s[i]));
        }
        if s[i] == s[j] {
            lemma_text_lt_irreflexive(s[i]);
        }
    }
    s.unique_seq_to_set();
}

/// The field names of a schema.
pub open spec fn schema_names(schema: Seq<Field>) -> Set<Seq<char>> {
    schema.map_values(|f: Field| f.name@).to_set()
}

proof fn lemma_batch_names_plain(rows: Seq<Row>, schema: Seq<Field>)
    requires
        forall|i: int| 0 <= i < schema.len() ==> !is_reserved(#[trigger] schema[i].name@),
    ensures
        batch_names(rows, schema) == keys_of_rows(rows).to_set().union(schema_names(schema)),
{
    let sv = schema.map_values(|f: Field| f.name@);
    assert(Set::new(|k: Seq<char>| schema_leaf(schema, k)) =~= schema_names(schema)) by {
        assert forall|k: Seq<char>| schema_leaf(schema, k) implies schema_names(schema).contains(k) by {
            let i = choose|i: int| 0 <= i < schema.len() && (#[trigger] schema[i]).name@ == k;
            assert(sv[i] == k);
        }
        assert forall|k: Seq<char>| schema_names(schema).contains(k) implies schema_leaf(schema, k) by {
            let i = choose|i: int| 0 <= i < sv.len() && #[trigger] sv[i] == k;
            assert(schema[i].name@ == k);
        }
    }
}

/// A batch has one column per distinct leaf of the payload and per field of
/// the schema, plus the timestamp, tags and metadata columns (for schemas
/// without fields of the reserved names, which keep their own columns).
pub proof fn lemma_column_count(
    rows: Seq<Row>,
    b: RecordBatch,
    schema: Seq<Field>,
    tags: Seq<char>,
    metadata: Seq<char>,
    now: i64,
)
    requires
        batch_of(b, rows, schema, tags, metadata, now),
        forall|i: int| 0 <= i < schema.len() ==> !is_reserved(#[trigger] schema[i].name@),
    ensures
        b.fields@.len() == keys_of_rows(rows).to_set().union(schema_names(schema)).len() + 3,
{
    lemma_batch_names_plain(rows, schema);
    lemma_sorted_distinct(data_names(b));
}

/// Every column of a batch that the schema types has the schema's type, the
/// reserved columns too when the schema gives those names their reserved types
/// (or leaves them out).
pub proof fn lemma_schema_types_kept(
    rows: Seq<Row>,
    b: RecordBatch,
    schema: Seq<Field>,
    tags: Seq<char>,
    metadata: Seq<char>,
    now: i64,
    j: int,
)
    requires
        batch_of(b, rows, schema, tags, metadata, now),
        0 <= j < b.fields@.len(),
        schema_type(schema, b.fields@[j].name@) is Some,
        schema_type(schema, DEFAULT_TIMESTAMP_KEY@) matches Some(t) ==> t == DataType::TimestampMs,
        schema_type(schema, DEFAULT_TAGS_KEY@) matches Some(t) ==> t == DataType::Utf8,
        schema_type(schema, DEFAULT_METADATA_KEY@) matches Some(t) ==> t == DataType::Utf8,
    ensures
        b.fields@[j].data_type == schema_type(schema, b.fields@[j].name@)->0,
{
    let m = b.fields@.len() - 3;
    if 1 <= j <= m {
        assert(data_names(b)[j - 1] == b.fields@[j].name@);
        assert(b.fields@[(j - 1) + 1].data_type == field_type(schema, rows, data_names(b)[j - 1]));
    }
}

/// An empty object becomes one row in which every column of the schema is
/// null, with one column per field of the schema besides the timestamp, tags
/// and metadata columns (for schemas without fields of the reserved names).
pub proof fn lemma_empty_object(
    rows: Seq<Row>,
    b: RecordBatch,
    schema: Seq<Field>,
    tags: Seq<char>,
    metadata: Seq<char>,
    now: i64,
)
    requires
        event_rows(Json::Object(Seq::empty())) == Some(rows),
        batch_of(b, rows, schema, tags, metadata, now),
        forall|i: int| 0 <= i < schema.len() ==> !is_reserved(#[trigger] schema[i].name@),
    ensures
        b.num_rows == 1,
        b.fields@.len() == schema_names(schema).len() + 3,
        forall|j: int| 0 <= j < b.fields@.len() - 3 ==> view_values((#[trigger] b.columns@[j + 1])@) == seq![Json::Null],
{
    assert(rows == seq![Seq::<(Seq<char>, Json)>::empty()]);
    assert(keys_of_rows(rows) =~= Seq::<Seq<char>>::empty()) by {
        assert(rows.drop_last() =~= Seq::<Row>::empty());
        assert(keys_of_rows(rows.drop_last()) =~= Seq::<Seq<char>>::empty());
        assert(rows.last().len() == 0);
        assert(keys_of_row(Seq::empty(), rows.last()) =~= Seq::<Seq<char>>::empty());
    }
    lemma_batch_names_plain(rows, schema);
    assert(keys_of_rows(rows).to_set().union(schema_names(schema)) =~= schema_names(schema));
    lemma_sorted_distinct(data_names(b));
    assert forall|j: int| 0 <= j < b.fields@.len() - 3 implies view_values((#[trigger] b.columns@[j + 1])@)
        == seq![Json::Null] by {
        assert(view_values(b.columns@[j + 1]@) == Seq::new(rows.len(), |i: int| cell(rows[i], data_names(b)[j])));
        assert(cell(rows[0], data_names(b)[j]) == Json::Null);
        assert(view_values(b.columns@[j + 1]@) =~= seq![Json::Null]);
    }
}

/// An array with an element that is not an object cannot become a batch.
pub proof fn lemma_non_object_element(a: Seq<Json>, i: int)
    requires
        0 <= i < a.len(),
        !(a[i] is Object),
    ensures
        event_rows(Json::Array(a)) is None,
{
    lemma_top_rows_non_object(a, i);
}

proof fn lemma_inferred_not_timestamp(rows: Seq<Row>, k: Seq<char>)
    ensures
        inferred_type(rows, k) != DataType::TimestampMs,
    decreases rows.len(),
{
    if rows.len() > 0 && cell(rows[0], k) is Null {
        lemma_inferred_not_timestamp(rows.drop_first(), k);
    }
}

/// The kind of a JSON value: null, boolean, integer, float, text, array or
/// object; an integer beyond the range of `i64` counts as a float.
pub open spec fn json_kind(v: Json) -> int {
    match v {
        Json::Null => 0,
        Json::Bool(_) => 1,
        Json::Int(_) => 2,
        Json::UInt(_) => 3,
        Json::Float(_) => 3,
        Json::Str(_) => 4,
        Json::Array(_) => 5,
        Json::Object(_) => 6,
    }
}

/// The kind of value that a column type holds.
pub open spec fn type_kind(t: DataType) -> int {
    match t {
        DataType::Null => 0,
        DataType::Boolean => 1,
        DataType::Int64 => 2,
        DataType::Float64 => 3,
        DataType::Utf8 => 4,
        DataType::List(_) => 5,
        DataType::Struct => 6,
        DataType::TimestampMs => 7,
    }
}

proof fn lemma_valid_kind(v: Json, t: DataType)
    requires
        !(v is Null),
        valid_for(v, t),
        t != DataType::TimestampMs,
    ensures
        type_kind(t) == json_kind(v),
{
}

/// Without a type in the schema, a leaf whose values in two rows are of two
/// different kinds cannot be converted: the rows cannot become a batch, and
/// for a leaf that is neither reserved nor under a static schema the problem
/// is a conflict of types.
pub proof fn lemma_mixed_leaf_conflict(
    schema: Seq<Field>,
    static_schema: bool,
    rows: Seq<Row>,
    k: Seq<char>,
    i: int,
    j: int,
)
    requires
        0 <= i < rows.len(),
        0 <= j < rows.len(),
        !(cell(rows[i], k) is Null),
        !(cell(rows[j], k) is Null),
        json_kind(cell(rows[i], k)) != json_kind(cell(rows[j], k)),
        schema_type(schema, k) is None,
    ensures
        leaf_problem(schema, static_schema, rows, k) != 0,
        !is_reserved(k) && !static_schema ==> leaf_problem(schema, static_schema, rows, k) == 3,
        !rows_acceptable(schema, static_schema, rows),
{
    lemma_inferred_not_timestamp(rows, k);
    let t = field_type(schema, rows, k);
    if valid_for(cell(rows[i], k), t) && valid_for(cell(rows[j], k), t) {
        lemma_valid_kind(cell(rows[i], k), t);
        lemma_valid_kind(cell(rows[j], k), t);
    }
    assert(lookup(rows[i], k) is Some);
    lemma_keys_of_rows(rows, i, k);
    assert(keys_of_rows(rows).to_set().contains(k));
    assert(batch_names(rows, schema).contains(k));
}


impl RecordBatch {
    pub fn num_rows(&self) -> (r: usize)
        ensures
            r == self.num_rows,
    {
        self.num_rows
    }

    pub fn num_columns(&self) -> (r: usize)
        ensures
            r == self.columns@.len(),
    {
        self.columns.len()
    }

    /// The cells of the first column named `name`.
    pub fn column_by_name(&self, name: &str) -> (r: Option<&Vec<JsonValue>>)
        ensures
            match r {
                Some(c) => exists|i: int|
                    0 <= i < self.fields@.len() && i < self.columns@.len() && (#[trigger] self.fields@[i]).name@
                        == name@ && *c == self.columns@[i] && forall|j: int|
                        0 <= j < i ==> (#[trigger] self.fields@[j]).name@ != name@,
                None => forall|i: int|
                    0 <= i < self.fields@.len() && i < self.columns@.len() ==> (#[trigger] self.fields@[i]).name@
                        != name@,
            },
    {
        let key = String::from_str(name);
        let mut i: usize = 0;
        while i < self.fields.len() && i < self.columns.len()
            invariant
                key@ == name@,
                i <= self.fields@.len(),
                forall|j: int| 0 <= j < i ==> (#[trigger] self.fields@[j]).name@ != name@,
            decreases self.fields@.len() - i,
        {
            if self.fields[i].name == key {
                return Some(&self.columns[i]);
            }
            i = i + 1;
        }
        None
    }
}

} // verus!
