//! A batch read back as JSON events, one object per row, and the schema that
//! its columns carry; ingesting those events again under that schema gives
//! back the same columns.

use crate::event::{
    batch_names, batch_of, data_names, field_type, is_reserved, leaf_problem, lemma_sorted_distinct,
    schema_leaf,
    rows_acceptable, schema_type, valid_for, Field, RecordBatch,
};
use crate::flatten::{
    cell, columns_of, event_rows, flat_entries, flat_entry, flat_rows, has_object, join_key, keys_of_row,
    keys_of_rows, lookup, top_rows, Row,
};
use crate::json::{
    lemma_view_entries_push, lemma_view_values, lemma_view_values_push, view_entries, view_value,
    view_values, Json, JsonValue,
};
use vstd::prelude::*;

verus! {

/// The cells of leaf column `j` of a batch.
pub open spec fn column_cells(b: RecordBatch, j: int) -> Seq<Json> {
    view_values(b.columns@[j + 1]@)
}

/// Row `i` of a batch as the entries of a JSON object, one per leaf column.
pub open spec fn row_object(b: RecordBatch, i: int) -> Row {
    Seq::new(data_names(b).len(), |j: int| (data_names(b)[j], column_cells(b, j)[i]))
}

/// The rows of a batch as JSON objects.
pub open spec fn batch_events(b: RecordBatch) -> Seq<Json> {
    Seq::new(b.num_rows as nat, |i: int| Json::Object(row_object(b, i)))
}

/// The leaf fields of a batch: its schema without the reserved columns.
pub open spec fn data_fields(b: RecordBatch) -> Seq<Field> {
    b.fields@.subrange(1, b.fields@.len() - 2)
}

/// Whether a batch has its three reserved columns and one cell per row in
/// every column.
pub open spec fn well_shaped(b: RecordBatch) -> bool {
    &&& b.fields@.len() >= 3
    &&& b.columns@.len() == b.fields@.len()
    &&& forall|j: int| 0 <= j < b.columns@.len() ==> (#[trigger] b.columns@[j])@.len() == b.num_rows
}

/// Whether flattening leaves a value as it is: it is not an object, nor an
/// array with an object element.
pub open spec fn flat_value(v: Json) -> bool {
    !(v is Object) && !(v is Array && has_object(v->Array_0))
}

/// Whether every cell of the leaf columns is left as it is by flattening.
pub open spec fn flat_cells(b: RecordBatch) -> bool {
    forall|j: int, i: int|
        0 <= j < data_names(b).len() && 0 <= i < b.num_rows ==> flat_value(
            #[trigger] column_cells(b, j)[i],
        )
}

impl Field {
    /// A copy of the field.
    pub fn copy(&self) -> (r: Field)
        ensures
            r == *self,
    {
        Field { name: self.name.clone(), data_type: self.data_type.copy() }
    }
}

/// The leaf fields of a batch.
pub fn batch_schema(b: &RecordBatch) -> (r: Vec<Field>)
    requires
        b.fields@.len() >= 3,
    ensures
        r@ == data_fields(*b),
{
    let mut out: Vec<Field> = Vec::new();
    let mut j: usize = 1;
    while j < b.fields.len() - 2
        invariant
            b.fields@.len() >= 3,
            1 <= j <= b.fields@.len() - 2,
            out@ == b.fields@.subrange(1, j as int),
        decreases b.fields@.len() - j,
    {
        out.push(b.fields[j].copy());
        proof {
            assert(out@ =~= b.fields@.subrange(1, j as int + 1));
        }
        j = j + 1;
    }
    out
}

/// The rows of a batch as a JSON array of objects, each holding the row's
/// cells of the leaf columns under their names.
pub fn batch_to_json(b: &RecordBatch) -> (r: JsonValue)
    requires
        well_shaped(*b),
    ensures
        view_value(r) == Json::Array(batch_events(*b)),
{
    let m = b.fields.len() - 3;
    let mut rows: Vec<JsonValue> = Vec::new();
    let mut i: usize = 0;
    assert(view_values(rows@) =~= batch_events(*b).subrange(0, 0));
    while i < b.num_rows
        invariant
            well_shaped(*b),
            m == b.fields@.len() - 3,
            i <= b.num_rows,
            view_values(rows@) == batch_events(*b).subrange(0, i as int),
        decreases b.num_rows - i,
    {
        let mut es: Vec<(String, JsonValue)> = Vec::new();
        let mut j: usize = 0;
        assert(view_entries(es@) =~= row_object(*b, i as int).subrange(0, 0));
        while j < m
            invariant
                well_shaped(*b),
                m == b.fields@.len() - 3,
                i < b.num_rows,
                j <= m,
                view_entries(es@) == row_object(*b, i as int).subrange(0, j as int),
            decreases m - j,
        {
            let col = &b.columns[j + 1];
            proof {
                lemma_view_values(col@);
                assert(b.columns@[j + 1]@.len() == b.num_rows);
            }
            let e = (b.fields[j + 1].name.clone(), col[i].copy());
            let ghost prev = es@;
            es.push(e);
            proof {
                lemma_view_entries_push(prev, e);
                assert(view_entries(es@) =~= row_object(*b, i as int).subrange(0, j as int + 1));
            }
            j = j + 1;
        }
        proof {
            assert(row_object(*b, i as int).subrange(0, j as int) =~= row_object(*b, i as int));
        }
        let v = JsonValue::Object(es);
        let ghost prev = rows@;
        rows.push(v);
        proof {
            lemma_view_values_push(prev, v);
            assert(view_values(rows@) =~= batch_events(*b).subrange(0, i as int + 1));
        }
        i = i + 1;
    }
    proof {
        assert(batch_events(*b).subrange(0, i as int) =~= batch_events(*b));
    }
    JsonValue::Array(rows)
}

proof fn lemma_flat_entries_identity(es: Row)
    requires
        forall|j: int| 0 <= j < es.len() ==> flat_value(#[trigger] es[j].1),
    ensures
        flat_entries(None, es) == Some(es),
    decreases es.len(),
{
    if es.len() > 0 {
        assert(forall|j: int| 0 <= j < es.drop_last().len() ==> es.drop_last()[j] == es[j]);
        lemma_flat_entries_identity(es.drop_last());
        let last = es.last();
        assert(flat_value(es[es.len() - 1].1));
        assert(join_key(None, last.0) == last.0);
        assert(flat_entry(None, last) == Some(seq![last]));
        assert(es.drop_last() + seq![last] =~= es);
    }
}

proof fn lemma_top_rows_identity(a: Seq<Json>)
    requires
        forall|i: int|
            0 <= i < a.len() ==> (#[trigger] a[i]) is Object && forall|j: int|
                0 <= j < a[i]->Object_0.len() ==> flat_value(#[trigger] a[i]->Object_0[j].1),
    ensures
        top_rows(a) == Some(Seq::new(a.len(), |i: int| a[i]->Object_0)),
    decreases a.len(),
{
    if a.len() == 0 {
        assert(Seq::new(a.len(), |i: int| a[i]->Object_0) =~= Seq::<Row>::empty());
    } else {
        assert(forall|i: int| 0 <= i < a.drop_last().len() ==> a.drop_last()[i] == a[i]);
        lemma_top_rows_identity(a.drop_last());
        let last = a.last();
        assert(a[a.len() - 1] == last);
        lemma_flat_entries_identity(last->Object_0);
        assert(Seq::new(a.drop_last().len(), |i: int| a.drop_last()[i]->Object_0).push(last->Object_0)
            =~= Seq::new(a.len(), |i: int| a[i]->Object_0));
    }
}

/// In entries with distinct names, a name's value is the value of its entry.
proof fn lemma_lookup_distinct(ks: Seq<Seq<char>>, vs: Seq<Json>, j: int)
    requires
        ks.len() == vs.len(),
        ks.no_duplicates(),
        0 <= j < ks.len(),
    ensures
        lookup(Seq::new(ks.len(), |m: int| (ks[m], vs[m])), ks[j]) == Some(vs[j]),
    decreases ks.len(),
{
    let row = Seq::new(ks.len(), |m: int| (ks[m], vs[m]));
    if j < ks.len() - 1 {
        assert(ks[ks.len() - 1] != ks[j]);
        assert(ks.drop_last().no_duplicates()) by {
            assert forall|x: int, y: int|
                0 <= x < ks.drop_last().len() && 0 <= y < ks.drop_last().len() && x != y implies ks.drop_last()[x]
                != ks.drop_last()[y] by {
                assert(ks.drop_last()[x] == ks[x] && ks.drop_last()[y] == ks[y]);
            }
        }
        lemma_lookup_distinct(ks.drop_last(), vs.drop_last(), j);
        assert(row.drop_last() =~= Seq::new(
            ks.drop_last().len(),
            |m: int| (ks.drop_last()[m], vs.drop_last()[m]),
        ));
    }
}

proof fn lemma_lookup_names(row: Row, k: Seq<char>)
    requires
        lookup(row, k) is Some,
    ensures
        exists|j: int| 0 <= j < row.len() && (#[trigger] row[j]).0 == k,
    decreases row.len(),
{
    if row.last().0 != k {
        lemma_lookup_names(row.drop_last(), k);
        let j = choose|j: int| 0 <= j < row.drop_last().len() && (#[trigger] row.drop_last()[j]).0 == k;
        assert(row[j] == row.drop_last()[j]);
    } else {
        assert(row[row.len() - 1].0 == k);
    }
}

proof fn lemma_keys_of_row_source(ks: Seq<Seq<char>>, row: Row, k: Seq<char>)
    requires
        keys_of_row(ks, row).contains(k),
    ensures
        ks.contains(k) || lookup(row, k) is Some,
    decreases row.len(),
{
    if row.len() > 0 {
        let front = keys_of_row(ks, row.drop_last());
        if front.contains(k) {
            lemma_keys_of_row_source(ks, row.drop_last(), k);
        } else {
            let m = choose|m: int| 0 <= m < keys_of_row(ks, row).len() && keys_of_row(ks, row)[m] == k;
            assert(m == front.len());
        }
    }
}

proof fn lemma_keys_of_rows_source(rows: Seq<Row>, k: Seq<char>)
    requires
        keys_of_rows(rows).contains(k),
    ensures
        exists|i: int| 0 <= i < rows.len() && lookup(#[trigger] rows[i], k) is Some,
    decreases rows.len(),
{
    if rows.len() > 0 {
        lemma_keys_of_row_source(keys_of_rows(rows.drop_last()), rows.last(), k);
        if keys_of_rows(rows.drop_last()).contains(k) {
            lemma_keys_of_rows_source(rows.drop_last(), k);
            let i = choose|i: int| 0 <= i < rows.drop_last().len() && lookup(#[trigger] rows.drop_last()[i], k) is Some;
            assert(rows[i] == rows.drop_last()[i]);
        } else {
            assert(lookup(rows[rows.len() - 1], k) is Some);
        }
    }
}

proof fn lemma_schema_type_at(s: Seq<Field>, j: int)
    requires
        0 <= j < s.len(),
        forall|m: int| 0 <= m < j ==> (#[trigger] s[m]).name@ != s[j].name@,
    ensures
        schema_type(s, s[j].name@) == Some(s[j].data_type),
    decreases j,
{
    if j > 0 {
        assert forall|m: int| 0 <= m < j - 1 implies (#[trigger] s.drop_first()[m]).name@ != s.drop_first()[j
            - 1].name@ by {
            assert(s.drop_first()[m] == s[m + 1]);
        }
        lemma_schema_type_at(s.drop_first(), j - 1);
        assert(s[0].name@ != s[j].name@);
    }
}

/// Whether flattening leaves every value of a row as it is.
pub open spec fn row_flat(r: Row) -> bool {
    forall|m: int| 0 <= m < r.len() ==> flat_value(#[trigger] r[m].1)
}

proof fn lemma_concat_flat(a: Row, b: Row)
    requires
        row_flat(a),
        row_flat(b),
    ensures
        row_flat(a + b),
{
    assert forall|m: int| 0 <= m < (a + b).len() implies flat_value(#[trigger] (a + b)[m].1) by {
        if m < a.len() {
            assert((a + b)[m] == a[m]);
        } else {
            assert((a + b)[m] == b[m - a.len()]);
        }
    }
}

proof fn lemma_lookup_value(row: Row, k: Seq<char>)
    requires
        lookup(row, k) is Some,
    ensures
        exists|m: int| 0 <= m < row.len() && (#[trigger] row[m]).1 == lookup(row, k)->0,
    decreases row.len(),
{
    if row.last().0 != k {
        lemma_lookup_value(row.drop_last(), k);
        let m = choose|m: int| 0 <= m < row.drop_last().len() && (#[trigger] row.drop_last()[m]).1 == lookup(row.drop_last(), k)->0;
        assert(row[m] == row.drop_last()[m]);
    } else {
        assert(row[row.len() - 1] == row.last());
    }
}

proof fn lemma_cell_flat(row: Row, k: Seq<char>)
    requires
        row_flat(row),
    ensures
        flat_value(cell(row, k)),
{
    if lookup(row, k) is Some {
        lemma_lookup_value(row, k);
    }
}

proof fn lemma_flat_entries_flat(prefix: Option<Seq<char>>, es: Seq<(Seq<char>, Json)>)
    requires
        flat_entries(prefix, es) is Some,
    ensures
        row_flat(flat_entries(prefix, es)->0),
    decreases es,
{
    if es.len() > 0 {
        lemma_flat_entries_flat(prefix, es.drop_last());
        lemma_flat_entry_flat(prefix, es.last());
        lemma_concat_flat(flat_entries(prefix, es.drop_last())->0, flat_entry(prefix, es.last())->0);
    }
}

proof fn lemma_flat_entry_flat(prefix: Option<Seq<char>>, e: (Seq<char>, Json))
    requires
        flat_entry(prefix, e) is Some,
    ensures
        row_flat(flat_entry(prefix, e)->0),
    decreases e,
{
    let key = join_key(prefix, e.0);
    match e.1 {
        Json::Object(c) => {
            lemma_flat_entries_flat(Some(key), c);
        },
        Json::Array(a) => {
            if has_object(a) {
                lemma_flat_rows_flat(key, a);
                let rows = flat_rows(key, a)->0;
                let cols = columns_of(rows);
                assert forall|m: int| 0 <= m < cols.len() implies flat_value(#[trigger] cols[m].1) by {
                    let ks = keys_of_rows(rows);
                    let vals = Seq::new(rows.len(), |i: int| cell(rows[i], ks[m]));
                    assert(cols[m].1 == Json::Array(vals));
                    assert forall|i: int| 0 <= i < vals.len() implies !(#[trigger] vals[i] is Object) by {
                        lemma_cell_flat(rows[i], ks[m]);
                    }
                }
            }
        },
        _ => {},
    }
}

proof fn lemma_flat_rows_flat(parent: Seq<char>, a: Seq<Json>)
    requires
        flat_rows(parent, a) is Some,
    ensures
        forall|i: int|
            0 <= i < flat_rows(parent, a)->0.len() ==> row_flat(#[trigger] flat_rows(parent, a)->0[i]),
    decreases a,
{
    if a.len() > 0 {
        lemma_flat_rows_flat(parent, a.drop_last());
        let rows = flat_rows(parent, a.drop_last())->0;
        let all = flat_rows(parent, a)->0;
        match a.last() {
            Json::Object(c) => {
                lemma_flat_entries_flat(Some(parent), c);
            },
            _ => {},
        }
        assert forall|i: int| 0 <= i < all.len() implies row_flat(#[trigger] all[i]) by {
            if i < rows.len() {
                assert(all[i] == rows[i]);
            }
        }
    }
}

/// Every row that an event flattens to is left as it is by flattening again.
pub proof fn lemma_event_rows_flat(v: Json)
    requires
        event_rows(v) is Some,
    ensures
        forall|i: int| 0 <= i < event_rows(v)->0.len() ==> row_flat(#[trigger] event_rows(v)->0[i]),
{
    match v {
        Json::Object(es) => {
            lemma_flat_entries_flat(None, es);
        },
        Json::Array(a) => {
            lemma_top_rows_flat(a);
        },
        _ => {},
    }
}

proof fn lemma_top_rows_flat(a: Seq<Json>)
    requires
        top_rows(a) is Some,
    ensures
        forall|i: int| 0 <= i < top_rows(a)->0.len() ==> row_flat(#[trigger] top_rows(a)->0[i]),
    decreases a.len(),
{
    if a.len() > 0 {
        lemma_top_rows_flat(a.drop_last());
        let rows = top_rows(a.drop_last())->0;
        let all = top_rows(a)->0;
        if let Json::Object(es) = a.last() {
            lemma_flat_entries_flat(None, es);
        }
        assert forall|i: int| 0 <= i < all.len() implies row_flat(#[trigger] all[i]) by {
            if i < rows.len() {
                assert(all[i] == rows[i]);
            }
        }
    }
}

/// Exporting the batch of an ingested event, one JSON object per row, and
/// ingesting the result again under the batch's own leaf fields, with or
/// without a static schema, gives back the same logical batch: the same rows, and for each
/// leaf column one of the same name, type and cells.
pub proof fn lemma_round_trip(
    b: RecordBatch,
    rows: Seq<Row>,
    schema: Seq<Field>,
    static_schema: bool,
    tags: Seq<char>,
    metadata: Seq<char>,
    now: i64,
    b2: RecordBatch,
    body: Json,
    static2: bool,
)
    requires
        event_rows(body) == Some(rows),
        batch_of(b, rows, schema, tags, metadata, now),
        rows_acceptable(schema, static_schema, rows),
    ensures
        event_rows(Json::Array(batch_events(b))) == Some(
            Seq::new(b.num_rows as nat, |i: int| row_object(b, i)),
        ),
        rows_acceptable(data_fields(b), static2, Seq::new(b.num_rows as nat, |i: int| row_object(b, i))),
        batch_of(
            b2,
            Seq::new(b.num_rows as nat, |i: int| row_object(b, i)),
            data_fields(b),
            tags,
            metadata,
            now,
        ) ==> {
            &&& b2.num_rows == b.num_rows
            &&& b2.fields@.len() == b.fields@.len()
            &&& forall|j: int|
                0 <= j < data_names(b).len() ==> exists|j2: int|
                    0 <= j2 < data_names(b2).len() && #[trigger] data_names(b2)[j2] == #[trigger] data_names(
                        b,
                    )[j] && b2.fields@[j2 + 1].data_type == b.fields@[j + 1].data_type
                        && column_cells(b2, j2) == column_cells(b, j)
        },
{
    let names = data_names(b);
    let m = names.len();
    let n = b.num_rows as int;
    let rows2 = Seq::new(b.num_rows as nat, |i: int| row_object(b, i));
    let ds = data_fields(b);
    lemma_sorted_distinct(names);
    // the cells are those of the ingested rows, which flattening leaves as they are
    lemma_event_rows_flat(body);
    assert forall|i: int, j: int| 0 <= i < n && 0 <= j < m implies column_cells(b, j)[i] == cell(
        rows[i],
        names[j],
    ) by {
        assert(b.columns@[j + 1] == b.columns@[j + 1]);
        assert(view_values((b.columns@[j + 1])@) == Seq::new(rows.len(), |ii: int| cell(rows[ii], names[j])));
    }
    assert forall|j: int, i: int| 0 <= j < m && 0 <= i < n implies flat_value(
        #[trigger] column_cells(b, j)[i],
    ) by {
        assert(event_rows(body)->0 == rows);
        assert(row_flat(event_rows(body)->0[i]));
        lemma_cell_flat(rows[i], names[j]);
    }
    assert(flat_cells(b));
    // the exported events flatten to themselves
    let evs = batch_events(b);
    assert forall|i: int|
        0 <= i < evs.len() implies (#[trigger] evs[i]) is Object && forall|j: int|
            0 <= j < evs[i]->Object_0.len() ==> flat_value(#[trigger] evs[i]->Object_0[j].1) by {
        assert forall|j: int| 0 <= j < evs[i]->Object_0.len() implies flat_value(
            #[trigger] evs[i]->Object_0[j].1,
        ) by {
            assert(evs[i]->Object_0[j].1 == column_cells(b, j)[i]);
        }
    }
    lemma_top_rows_identity(evs);
    assert(Seq::new(evs.len(), |i: int| evs[i]->Object_0) =~= rows2);
    // each cell of the new rows is the batch's cell
    assert forall|i: int, j: int| 0 <= i < n && 0 <= j < m implies #[trigger] cell(rows2[i], names[j])
        == column_cells(b, j)[i] by {
        let ks = names;
        let vs = Seq::new(m, |jj: int| column_cells(b, jj)[i]);
        lemma_lookup_distinct(ks, vs, j);
        assert(rows2[i] =~= Seq::new(ks.len(), |mm: int| (ks[mm], vs[mm])));
    }
    // the leaf fields give each name its column's type
    assert forall|j: int| 0 <= j < m implies schema_type(ds, #[trigger] names[j]) == Some(
        b.fields@[j + 1].data_type,
    ) by {
        assert(ds[j] == b.fields@[j + 1]);
        assert forall|mm: int| 0 <= mm < j implies (#[trigger] ds[mm]).name@ != ds[j].name@ by {
            assert(ds[mm] == b.fields@[mm + 1]);
            assert(names[mm] != names[j]);
        }
        lemma_schema_type_at(ds, j);
    }
    // no name of the batch is reserved
    assert forall|j: int| 0 <= j < m implies !is_reserved(#[trigger] names[j]) by {
        assert(names.to_set().contains(names[j]));
        assert(batch_names(rows, schema).contains(names[j]));
        assert(leaf_problem(schema, static_schema, rows, names[j]) == 0);
    }
    // the leaves of the new rows and fields are the batch's names
    assert(batch_names(rows2, ds) =~= names.to_set()) by {
        assert forall|k: Seq<char>| keys_of_rows(rows2).to_set().contains(k) implies names.to_set().contains(k) by {
            assert(keys_of_rows(rows2).contains(k));
            lemma_keys_of_rows_source(rows2, k);
            let i = choose|i: int| 0 <= i < rows2.len() && lookup(#[trigger] rows2[i], k) is Some;
            lemma_lookup_names(rows2[i], k);
            let j = choose|j: int| 0 <= j < rows2[i].len() && (#[trigger] rows2[i][j]).0 == k;
            assert(names[j] == k);
        }
        assert forall|k: Seq<char>| schema_leaf(ds, k) implies names.to_set().contains(k) by {
            let i = choose|i: int| 0 <= i < ds.len() && (#[trigger] ds[i]).name@ == k;
            assert(ds[i] == b.fields@[i + 1]);
            assert(names[i] == k);
        }
        assert forall|k: Seq<char>| names.to_set().contains(k) implies schema_leaf(ds, k) by {
            let j = choose|j: int| 0 <= j < names.len() && names[j] == k;
            assert(ds[j] == b.fields@[j + 1]);
            assert(ds[j].name@ == k);
        }
    }
    // every leaf is acceptable again, under a static schema too
    assert forall|k: Seq<char>| #[trigger] batch_names(rows2, ds).contains(k) implies leaf_problem(
        ds,
        static2,
        rows2,
        k,
    ) == 0 by {
        let j = choose|j: int| 0 <= j < names.len() && names[j] == k;
        assert(names.to_set().contains(k));
        assert(batch_names(rows, schema).contains(k));
        assert(leaf_problem(schema, static_schema, rows, k) == 0);
        assert(field_type(ds, rows2, k) == b.fields@[j + 1].data_type);
        assert(b.fields@[j + 1].data_type == field_type(schema, rows, k));
        assert forall|i: int| 0 <= i < rows2.len() implies valid_for(
            #[trigger] cell(rows2[i], k),
            field_type(ds, rows2, k),
        ) by {
            assert(cell(rows2[i], names[j]) == column_cells(b, j)[i]);
            assert(valid_for(cell(rows[i], k), field_type(schema, rows, k)));
        }
    }
    // the batch of the new rows has the same columns
    if batch_of(b2, rows2, ds, tags, metadata, now) {
        let names2 = data_names(b2);
        lemma_sorted_distinct(names2);
        assert forall|j: int| 0 <= j < m implies exists|j2: int|
            0 <= j2 < data_names(b2).len() && #[trigger] data_names(b2)[j2] == #[trigger] data_names(b)[j]
                && b2.fields@[j2 + 1].data_type == b.fields@[j + 1].data_type && column_cells(b2, j2)
                == column_cells(b, j) by {
            let k = names[j];
            assert(names.to_set().contains(k));
            assert(names2.to_set().contains(k));
            let j2 = choose|j2: int| 0 <= j2 < names2.len() && names2[j2] == k;
            assert(b2.fields@[j2 + 1] == b2.fields@[j2 + 1]);
            assert(b2.columns@[j2 + 1] == b2.columns@[j2 + 1]);
            assert(column_cells(b2, j2) =~= column_cells(b, j)) by {
                assert(b.columns@[j + 1] == b.columns@[j + 1]);
            }
        }
    }
}

} // verus!
