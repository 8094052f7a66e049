//! Flattening of JSON events into rows of leaves: a nested object field `c`
//! with key `a` becomes the leaf `c_a`; an array of objects under `c` becomes
//! one list per leaf key of its objects, with nulls where an object lacks it.

use crate::json::{
    lemma_view_entries, lemma_view_entries_append, lemma_view_entries_push, lemma_view_values,
    lemma_view_values_push,
    view_entries, view_value, view_values, Json, JsonValue,
};
use vstd::prelude::*;
use vstd::string::*;

verus! {

/// A flattened row: leaf names with their values; a later entry with the same
/// name shadows an earlier one.
pub type Row = Seq<(Seq<char>, Json)>;

/// The leaf name of `key` under `prefix`.
pub open spec fn join_key(prefix: Option<Seq<char>>, key: Seq<char>) -> Seq<char> {
    match prefix {
        Some(p) => p + "_"@ + key,
        None => key,
    }
}

/// Whether some element of `s` is an object.
pub open spec fn has_object(s: Seq<Json>) -> bool {
    exists|i: int| 0 <= i < s.len() && (#[trigger] s[i]) is Object
}

/// The flattened entries of an object's entries, or `None` when an array of
/// objects also holds a value that is neither an object nor null.
pub open spec fn flat_entries(prefix: Option<Seq<char>>, es: Seq<(Seq<char>, Json)>) -> Option<Row>
    decreases es,
{
    if es.len() == 0 {
        Some(Seq::empty())
    } else {
        match flat_entries(prefix, es.drop_last()) {
            None => None,
            Some(front) => match flat_entry(prefix, es.last()) {
                None => None,
                Some(back) => Some(front + back),
            },
        }
    }
}

/// The flattened form of one entry.
pub open spec fn flat_entry(prefix: Option<Seq<char>>, e: (Seq<char>, Json)) -> Option<Row>
    decreases e,
{
    let key = join_key(prefix, e.0);
    match e.1 {
        Json::Object(c) => flat_entries(Some(key), c),
        Json::Array(a) => if has_object(a) {
            match flat_rows(key, a) {
                None => None,
                Some(rows) => Some(columns_of(rows)),
            }
        } else {
            Some(seq![(key, e.1)])
        },
        _ => Some(seq![(key, e.1)]),
    }
}

/// The flattened rows of the elements of an array of objects under `parent`;
/// a null element gives an empty row.
pub open spec fn flat_rows(parent: Seq<char>, a: Seq<Json>) -> Option<Seq<Row>>
    decreases a,
{
    if a.len() == 0 {
        Some(Seq::empty())
    } else {
        match flat_rows(parent, a.drop_last()) {
            None => None,
            Some(rows) => match a.last() {
                Json::Object(c) => match flat_entries(Some(parent), c) {
                    None => None,
                    Some(r) => Some(rows.push(r)),
                },
                Json::Null => Some(rows.push(Seq::empty())),
                _ => None,
            },
        }
    }
}

/// The value that a row gives to a leaf: its last entry of that name.
pub open spec fn lookup(row: Row, k: Seq<char>) -> Option<Json>
    decreases row.len(),
{
    if row.len() == 0 {
        None
    } else if row.last().0 == k {
        Some(row.last().1)
    } else {
        lookup(row.drop_last(), k)
    }
}

/// The value of a leaf in a row, null where the row lacks it.
pub open spec fn cell(row: Row, k: Seq<char>) -> Json {
    match lookup(row, k) {
        Some(v) => v,
        None => Json::Null,
    }
}

/// `ks` with `k` appended unless already present.
pub open spec fn add_key(ks: Seq<Seq<char>>, k: Seq<char>) -> Seq<Seq<char>> {
    if ks.contains(k) {
        ks
    } else {
        ks.push(k)
    }
}

/// `ks` extended by the names of `row`, in order of first appearance.
pub open spec fn keys_of_row(ks: Seq<Seq<char>>, row: Row) -> Seq<Seq<char>>
    decreases row.len(),
{
    if row.len() == 0 {
        ks
    } else {
        add_key(keys_of_row(ks, row.drop_last()), row.last().0)
    }
}

/// The distinct leaf names of `rows`, in order of first appearance.
pub open spec fn keys_of_rows(rows: Seq<Row>) -> Seq<Seq<char>>
    decreases rows.len(),
{
    if rows.len() == 0 {
        Seq::empty()
    } else {
        keys_of_row(keys_of_rows(rows.drop_last()), rows.last())
    }
}

/// One list per leaf name of `rows`: the leaf's value in each row, or null.
pub open spec fn columns_of(rows: Seq<Row>) -> Row {
    let ks = keys_of_rows(rows);
    Seq::new(
        ks.len(),
        |j: int| (ks[j], Json::Array(Seq::new(rows.len(), |i: int| cell(rows[i], ks[j])))),
    )
}

/// The rows of an event: one per object of a top-level array, or one for a
/// top-level object; `None` for any other payload or one that cannot be
/// flattened.
pub open spec fn event_rows(v: Json) -> Option<Seq<Row>> {
    match v {
        Json::Object(es) => match flat_entries(None, es) {
            None => None,
            Some(r) => Some(seq![r]),
        },
        Json::Array(a) => top_rows(a),
        _ => None,
    }
}

/// The flattened rows of the objects of a top-level array.
pub open spec fn top_rows(a: Seq<Json>) -> Option<Seq<Row>>
    decreases a.len(),
{
    if a.len() == 0 {
        Some(Seq::empty())
    } else {
        match top_rows(a.drop_last()) {
            None => None,
            Some(rows) => match a.last() {
                Json::Object(es) => match flat_entries(None, es) {
                    None => None,
                    Some(r) => Some(rows.push(r)),
                },
                _ => None,
            },
        }
    }
}

/// The exec form of a flattened row.
pub type Entries = Vec<(String, JsonValue)>;

pub open spec fn view_rows(rows: Seq<Entries>) -> Seq<Row> {
    Seq::new(rows.len(), |i: int| view_entries(rows[i]@))
}

fn key_under(prefix: Option<&String>, key: &String) -> (r: String)
    ensures
        r@ == join_key(
            match prefix {
                Some(p) => Some(p@),
                None => None,
            },
            key@,
        ),
{
    match prefix {
        Some(p) => {
            let mut s = p.clone();
            s.append("_");
            s.append(key.as_str());
            proof {
                reveal_strlit("_");
            }
            s
        },
        None => key.clone(),
    }
}

pub open spec fn opt_view(p: Option<&String>) -> Option<Seq<char>> {
    match p {
        Some(s) => Some(s@),
        None => None,
    }
}

/// Flattens the entries of an object under `prefix`.
pub fn flatten_entries(prefix: Option<&String>, es: &Vec<(String, JsonValue)>) -> (r: Option<Entries>)
    ensures
        match r {
            Some(out) => flat_entries(opt_view(prefix), view_entries(es@)) == Some(view_entries(out@)),
            None => flat_entries(opt_view(prefix), view_entries(es@)) is None,
        },
    decreases es@, 1nat,
{
    let ghost v = view_entries(es@);
    proof {
        lemma_view_entries(es@);
        assert(v.subrange(0, 0) =~= Seq::<(Seq<char>, Json)>::empty());
    }
    let mut out: Entries = Vec::new();
    let mut i: usize = 0;
    while i < es.len()
        invariant
            v == view_entries(es@),
            v.len() == es@.len(),
            forall|j: int| 0 <= j < es@.len() ==> #[trigger] v[j] == (es@[j].0@, view_value(es@[j].1)),
            i <= es@.len(),
            flat_entries(opt_view(prefix), v.subrange(0, i as int)) == Some(view_entries(out@)),
        decreases es@.len() - i,
    {
        proof {
            let t = v.subrange(0, i as int + 1);
            assert(t.drop_last() =~= v.subrange(0, i as int));
            assert(t.last() == v[i as int]);
            assert(decreases_to!(es@ => es@[i as int]));
        }
        let back = flatten_entry(prefix, &es[i]);
        match back {
            None => {
                proof {
                    lemma_flat_entries_fail(opt_view(prefix), v, i as int + 1);
                }
                return None;
            },
            Some(b) => {
                let mut b = b;
                let ghost prev = out@;
                let ghost bv = b@;
                out.append(&mut b);
                proof {
                    lemma_view_entries_append(prev, bv);
                }
            },
        }
        i = i + 1;
    }
    proof {
        assert(v.subrange(0, i as int) =~= v);
    }
    Some(out)
}

/// Flattens one entry of an object under `prefix`.
pub fn flatten_entry(prefix: Option<&String>, e: &(String, JsonValue)) -> (r: Option<Entries>)
    ensures
        match r {
            Some(out) => flat_entry(opt_view(prefix), (e.0@, view_value(e.1))) == Some(
                view_entries(out@),
            ),
            None => flat_entry(opt_view(prefix), (e.0@, view_value(e.1))) is None,
        },
    decreases e.1, 0nat,
{
    let key = key_under(prefix, &e.0);
    match &e.1 {
        JsonValue::Object(c) => {
            proof {
                assert(decreases_to!(e.1 => e.1->Object_0));
                assert(decreases_to!(e.1->Object_0 => e.1->Object_0@));
            }
            flatten_entries(Some(&key), c)
        },
        JsonValue::Array(a) => {
            proof {
                lemma_view_values(a@);
            }
            if any_object(a) {
                proof {
                    assert(decreases_to!(e.1 => e.1->Array_0));
                    assert(decreases_to!(e.1->Array_0 => e.1->Array_0@));
                }
                match flatten_rows(&key, a) {
                    None => None,
                    Some(rows) => Some(columns(&rows)),
                }
            } else {
                let ghost ev = view_value(e.1);
                let out = vec![(key, e.1.copy())];
                proof {
                    lemma_view_entries_push(Seq::empty(), out@[0]);
                    assert(out@ =~= Seq::<(String, JsonValue)>::empty().push(out@[0]));
                    assert(view_entries(Seq::<(String, JsonValue)>::empty()) =~= Seq::empty());
                }
                Some(out)
            }
        },
        _ => {
            let out = vec![(key, e.1.copy())];
            proof {
                lemma_view_entries_push(Seq::empty(), out@[0]);
                assert(out@ =~= Seq::<(String, JsonValue)>::empty().push(out@[0]));
                assert(view_entries(Seq::<(String, JsonValue)>::empty()) =~= Seq::empty());
            }
            Some(out)
        },
    }
}

fn any_object(a: &Vec<JsonValue>) -> (r: bool)
    ensures
        r == has_object(view_values(a@)),
{
    proof {
        lemma_view_values(a@);
    }
    let mut i: usize = 0;
    while i < a.len()
        invariant
            i <= a@.len(),
            view_values(a@).len() == a@.len(),
            forall|j: int| 0 <= j < a@.len() ==> #[trigger] view_values(a@)[j] == view_value(a@[j]),
            forall|j: int| 0 <= j < i ==> !(#[trigger] view_values(a@)[j] is Object),
        decreases a@.len() - i,
    {
        if let JsonValue::Object(_) = &a[i] {
            assert(view_values(a@)[i as int] is Object);
            return true;
        }
        i = i + 1;
    }
    false
}

/// Flattens the elements of an array of objects under `parent`.
pub fn flatten_rows(parent: &String, a: &Vec<JsonValue>) -> (r: Option<Vec<Entries>>)
    ensures
        match r {
            Some(rows) => flat_rows(parent@, view_values(a@)) == Some(view_rows(rows@)),
            None => flat_rows(parent@, view_values(a@)) is None,
        },
    decreases a@, 1nat,
{
    let ghost v = view_values(a@);
    proof {
        lemma_view_values(a@);
        assert(v.subrange(0, 0) =~= Seq::<Json>::empty());
        assert(view_rows(Seq::empty()) =~= Seq::empty());
    }
    let mut rows: Vec<Entries> = Vec::new();
    let mut i: usize = 0;
    while i < a.len()
        invariant
            v == view_values(a@),
            v.len() == a@.len(),
            forall|j: int| 0 <= j < a@.len() ==> #[trigger] v[j] == view_value(a@[j]),
            i <= a@.len(),
            flat_rows(parent@, v.subrange(0, i as int)) == Some(view_rows(rows@)),
        decreases a@.len() - i,
    {
        proof {
            let t = v.subrange(0, i as int + 1);
            assert(t.drop_last() =~= v.subrange(0, i as int));
            assert(t.last() == v[i as int]);
        }
        let ghost prev = rows@;
        match &a[i] {
            JsonValue::Object(c) => {
                proof {
                    assert(decreases_to!(a@ => a@[i as int]));
                    assert(decreases_to!(a@[i as int] => a@[i as int]->Object_0));
                    assert(decreases_to!(a@[i as int]->Object_0 => a@[i as int]->Object_0@));
                }
                match flatten_entries(Some(parent), c) {
                    None => {
                        proof {
                            lemma_flat_rows_fail(parent@, v, i as int + 1);
                        }
                        return None;
                    },
                    Some(r) => {
                        rows.push(r);
                    },
                }
            },
            JsonValue::Null => {
                rows.push(Vec::new());
            },
            _ => {
                proof {
                    lemma_flat_rows_fail(parent@, v, i as int + 1);
                }
                return None;
            },
        }
        proof {
            assert(view_rows(rows@) =~= view_rows(prev).push(view_entries(rows@.last()@)));
        }
        i = i + 1;
    }
    proof {
        assert(v.subrange(0, i as int) =~= v);
    }
    Some(rows)
}

proof fn lemma_flat_entries_fail(p: Option<Seq<char>>, v: Seq<(Seq<char>, Json)>, k: int)
    requires
        0 <= k <= v.len(),
        flat_entries(p, v.subrange(0, k)) is None,
    ensures
        flat_entries(p, v) is None,
    decreases v.len() - k,
{
    if k == v.len() {
        assert(v.subrange(0, k) =~= v);
    } else {
        assert(v.subrange(0, k + 1).drop_last() =~= v.subrange(0, k));
        lemma_flat_entries_fail(p, v, k + 1);
    }
}

proof fn lemma_flat_rows_fail(p: Seq<char>, v: Seq<Json>, k: int)
    requires
        0 <= k <= v.len(),
        flat_rows(p, v.subrange(0, k)) is None,
    ensures
        flat_rows(p, v) is None,
    decreases v.len() - k,
{
    if k == v.len() {
        assert(v.subrange(0, k) =~= v);
    } else {
        assert(v.subrange(0, k + 1).drop_last() =~= v.subrange(0, k));
        lemma_flat_rows_fail(p, v, k + 1);
    }
}

/// Whether `ks` holds `k`.
fn contains_key(ks: &Vec<String>, k: &String) -> (r: bool)
    ensures
        r == ks@.map_values(|s: String| s@).contains(k@),
{
    let ghost kv = ks@.map_values(|s: String| s@);
    let mut i: usize = 0;
    while i < ks.len()
        invariant
            i <= ks@.len(),
            kv == ks@.map_values(|s: String| s@),
            forall|j: int| 0 <= j < i ==> kv[j] != k@,
        decreases ks@.len() - i,
    {
        if ks[i] == *k {
            assert(kv[i as int] == k@);
            return true;
        }
        i = i + 1;
    }
    false
}

/// The distinct leaf names of `rows`, in order of first appearance.
pub(crate) fn row_keys(rows: &Vec<Entries>) -> (r: Vec<String>)
    ensures
        r@.map_values(|s: String| s@) == keys_of_rows(view_rows(rows@)),
{
    let ghost vr = view_rows(rows@);
    let mut ks: Vec<String> = Vec::new();
    let mut i: usize = 0;
    proof {
        assert(vr.subrange(0, 0) =~= Seq::<Row>::empty());
        assert(ks@.map_values(|s: String| s@) =~= Seq::<Seq<char>>::empty());
    }
    while i < rows.len()
        invariant
            vr == view_rows(rows@),
            i <= rows@.len(),
            ks@.map_values(|s: String| s@) == keys_of_rows(vr.subrange(0, i as int)),
        decreases rows@.len() - i,
    {
        let row = &rows[i];
        let ghost rv = view_entries(row@);
        let ghost before = ks@.map_values(|s: String| s@);
        proof {
            lemma_view_entries(row@);
            assert(rv.subrange(0, 0) =~= Seq::<(Seq<char>, Json)>::empty());
        }
        let mut j: usize = 0;
        while j < row.len()
            invariant
                vr == view_rows(rows@),
                i < rows@.len(),
                rv == view_entries(row@),
                rv.len() == row@.len(),
                forall|m: int| 0 <= m < row@.len() ==> #[trigger] rv[m] == (row@[m].0@, view_value(row@[m].1)),
                j <= row@.len(),
                ks@.map_values(|s: String| s@) == keys_of_row(before, rv.subrange(0, j as int)),
            decreases row@.len() - j,
        {
            proof {
                let t = rv.subrange(0, j as int + 1);
                assert(t.drop_last() =~= rv.subrange(0, j as int));
                assert(t.last() == rv[j as int]);
            }
            if !contains_key(&ks, &row[j].0) {
                let ghost prevk = ks@;
                ks.push(row[j].0.clone());
                proof {
                    assert(ks@.map_values(|s: String| s@) =~= prevk.map_values(|s: String| s@).push(
                        row@[j as int].0@,
                    ));
                }
            }
            j = j + 1;
        }
        proof {
            assert(rv.subrange(0, j as int) =~= rv);
            let t = vr.subrange(0, i as int + 1);
            assert(t.drop_last() =~= vr.subrange(0, i as int));
            assert(t.last() == vr[i as int]);
        }
        i = i + 1;
    }
    proof {
        assert(vr.subrange(0, i as int) =~= vr);
    }
    ks
}

/// The value that a row gives to leaf `k`, null where it lacks it.
pub(crate) fn cell_of(row: &Entries, k: &String) -> (r: JsonValue)
    ensures
        view_value(r) == cell(view_entries(row@), k@),
{
    let ghost rv = view_entries(row@);
    proof {
        lemma_view_entries(row@);
        assert(rv.subrange(0, rv.len() as int) =~= rv);
    }
    let mut i: usize = row.len();
    while i > 0
        invariant
            i <= row@.len(),
            rv == view_entries(row@),
            rv.len() == row@.len(),
            forall|m: int| 0 <= m < row@.len() ==> #[trigger] rv[m] == (row@[m].0@, view_value(row@[m].1)),
            lookup(rv, k@) == lookup(rv.subrange(0, i as int), k@),
        decreases i,
    {
        proof {
            let t = rv.subrange(0, i as int);
            assert(t.drop_last() =~= rv.subrange(0, i as int - 1));
            assert(t.last() == rv[i as int - 1]);
        }
        if row[i - 1].0 == *k {
            return row[i - 1].1.copy();
        }
        i = i - 1;
    }
    JsonValue::Null
}

/// One list per leaf name of `rows`: the leaf's value in each row, or null.
fn columns(rows: &Vec<Entries>) -> (r: Entries)
    ensures
        view_entries(r@) == columns_of(view_rows(rows@)),
{
    let ghost vr = view_rows(rows@);
    let ks = row_keys(rows);
    let ghost kv = ks@.map_values(|s: String| s@);
    let mut out: Entries = Vec::new();
    let mut j: usize = 0;
    while j < ks.len()
        invariant
            vr == view_rows(rows@),
            kv == ks@.map_values(|s: String| s@),
            kv == keys_of_rows(vr),
            j <= ks@.len(),
            view_entries(out@) == columns_of(vr).subrange(0, j as int),
        decreases ks@.len() - j,
    {
        let mut col: Vec<JsonValue> = Vec::new();
        let mut i: usize = 0;
        while i < rows.len()
            invariant
                vr == view_rows(rows@),
                kv == ks@.map_values(|s: String| s@),
                j < ks@.len(),
                i <= rows@.len(),
                view_values(col@) == Seq::new(i as nat, |m: int| cell(vr[m], kv[j as int])),
            decreases rows@.len() - i,
        {
            let c = cell_of(&rows[i], &ks[j]);
            let ghost prev = col@;
            col.push(c);
            proof {
                lemma_view_values_push(prev, c);
                assert(view_values(col@) =~= Seq::new(
                    (i + 1) as nat,
                    |m: int| cell(vr[m], kv[j as int]),
                ));
            }
            i = i + 1;
        }
        let ghost prev = out@;
        let entry = (ks[j].clone(), JsonValue::Array(col));
        out.push(entry);
        proof {
            lemma_view_entries_push(prev, entry);
            assert(vr.len() == rows@.len());
            assert(view_entries(out@) =~= columns_of(vr).subrange(0, j as int + 1));
        }
        j = j + 1;
    }
    proof {
        assert(columns_of(vr).subrange(0, j as int) =~= columns_of(vr));
    }
    out
}


proof fn lemma_top_rows_fail(v: Seq<Json>, k: int)
    requires
        0 <= k <= v.len(),
        top_rows(v.subrange(0, k)) is None,
    ensures
        top_rows(v) is None,
    decreases v.len() - k,
{
    if k == v.len() {
        assert(v.subrange(0, k) =~= v);
    } else {
        assert(v.subrange(0, k + 1).drop_last() =~= v.subrange(0, k));
        lemma_top_rows_fail(v, k + 1);
    }
}

/// The flattened rows of an event: one for an object, one per object of an
/// array of objects; `None` for any other payload.
pub fn flatten_event(v: &JsonValue) -> (r: Option<Vec<Entries>>)
    ensures
        match r {
            Some(rows) => event_rows(view_value(*v)) == Some(view_rows(rows@)),
            None => event_rows(view_value(*v)) is None,
        },
{
    match v {
        JsonValue::Object(es) => match flatten_entries(None, es) {
            None => None,
            Some(row) => {
                let rows = vec![row];
                proof {
                    assert(view_rows(rows@) =~= seq![view_entries(rows@[0]@)]);
                }
                Some(rows)
            },
        },
        JsonValue::Array(a) => {
            let ghost av = view_values(a@);
            proof {
                lemma_view_values(a@);
                assert(av.subrange(0, 0) =~= Seq::<Json>::empty());
                assert(view_rows(Seq::empty()) =~= Seq::empty());
            }
            let mut rows: Vec<Entries> = Vec::new();
            let mut i: usize = 0;
            while i < a.len()
                invariant
                    av == view_values(a@),
                    event_rows(view_value(*v)) == top_rows(av),
                    av.len() == a@.len(),
                    forall|j: int| 0 <= j < a@.len() ==> #[trigger] av[j] == view_value(a@[j]),
                    i <= a@.len(),
                    top_rows(av.subrange(0, i as int)) == Some(view_rows(rows@)),
                decreases a@.len() - i,
            {
                proof {
                    let t = av.subrange(0, i as int + 1);
                    assert(t.drop_last() =~= av.subrange(0, i as int));
                    assert(t.last() == av[i as int]);
                }
                let ghost prev = rows@;
                match &a[i] {
                    JsonValue::Object(es) => match flatten_entries(None, es) {
                        None => {
                            proof {
                                lemma_top_rows_fail(av, i as int + 1);
                            }
                            return None;
                        },
                        Some(row) => {
                            rows.push(row);
                        },
                    },
                    _ => {
                        proof {
                            lemma_top_rows_fail(av, i as int + 1);
                        }
                        return None;
                    },
                }
                proof {
                    assert(view_rows(rows@) =~= view_rows(prev).push(view_entries(rows@.last()@)));
                }
                i = i + 1;
            }
            proof {
                assert(av.subrange(0, i as int) =~= av);
            }
            Some(rows)
        },
        _ => None,
    }
}


proof fn lemma_keys_of_row(ks: Seq<Seq<char>>, row: Row, k: Seq<char>)
    ensures
        ks.contains(k) ==> keys_of_row(ks, row).contains(k),
        lookup(row, k) is Some ==> keys_of_row(ks, row).contains(k),
    decreases row.len(),
{
    if row.len() > 0 {
        lemma_keys_of_row(ks, row.drop_last(), k);
        let front = keys_of_row(ks, row.drop_last());
        if !front.contains(row.last().0) {
            assert(front.push(row.last().0)[front.len() as int] == row.last().0);
            if front.contains(k) {
                let m = choose|m: int| 0 <= m < front.len() && front[m] == k;
                assert(front.push(row.last().0)[m] == k);
            }
        }
    }
}

/// A leaf that some row gives a value is among the leaf names of the rows.
pub proof fn lemma_keys_of_rows(rows: Seq<Row>, i: int, k: Seq<char>)
    requires
        0 <= i < rows.len(),
        lookup(rows[i], k) is Some,
    ensures
        keys_of_rows(rows).contains(k),
    decreases rows.len(),
{
    let last = rows.len() - 1;
    if i == last {
        lemma_keys_of_row(keys_of_rows(rows.drop_last()), rows.last(), k);
    } else {
        assert(rows.drop_last()[i] == rows[i]);
        lemma_keys_of_rows(rows.drop_last(), i, k);
        lemma_keys_of_row(keys_of_rows(rows.drop_last()), rows.last(), k);
    }
}

/// A top-level array gives one row per element when it can be flattened.
pub proof fn lemma_top_rows_len(a: Seq<Json>)
    ensures
        top_rows(a) matches Some(rows) ==> rows.len() == a.len(),
    decreases a.len(),
{
    if a.len() > 0 {
        lemma_top_rows_len(a.drop_last());
    }
}

/// A top-level array with an element that is not an object cannot be flattened.
pub proof fn lemma_top_rows_non_object(a: Seq<Json>, i: int)
    requires
        0 <= i < a.len(),
        !(a[i] is Object),
    ensures
        top_rows(a) is None,
    decreases a.len(),
{
    if i == a.len() - 1 {
    } else {
        assert(a.drop_last()[i] == a[i]);
        lemma_top_rows_non_object(a.drop_last(), i);
    }
}

} // verus!
