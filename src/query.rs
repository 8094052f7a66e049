//! Post-processing of query results.

use crate::json::{lemma_view_entries, lemma_view_values, view_entries, view_value, view_values, Json, JsonValue};
use crate::text::{has_prefix, starts_with};
use vstd::prelude::*;
use vstd::string::*;

verus! {

/// The first key of the first result, when it is a non-empty object.
pub open spec fn count_key(objs: Seq<Json>) -> Option<Seq<char>> {
    if objs.len() > 0 && objs[0] is Object && objs[0]->Object_0.len() > 0 {
        Some(objs[0]->Object_0[0].0)
    } else {
        None
    }
}

/// The count that a value holds: a non-negative integer.
pub open spec fn count_value(v: Json) -> Option<int> {
    match v {
        Json::Int(i) => if i >= 0 {
            Some(i as int)
        } else {
            None
        },
        Json::UInt(u) => Some(u as int),
        _ => None,
    }
}

/// A count as a JSON integer: signed when it fits an `i64`.
pub open spec fn count_json(n: int) -> Json {
    if n <= i64::MAX {
        Json::Int(n as i64)
    } else {
        Json::UInt(n as u64)
    }
}

/// Whether every result is an object whose entries are all named `key` and
/// hold non-negative integers.
pub open spec fn all_counts(objs: Seq<Json>, key: Seq<char>) -> bool {
    forall|i: int|
        0 <= i < objs.len() ==> (#[trigger] objs[i]) is Object && forall|j: int|
            0 <= j < objs[i]->Object_0.len() ==> {
                &&& (#[trigger] objs[i]->Object_0[j]).0 == key
                &&& count_value(objs[i]->Object_0[j].1) is Some
            }
}

/// Sum of the integers of some entries.
pub open spec fn entries_sum(es: Seq<(Seq<char>, Json)>) -> int
    decreases es.len(),
{
    if es.len() == 0 {
        0
    } else {
        entries_sum(es.drop_last()) + count_value(es.last().1)->0
    }
}

/// Sum of the integers of all entries of some objects.
pub open spec fn counts_sum(objs: Seq<Json>) -> int
    decreases objs.len(),
{
    if objs.len() == 0 {
        0
    } else {
        counts_sum(objs.drop_last()) + entries_sum(objs.last()->Object_0)
    }
}

/// What `flatten_objects_for_count` returns: when all results are counts under
/// one key starting with `COUNT`, one object with that key and their sum;
/// else the results unchanged.
pub open spec fn flattened_counts(objs: Seq<Json>) -> Seq<Json> {
    match count_key(objs) {
        Some(k) => if has_prefix(k, "COUNT"@) && all_counts(objs, k) && counts_sum(objs) <= u64::MAX {
            seq![Json::Object(seq![(k, count_json(counts_sum(objs)))])]
        } else {
            objs
        },
        None => objs,
    }
}

proof fn lemma_entries_sum_append(a: Seq<(Seq<char>, Json)>, b: Seq<(Seq<char>, Json)>)
    ensures
        entries_sum(a + b) == entries_sum(a) + entries_sum(b),
    decreases b.len(),
{
    if b.len() == 0 {
        assert(a + b =~= a);
    } else {
        lemma_entries_sum_append(a, b.drop_last());
        assert((a + b).drop_last() =~= a + b.drop_last());
    }
}

proof fn lemma_entries_sum_nonneg(a: Seq<(Seq<char>, Json)>, key: Seq<char>)
    requires
        forall|j: int| 0 <= j < a.len() ==> count_value((#[trigger] a[j]).1) is Some,
    ensures
        entries_sum(a) >= 0,
    decreases a.len(),
{
    if a.len() > 0 {
        assert(forall|j: int| 0 <= j < a.drop_last().len() ==> a.drop_last()[j] == a[j]);
        lemma_entries_sum_nonneg(a.drop_last(), key);
        assert(a.last() == a[a.len() - 1]);
    }
}

proof fn lemma_counts_sum_append(a: Seq<Json>, b: Seq<Json>)
    ensures
        counts_sum(a + b) == counts_sum(a) + counts_sum(b),
    decreases b.len(),
{
    if b.len() == 0 {
        assert(a + b =~= a);
    } else {
        lemma_counts_sum_append(a, b.drop_last());
        assert((a + b).drop_last() =~= a + b.drop_last());
    }
}

proof fn lemma_counts_sum_nonneg(a: Seq<Json>, key: Seq<char>)
    requires
        all_counts(a, key),
    ensures
        counts_sum(a) >= 0,
    decreases a.len(),
{
    if a.len() > 0 {
        assert(all_counts(a.drop_last(), key)) by {
            assert forall|i: int| 0 <= i < a.drop_last().len() implies a.drop_last()[i] == a[i] by {}
        }
        lemma_counts_sum_nonneg(a.drop_last(), key);
        assert(a.last() == a[a.len() - 1]);
        let es = a.last()->Object_0;
        assert forall|j: int| 0 <= j < es.len() implies count_value((#[trigger] es[j]).1) is Some by {
            assert(a[a.len() - 1]->Object_0[j] == es[j]);
        }
        lemma_entries_sum_nonneg(es, key);
    }
}

proof fn lemma_sum_bound(ov: Seq<Json>, key: Seq<char>, i: int, ev: Seq<(Seq<char>, Json)>, j: int)
    requires
        all_counts(ov, key),
        0 <= i < ov.len(),
        ov[i] == Json::Object(ev),
        0 <= j <= ev.len(),
    ensures
        counts_sum(ov) >= counts_sum(ov.subrange(0, i)) + entries_sum(ev.subrange(0, j)),
{
    let rest = ov.subrange(i + 1, ov.len() as int);
    assert(ov =~= ov.subrange(0, i + 1) + rest);
    lemma_counts_sum_append(ov.subrange(0, i + 1), rest);
    assert(ov.subrange(0, i + 1).drop_last() =~= ov.subrange(0, i));
    assert(all_counts(rest, key)) by {
        assert forall|m: int| 0 <= m < rest.len() implies rest[m] == ov[m + i + 1] by {}
    }
    lemma_counts_sum_nonneg(rest, key);
    assert(ev =~= ev.subrange(0, j) + ev.subrange(j, ev.len() as int));
    lemma_entries_sum_append(ev.subrange(0, j), ev.subrange(j, ev.len() as int));
    let tail = ev.subrange(j, ev.len() as int);
    assert forall|m: int| 0 <= m < tail.len() implies count_value((#[trigger] tail[m]).1) is Some by {
        assert(tail[m] == ov[i]->Object_0[m + j]);
    }
    lemma_entries_sum_nonneg(tail, key);
}

/// When every result of a count query is an object of one key starting with
/// `COUNT`, merges them into one object holding the sum of their counts; any
/// other results are returned as they are.
pub fn flatten_objects_for_count(objects: Vec<JsonValue>) -> (r: Vec<JsonValue>)
    ensures
        view_values(r@) == flattened_counts(view_values(objects@)),
{
    let ghost ov = view_values(objects@);
    proof {
        lemma_view_values(objects@);
    }
    if objects.len() == 0 {
        return objects;
    }
    let key: String = match &objects[0] {
        JsonValue::Object(es) => {
            if es.len() == 0 {
                return objects;
            }
            proof {
                lemma_view_entries(es@);
            }
            es[0].0.clone()
        },
        _ => {
            return objects;
        },
    };
    proof {
        reveal_strlit("COUNT");
    }
    if !starts_with(key.as_str(), "COUNT") {
        return objects;
    }
    let mut sum: u64 = 0;
    let mut i: usize = 0;
    while i < objects.len()
        invariant
            ov == view_values(objects@),
            ov.len() == objects@.len(),
            forall|m: int| 0 <= m < objects@.len() ==> #[trigger] ov[m] == view_value(objects@[m]),
            count_key(ov) == Some(key@),
            has_prefix(key@, "COUNT"@),
            i <= ov.len(),
            all_counts(ov.subrange(0, i as int), key@),
            sum as int == counts_sum(ov.subrange(0, i as int)),
            sum >= 0,
        decreases ov.len() - i,
    {
        let es = match &objects[i] {
            JsonValue::Object(es) => es,
            _ => {
                assert(!(ov[i as int] is Object));
                assert(!all_counts(ov, key@));
                return objects;
            },
        };
        let ghost ev = view_entries(es@);
        proof {
            lemma_view_entries(es@);
            assert(ov[i as int] == Json::Object(ev));
        }
        let mut j: usize = 0;
        let mut part: u64 = 0;
        while j < es.len()
            invariant
                ev == view_entries(es@),
                ev.len() == es@.len(),
                forall|m: int| 0 <= m < es@.len() ==> #[trigger] ev[m] == (es@[m].0@, view_value(es@[m].1)),
                j <= ev.len(),
                forall|m: int| 0 <= m < j ==> {
                    &&& (#[trigger] ev[m]).0 == key@
                    &&& count_value(ev[m].1) is Some
                },
                part >= 0,
                part as int == entries_sum(ev.subrange(0, j as int)),
                ov == view_values(objects@),
                i < ov.len(),
                ov[i as int] == Json::Object(ev),
                count_key(ov) == Some(key@),
                sum >= 0,
                sum as int == counts_sum(ov.subrange(0, i as int)),
            decreases ev.len() - j,
        {
            proof {
                assert(ev.subrange(0, j as int + 1).drop_last() =~= ev.subrange(0, j as int));
            }
            proof {
                assert(ov[i as int]->Object_0[j as int] == ev[j as int]);
            }
            if es[j].0 != key {
                assert(!all_counts(ov, key@));
                return objects;
            }
            let value: u64 = match &es[j].1 {
                JsonValue::Int(v) => {
                    if *v < 0 {
                        assert(!all_counts(ov, key@));
                        return objects;
                    }
                    *v as u64
                },
                JsonValue::UInt(u) => *u,
                _ => {
                    assert(!all_counts(ov, key@));
                    return objects;
                },
            };
            assert(count_value(ev[j as int].1) == Some(value as int));
            match part.checked_add(value) {
                Some(p) => {
                    part = p;
                },
                None => {
                    proof {
                        if all_counts(ov, key@) {
                            lemma_sum_bound(ov, key@, i as int, ev, j as int + 1);
                        }
                    }
                    return objects;
                },
            }
            j = j + 1;
        }
        proof {
            assert(ev.subrange(0, j as int) =~= ev);
        }
        match sum.checked_add(part) {
            Some(t) => {
                sum = t;
            },
            None => {
                proof {
                    if all_counts(ov, key@) {
                        lemma_sum_bound(ov, key@, i as int, ev, ev.len() as int);
                    }
                }
                return objects;
            },
        }
        proof {
            let t = ov.subrange(0, i as int + 1);
            assert(t.drop_last() =~= ov.subrange(0, i as int));
            assert(t.last() == ov[i as int]);
        }
        i = i + 1;
    }
    proof {
        assert(ov.subrange(0, i as int) =~= ov);
    }
    let total = if sum <= i64::MAX as u64 {
        JsonValue::Int(sum as i64)
    } else {
        JsonValue::UInt(sum)
    };
    assert(view_value(total) == count_json(sum as int));
    let out = vec![JsonValue::Object(vec![(key, total)])];
    proof {
        assert(view_entries(out@[0]->Object_0@) =~= seq![(key@, count_json(sum as int))]) by {
            lemma_view_entries(out@[0]->Object_0@);
        }
        lemma_view_values(out@);
        assert(view_values(out@) =~= flattened_counts(ov));
    }
    out
}

} // verus!
