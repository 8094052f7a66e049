//! JSON values as the library holds them, and their mathematical view.

use vstd::prelude::*;

verus! {

/// A JSON value. Numbers are integers when they fit an `i64`, unsigned
/// integers when they fit a `u64` only, else the IEEE 754 bits of their double
/// value. Object entries keep their order.
#[derive(Debug, PartialEq)]
pub enum JsonValue {
    Null,
    Bool(bool),
    Int(i64),
    UInt(u64),
    Float(u64),
    Str(String),
    Array(Vec<JsonValue>),
    Object(Vec<(String, JsonValue)>),
}

/// The mathematical view of a JSON value.
pub enum Json {
    Null,
    Bool(bool),
    Int(i64),
    UInt(u64),
    Float(u64),
    Str(Seq<char>),
    Array(Seq<Json>),
    Object(Seq<(Seq<char>, Json)>),
}

pub open spec fn view_values(s: Seq<JsonValue>) -> Seq<Json>
    decreases s,
{
    if s.len() == 0 {
        Seq::empty()
    } else {
        view_values(s.drop_last()).push(view_value(s.last()))
    }
}

pub open spec fn view_entries(s: Seq<(String, JsonValue)>) -> Seq<(Seq<char>, Json)>
    decreases s,
{
    if s.len() == 0 {
        Seq::empty()
    } else {
        view_entries(s.drop_last()).push((s.last().0@, view_value(s.last().1)))
    }
}

pub open spec fn view_value(v: JsonValue) -> Json
    decreases v,
{
    match v {
        JsonValue::Null => Json::Null,
        JsonValue::Bool(b) => Json::Bool(b),
        JsonValue::Int(i) => Json::Int(i),
        JsonValue::UInt(u) => Json::UInt(u),
        JsonValue::Float(f) => Json::Float(f),
        JsonValue::Str(s) => Json::Str(s@),
        JsonValue::Array(a) => Json::Array(view_values(a@)),
        JsonValue::Object(o) => Json::Object(view_entries(o@)),
    }
}

impl View for JsonValue {
    type V = Json;

    open spec fn view(&self) -> Json {
        view_value(*self)
    }
}


impl JsonValue {
    /// A copy of the value.
    pub fn copy(&self) -> (r: JsonValue)
        ensures
            r@ == self@,
        decreases self,
    {
        match self {
            JsonValue::Null => JsonValue::Null,
            JsonValue::Bool(b) => JsonValue::Bool(*b),
            JsonValue::Int(i) => JsonValue::Int(*i),
            JsonValue::UInt(u) => JsonValue::UInt(*u),
            JsonValue::Float(f) => JsonValue::Float(*f),
            JsonValue::Str(s) => JsonValue::Str(s.clone()),
            JsonValue::Array(a) => {
                let mut out: Vec<JsonValue> = Vec::new();
                let mut i: usize = 0;
                while i < a.len()
                    invariant
                        *self == JsonValue::Array(*a),
                        i <= a@.len(),
                        view_values(out@) == view_values(a@.subrange(0, i as int)),
                    decreases a@.len() - i,
                {
                    proof {
                        assert(decreases_to!(*self => self->Array_0));
                        assert(decreases_to!(*a => a@));
                        assert(decreases_to!(a@ => a@[i as int]));
                        let t = a@.subrange(0, i as int + 1);
                        assert(t.drop_last() =~= a@.subrange(0, i as int));
                    }
                    let c = a[i].copy();
                    let ghost prev = out@;
                    out.push(c);
                    proof {
                        assert(out@.drop_last() =~= prev);
                    }
                    i = i + 1;
                }
                proof {
                    assert(a@.subrange(0, i as int) =~= a@);
                }
                JsonValue::Array(out)
            },
            JsonValue::Object(o) => {
                let mut out: Vec<(String, JsonValue)> = Vec::new();
                let mut i: usize = 0;
                while i < o.len()
                    invariant
                        *self == JsonValue::Object(*o),
                        i <= o@.len(),
                        view_entries(out@) == view_entries(o@.subrange(0, i as int)),
                    decreases o@.len() - i,
                {
                    proof {
                        assert(decreases_to!(*self => self->Object_0));
                        assert(decreases_to!(*o => o@));
                        assert(decreases_to!(o@ => o@[i as int]));
                        assert(decreases_to!(o@[i as int] => o@[i as int].1));
                        let t = o@.subrange(0, i as int + 1);
                        assert(t.drop_last() =~= o@.subrange(0, i as int));
                    }
                    let c = o[i].1.copy();
                    let k = o[i].0.clone();
                    let ghost prev = out@;
                    out.push((k, c));
                    proof {
                        assert(out@.drop_last() =~= prev);
                    }
                    i = i + 1;
                }
                proof {
                    assert(o@.subrange(0, i as int) =~= o@);
                }
                JsonValue::Object(out)
            },
        }
    }
}


pub proof fn lemma_view_values(s: Seq<JsonValue>)
    ensures
        view_values(s).len() == s.len(),
        forall|i: int| 0 <= i < s.len() ==> #[trigger] view_values(s)[i] == view_value(s[i]),
    decreases s.len(),
{
    if s.len() > 0 {
        lemma_view_values(s.drop_last());
    }
}

pub proof fn lemma_view_entries(s: Seq<(String, JsonValue)>)
    ensures
        view_entries(s).len() == s.len(),
        forall|i: int|
            0 <= i < s.len() ==> #[trigger] view_entries(s)[i] == (s[i].0@, view_value(s[i].1)),
    decreases s.len(),
{
    if s.len() > 0 {
        lemma_view_entries(s.drop_last());
    }
}

pub proof fn lemma_view_entries_append(a: Seq<(String, JsonValue)>, b: Seq<(String, JsonValue)>)
    ensures
        view_entries(a + b) == view_entries(a) + view_entries(b),
    decreases b.len(),
{
    if b.len() == 0 {
        assert(a + b =~= a);
        assert(view_entries(a) + view_entries(b) =~= view_entries(a));
    } else {
        lemma_view_entries_append(a, b.drop_last());
        assert((a + b).drop_last() =~= a + b.drop_last());
        assert(view_entries(a + b) =~= view_entries(a) + view_entries(b));
    }
}

pub proof fn lemma_view_values_push(a: Seq<JsonValue>, x: JsonValue)
    ensures
        view_values(a.push(x)) == view_values(a).push(view_value(x)),
{
    assert(a.push(x).drop_last() =~= a);
}

pub proof fn lemma_view_entries_push(a: Seq<(String, JsonValue)>, x: (String, JsonValue))
    ensures
        view_entries(a.push(x)) == view_entries(a).push((x.0@, view_value(x.1))),
{
    assert(a.push(x).drop_last() =~= a);
}

} // verus!
