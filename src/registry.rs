//! The registry of streams: each stream's schema, time partition and
//! static-schema flag. Schemas only grow: evolving a schema appends the new
//! fields and never changes the type of a field it has.

use crate::event::{schema_type, DataType, Field};
use vstd::prelude::*;

verus! {

/// What the registry knows of one stream.
#[derive(Debug)]
pub struct LogStreamMetadata {
    pub schema: Vec<Field>,
    pub time_partition: Option<String>,
    pub static_schema_flag: bool,
}

/// Why a registry request failed.
#[derive(Debug, PartialEq)]
pub enum MetadataError {
    StreamNotFound(String),
    SchemaConflict { field: String, existing: DataType, incoming: DataType },
}

/// The streams known to this process.
#[derive(Debug)]
pub struct StreamInfo {
    pub streams: Vec<(String, LogStreamMetadata)>,
}

/// Whether no two fields of a schema share a name.
pub open spec fn names_unique(schema: Seq<Field>) -> bool {
    forall|i: int, j: int|
        0 <= i < j < schema.len() ==> (#[trigger] schema[i]).name@ != (#[trigger] schema[j]).name@
}

impl StreamInfo {
    /// Whether no two streams share a name and no schema repeats a field name.
    pub open spec fn wf(&self) -> bool {
        &&& forall|i: int, j: int|
            0 <= i < j < self.streams@.len() ==> (#[trigger] self.streams@[i]).0@ != (#[trigger] self.streams@[j]).0@
        &&& forall|i: int| 0 <= i < self.streams@.len() ==> names_unique((#[trigger] self.streams@[i]).1.schema@)
    }
}

proof fn lemma_schema_type_none(s: Seq<Field>, k: Seq<char>)
    requires
        schema_type(s, k) is None,
    ensures
        forall|i: int| 0 <= i < s.len() ==> (#[trigger] s[i]).name@ != k,
    decreases s.len(),
{
    if s.len() > 0 {
        lemma_schema_type_none(s.drop_first(), k);
        assert forall|i: int| 0 <= i < s.len() implies (#[trigger] s[i]).name@ != k by {
            if i > 0 {
                assert(s[i] == s.drop_first()[i - 1]);
            }
        }
    }
}

/// Evolving a schema whose field names are distinct keeps them distinct.
pub proof fn lemma_merge_unique(old: Seq<Field>, incoming: Seq<Field>)
    requires
        names_unique(old),
        merge_fields(old, incoming) is Some,
    ensures
        names_unique(merge_fields(old, incoming)->0),
    decreases incoming.len(),
{
    if incoming.len() > 0 {
        lemma_merge_unique(old, incoming.drop_last());
        let cur = merge_fields(old, incoming.drop_last())->0;
        let f = incoming.last();
        if !(f.data_type is Null) && schema_type(cur, f.name@) is None {
            lemma_schema_type_none(cur, f.name@);
            let next = cur.push(f);
            assert forall|i: int, j: int| 0 <= i < j < next.len() implies (#[trigger] next[i]).name@
                != (#[trigger] next[j]).name@ by {
                if j == cur.len() {
                    assert(cur[i] == next[i]);
                } else {
                    assert(cur[i] == next[i] && cur[j] == next[j]);
                }
            }
        }
    }
}

/// Whether entry `i` is the first one named `name`.
pub open spec fn stream_at(s: Seq<(String, LogStreamMetadata)>, name: Seq<char>, i: int) -> bool {
    &&& 0 <= i < s.len()
    &&& s[i].0@ == name
    &&& forall|j: int| 0 <= j < i ==> (#[trigger] s[j]).0@ != name
}

/// The position of the first stream named `name`.
pub open spec fn first_position(s: Seq<(String, LogStreamMetadata)>, name: Seq<char>) -> Option<int> {
    if has_stream(s, name) {
        Some(choose|i: int| stream_at(s, name, i))
    } else {
        None
    }
}

pub open spec fn has_stream(s: Seq<(String, LogStreamMetadata)>, name: Seq<char>) -> bool {
    exists|i: int| 0 <= i < s.len() && (#[trigger] s[i]).0@ == name
}

/// The schema after adding `incoming` to `old`, field by field: a null-typed
/// field adds nothing, a known field must keep its type, a new one is
/// appended; `None` on a change of type.
pub open spec fn merge_fields(old: Seq<Field>, incoming: Seq<Field>) -> Option<Seq<Field>>
    decreases incoming.len(),
{
    if incoming.len() == 0 {
        Some(old)
    } else {
        match merge_fields(old, incoming.drop_last()) {
            None => None,
            Some(cur) => {
                let f = incoming.last();
                if f.data_type is Null {
                    Some(cur)
                } else {
                    match schema_type(cur, f.name@) {
                        Some(t) => if t == f.data_type {
                            Some(cur)
                        } else {
                            None
                        },
                        None => Some(cur.push(f)),
                    }
                }
            },
        }
    }
}

/// Whether incoming field `k` is the first whose type differs from the one
/// the schema already gives its name, as `e` reports.
pub open spec fn first_conflict(old: Seq<Field>, incoming: Seq<Field>, k: int, e: MetadataError) -> bool {
    &&& 0 <= k < incoming.len()
    &&& merge_fields(old, incoming.subrange(0, k)) is Some
    &&& !(incoming[k].data_type is Null)
    &&& e matches MetadataError::SchemaConflict { field, existing, incoming: t } && {
        &&& field@ == incoming[k].name@
        &&& t == incoming[k].data_type
        &&& schema_type(merge_fields(old, incoming.subrange(0, k))->0, field@) == Some(existing)
        &&& existing != t
    }
}

/// Evolving a schema keeps every field it had, in place and with its type.
pub proof fn lemma_schema_only_grows(old: Seq<Field>, incoming: Seq<Field>)
    requires
        merge_fields(old, incoming) is Some,
    ensures
        merge_fields(old, incoming)->0.len() >= old.len(),
        merge_fields(old, incoming)->0.subrange(0, old.len() as int) == old,
    decreases incoming.len(),
{
    if incoming.len() == 0 {
        assert(old.subrange(0, old.len() as int) =~= old);
    } else {
        lemma_schema_only_grows(old, incoming.drop_last());
        let cur = merge_fields(old, incoming.drop_last())->0;
        let f = incoming.last();
        assert(cur.push(f).subrange(0, old.len() as int) =~= cur.subrange(0, old.len() as int));
    }
}

/// Whether two types are the same.
pub fn same_type(a: &DataType, b: &DataType) -> (r: bool)
    ensures
        r == (*a == *b),
    decreases a,
{
    match (a, b) {
        (DataType::Null, DataType::Null) => true,
        (DataType::Boolean, DataType::Boolean) => true,
        (DataType::Int64, DataType::Int64) => true,
        (DataType::Float64, DataType::Float64) => true,
        (DataType::Utf8, DataType::Utf8) => true,
        (DataType::TimestampMs, DataType::TimestampMs) => true,
        (DataType::Struct, DataType::Struct) => true,
        (DataType::List(x), DataType::List(y)) => {
            let x: &DataType = x;
            let y: &DataType = y;
            same_type(x, y)
        },
        _ => false,
    }
}

proof fn lemma_merge_fail(old: Seq<Field>, incoming: Seq<Field>, k: int)
    requires
        0 <= k <= incoming.len(),
        merge_fields(old, incoming.subrange(0, k)) is None,
    ensures
        merge_fields(old, incoming) is None,
    decreases incoming.len() - k,
{
    if k == incoming.len() {
        assert(incoming.subrange(0, k) =~= incoming);
    } else {
        assert(incoming.subrange(0, k + 1).drop_last() =~= incoming.subrange(0, k));
        lemma_merge_fail(old, incoming, k + 1);
    }
}

impl StreamInfo {
    /// The position of the first stream named `name`.
    pub fn position(&self, name: &String) -> (r: Option<usize>)
        ensures
            match r {
                Some(i) => stream_at(self.streams@, name@, i as int),
                None => !has_stream(self.streams@, name@),
            },
    {
        let mut i: usize = 0;
        while i < self.streams.len()
            invariant
                i <= self.streams@.len(),
                forall|j: int| 0 <= j < i ==> (#[trigger] self.streams@[j]).0@ != name@,
            decreases self.streams@.len() - i,
        {
            if self.streams[i].0 == *name {
                return Some(i);
            }
            i = i + 1;
        }
        None
    }

    /// Whether the registry knows the stream.
    pub fn stream_exists(&self, name: &String) -> (r: bool)
        ensures
            r == has_stream(self.streams@, name@),
    {
        self.position(name).is_some()
    }

    /// The time partition of a stream.
    pub fn get_time_partition(&self, name: &String) -> (r: Result<Option<String>, MetadataError>)
        ensures
            match r {
                Ok(tp) => exists|i: int| stream_at(self.streams@, name@, i) && tp == self.streams@[i].1.time_partition,
                Err(e) => !has_stream(self.streams@, name@) && e == MetadataError::StreamNotFound(*name),
            },
    {
        match self.position(name) {
            Some(i) => Ok(self.streams[i].1.time_partition.clone()),
            None => Err(MetadataError::StreamNotFound(name.clone())),
        }
    }

    /// The schema of a stream.
    pub fn get_schema(&self, name: &String) -> (r: Result<Vec<Field>, MetadataError>)
        ensures
            match r {
                Ok(s) => exists|i: int| stream_at(self.streams@, name@, i) && s@ == self.streams@[i].1.schema@,
                Err(e) => !has_stream(self.streams@, name@) && e == MetadataError::StreamNotFound(*name),
            },
    {
        match self.position(name) {
            Some(i) => {
                let schema = &self.streams[i].1.schema;
                let mut out: Vec<Field> = Vec::new();
                let mut j: usize = 0;
                while j < schema.len()
                    invariant
                        j <= schema@.len(),
                        out@ == schema@.subrange(0, j as int),
                    decreases schema@.len() - j,
                {
                    out.push(schema[j].copy());
                    proof {
                        assert(out@ =~= schema@.subrange(0, j as int + 1));
                    }
                    j = j + 1;
                }
                proof {
                    assert(schema@.subrange(0, j as int) =~= schema@);
                }
                Ok(out)
            },
            None => Err(MetadataError::StreamNotFound(name.clone())),
        }
    }

    /// Registers a stream, replacing what was known of one of the same name.
    pub fn add_stream(&mut self, name: String, meta: LogStreamMetadata)
        requires
            old(self).wf(),
            names_unique(meta.schema@),
        ensures
            final(self).wf(),
            match first_position(old(self).streams@, name@) {
                Some(i) => final(self).streams@ == old(self).streams@.update(i, (name, meta)),
                None => final(self).streams@ == old(self).streams@.push((name, meta)),
            },
    {
        match self.position(&name) {
            Some(i) => {
                proof {
                    lemma_position_spec(self.streams@, name@, i as int);
                }
                self.streams.remove(i);
                self.streams.insert(i, (name, meta));
                proof {
                    assert(self.streams@ =~= old(self).streams@.update(i as int, (name, meta)));
                }
            },
            None => {
                self.streams.push((name, meta));
            },
        }
    }

    /// Adds the fields of `new_fields` to a stream's schema (see
    /// `merge_fields`), or refuses them all on the first change of a type.
    pub fn evolve_schema(&mut self, name: &String, new_fields: &Vec<Field>) -> (r: Result<(), MetadataError>)
        requires
            old(self).wf(),
        ensures
            final(self).wf(),
            !has_stream(old(self).streams@, name@) ==> r == Err::<(), MetadataError>(
                MetadataError::StreamNotFound(*name),
            ) && final(self).streams@ == old(self).streams@,
            has_stream(old(self).streams@, name@) ==> {
                let i = first_position(old(self).streams@, name@)->0;
                let before = old(self).streams@[i].1.schema@;
                match merge_fields(before, new_fields@) {
                    Some(after) => r is Ok && final(self).streams@.len() == old(self).streams@.len()
                        && forall|j: int|
                        0 <= j < old(self).streams@.len() && j != i ==> final(self).streams@[j] == old(
                            self,
                        ).streams@[j] && final(self).streams@[i].0 == old(self).streams@[i].0
                        && final(self).streams@[i].1.schema@ == after && final(self).streams@[i].1.time_partition
                        == old(self).streams@[i].1.time_partition && final(self).streams@[i].1.static_schema_flag
                        == old(self).streams@[i].1.static_schema_flag,
                    None => r is Err && final(self).streams@ == old(self).streams@ && exists|k: int|
                        #[trigger] first_conflict(before, new_fields@, k, r->Err_0),
                }
            },
    {
        let i = match self.position(name) {
            Some(i) => i,
            None => {
                return Err(MetadataError::StreamNotFound(name.clone()));
            },
        };
        proof {
            lemma_position_spec(self.streams@, name@, i as int);
        }
        let ghost before = self.streams@[i as int].1.schema@;
        let mut cur: Vec<Field> = Vec::new();
        let mut j: usize = 0;
        while j < self.streams[i].1.schema.len()
            invariant
                old(self).wf(),
                self.streams@ == old(self).streams@,
                stream_at(self.streams@, name@, i as int),
                has_stream(self.streams@, name@),
                first_position(self.streams@, name@) == Some(i as int),
                i < self.streams@.len(),
                before == self.streams@[i as int].1.schema@,
                j <= before.len(),
                cur@ == before.subrange(0, j as int),
            decreases before.len() - j,
        {
            cur.push(self.streams[i].1.schema[j].copy());
            proof {
                assert(cur@ =~= before.subrange(0, j as int + 1));
            }
            j = j + 1;
        }
        proof {
            assert(before.subrange(0, j as int) =~= before);
            assert(new_fields@.subrange(0, 0) =~= Seq::<Field>::empty());
        }
        let mut k: usize = 0;
        while k < new_fields.len()
            invariant
                old(self).wf(),
                self.streams@ == old(self).streams@,
                stream_at(self.streams@, name@, i as int),
                has_stream(self.streams@, name@),
                first_position(self.streams@, name@) == Some(i as int),
                before == self.streams@[i as int].1.schema@,
                k <= new_fields@.len(),
                merge_fields(before, new_fields@.subrange(0, k as int)) == Some(cur@),
            decreases new_fields@.len() - k,
        {
            let f = &new_fields[k];
            proof {
                let t = new_fields@.subrange(0, k as int + 1);
                assert(t.drop_last() =~= new_fields@.subrange(0, k as int));
                assert(t.last() == new_fields@[k as int]);
            }
            if let DataType::Null = f.data_type {
            } else {
                match crate::event::schema_field_type(&cur, &f.name) {
                    Some(t) => {
                        if !same_type(&t, &f.data_type) {
                            proof {
                                lemma_merge_fail(before, new_fields@, k as int + 1);
                            }
                            let e = MetadataError::SchemaConflict {
                                field: f.name.clone(),
                                existing: t,
                                incoming: f.data_type.copy(),
                            };
                            assert(first_conflict(before, new_fields@, k as int, e));
                            let ghost ge = e;
                            let r: Result<(), MetadataError> = Err(e);
                            assert(r->Err_0 == ge);
                            assert(first_conflict(before, new_fields@, k as int, r->Err_0));
                            return r;
                        }
                    },
                    None => {
                        cur.push(f.copy());
                    },
                }
            }
            k = k + 1;
        }
        proof {
            assert(new_fields@.subrange(0, k as int) =~= new_fields@);
        }
        proof {
            lemma_merge_unique(before, new_fields@);
        }
        let ghost olds = self.streams@;
        let (stream_name, meta) = self.streams.remove(i);
        let LogStreamMetadata { schema: _, time_partition, static_schema_flag } = meta;
        self.streams.insert(i, (stream_name, LogStreamMetadata { schema: cur, time_partition, static_schema_flag }));
        proof {
            assert forall|a: int| 0 <= a < self.streams@.len() && a != i implies #[trigger] self.streams@[a] == olds[a] by {}
            assert(self.streams@[i as int].0 == olds[i as int].0);
            assert forall|a: int, c: int| 0 <= a < c < self.streams@.len() implies (#[trigger] self.streams@[a]).0@
                != (#[trigger] self.streams@[c]).0@ by {
                assert(olds[a].0@ != olds[c].0@);
            }
        }
        Ok(())
    }
}

proof fn lemma_position_spec(s: Seq<(String, LogStreamMetadata)>, name: Seq<char>, i: int)
    requires
        stream_at(s, name, i),
    ensures
        has_stream(s, name),
        first_position(s, name) == Some(i),
{
    assert(s[i].0@ == name);
    let j = choose|j: int| stream_at(s, name, j);
    if j < i {
        assert(s[j].0@ != name);
    } else if j > i {
        assert(s[i].0@ != name);
    }
}

} // verus!
