//! Ingestion request rules: tags and metadata from labelled headers, the
//! target stream and log source, what to do about a missing stream, the
//! time-partition timestamp of each event, and the batches an event becomes.

use crate::event::{
    batch_of, first_problem, rows_acceptable, rows_into_batch, EventError, Field, RecordBatch,
};
use crate::flatten::{event_rows, flatten_event};
use crate::json::{view_value, Json, JsonValue};
use crate::text::{drop_chars, has_char, has_prefix, starts_with};
use crate::time::{parse_utc_millis, parsed_millis};
use vstd::prelude::*;
use vstd::string::*;

verus! {

/// Header naming the target stream.
pub const STREAM_NAME_HEADER_KEY: &'static str = "x-p-stream";

/// Header naming the source format of the body.
pub const LOG_SOURCE_KEY: &'static str = "x-p-log-source";

pub const LOG_SOURCE_KINESIS: &'static str = "kinesis";

pub const LOG_SOURCE_OTEL: &'static str = "otel";

/// Prefix of the headers that carry tags.
pub const PREFIX_TAGS: &'static str = "x-p-tag-";

/// Prefix of the headers that carry metadata.
pub const PREFIX_META: &'static str = "x-p-meta-";

/// Separator between the `key=value` labels of the tags and metadata columns.
pub const SEPARATOR: char = '^';

/// A request header: its lower-case name, and its value when it is visible
/// ASCII text.
pub type Header = (String, Option<String>);

/// Why labelled headers could not be read.
#[derive(Clone, Copy, Debug, PartialEq, Eq, Structural)]
pub enum ParseHeaderError {
    MissingStreamName,
    InvalidValue,
    Emptykey,
    SeperatorInKey(char),
    SeperatorInValue(char),
}

/// The label that a header gives, if its name has the prefix.
pub open spec fn label_of(h: Header, prefix: Seq<char>, sep: char) -> Option<
    Result<Seq<char>, ParseHeaderError>,
> {
    if !has_prefix(h.0@, prefix) {
        None
    } else {
        let key = h.0@.subrange(prefix.len() as int, h.0@.len() as int);
        match h.1 {
            None => Some(Err(ParseHeaderError::InvalidValue)),
            Some(v) => if key.len() == 0 {
                Some(Err(ParseHeaderError::Emptykey))
            } else if key.contains(sep) {
                Some(Err(ParseHeaderError::SeperatorInKey(sep)))
            } else if v@.contains(sep) {
                Some(Err(ParseHeaderError::SeperatorInValue(sep)))
            } else {
                Some(Ok(key + "="@ + v@))
            },
        }
    }
}

/// The labels of the headers with the prefix, in order, or the first error.
pub open spec fn labels(hs: Seq<Header>, prefix: Seq<char>, sep: char) -> Result<
    Seq<Seq<char>>,
    ParseHeaderError,
>
    decreases hs.len(),
{
    if hs.len() == 0 {
        Ok(Seq::empty())
    } else {
        match labels(hs.drop_last(), prefix, sep) {
            Err(e) => Err(e),
            Ok(ls) => match label_of(hs.last(), prefix, sep) {
                None => Ok(ls),
                Some(Err(e)) => Err(e),
                Some(Ok(l)) => Ok(ls.push(l)),
            },
        }
    }
}

/// The labels joined by the separator.
pub open spec fn joined(ls: Seq<Seq<char>>, sep: char) -> Seq<char>
    decreases ls.len(),
{
    if ls.len() == 0 {
        Seq::empty()
    } else if ls.len() == 1 {
        ls[0]
    } else {
        joined(ls.drop_last(), sep) + seq![sep] + ls.last()
    }
}

/// Relies on std's `String::push`, which appends one character.
#[verifier::external_body]
fn push_char(s: &mut String, c: char)
    ensures
        final(s)@ == old(s)@.push(c),
{
    s.push(c)
}

/// The `key=value` labels of the headers whose name begins with `prefix`,
/// the prefix removed from the key, joined by `kv_separator`.
pub fn collect_labelled_headers(headers: &Vec<Header>, prefix: &str, kv_separator: char) -> (r: Result<
    String,
    ParseHeaderError,
>)
    ensures
        match labels(headers@, prefix@, kv_separator) {
            Ok(ls) => r is Ok && r->Ok_0@ == joined(ls, kv_separator),
            Err(e) => r == Err::<String, ParseHeaderError>(e),
        },
{
    let ghost hs = headers@;
    let mut out = String::new();
    let ghost mut ls: Seq<Seq<char>> = Seq::empty();
    let mut any = false;
    let mut i: usize = 0;
    assert(hs.subrange(0, 0) =~= Seq::<Header>::empty());
    while i < headers.len()
        invariant
            hs == headers@,
            i <= hs.len(),
            labels(hs.subrange(0, i as int), prefix@, kv_separator) == Ok::<
                Seq<Seq<char>>,
                ParseHeaderError,
            >(ls),
            out@ == joined(ls, kv_separator),
            any == (ls.len() > 0),
        decreases hs.len() - i,
    {
        proof {
            let t = hs.subrange(0, i as int + 1);
            assert(t.drop_last() =~= hs.subrange(0, i as int));
            assert(t.last() == hs[i as int]);
        }
        let h = &headers[i];
        if starts_with(h.0.as_str(), prefix) {
            let key = drop_chars(h.0.as_str(), prefix.unicode_len());
            let value = match &h.1 {
                None => {
                    proof {
                        lemma_labels_fail(hs, prefix@, kv_separator, i as int + 1);
                    }
                    return Err(ParseHeaderError::InvalidValue);
                },
                Some(v) => v,
            };
            let bad = if key.unicode_len() == 0 {
                Some(ParseHeaderError::Emptykey)
            } else if has_char(key.as_str(), kv_separator) {
                Some(ParseHeaderError::SeperatorInKey(kv_separator))
            } else if has_char(value.as_str(), kv_separator) {
                Some(ParseHeaderError::SeperatorInValue(kv_separator))
            } else {
                None
            };
            if let Some(e) = bad {
                proof {
                    lemma_labels_fail(hs, prefix@, kv_separator, i as int + 1);
                }
                return Err(e);
            }
            let mut label = key;
            label.append("=");
            label.append(value.as_str());
            proof {
                reveal_strlit("=");
            }
            if any {
                push_char(&mut out, kv_separator);
            }
            out.append(label.as_str());
            any = true;
            proof {
                let l = label@;
                assert(ls.push(l).drop_last() =~= ls);
                ls = ls.push(l);
            }
        }
        i = i + 1;
    }
    assert(hs.subrange(0, i as int) =~= hs);
    Ok(out)
}

proof fn lemma_labels_fail(hs: Seq<Header>, prefix: Seq<char>, sep: char, k: int)
    requires
        0 <= k <= hs.len(),
        labels(hs.subrange(0, k), prefix, sep) is Err,
    ensures
        labels(hs, prefix, sep) == labels(hs.subrange(0, k), prefix, sep),
    decreases hs.len() - k,
{
    if k == hs.len() {
        assert(hs.subrange(0, k) =~= hs);
    } else {
        assert(hs.subrange(0, k + 1).drop_last() =~= hs.subrange(0, k));
        lemma_labels_fail(hs, prefix, sep, k + 1);
    }
}


/// Why a stream could not be created.
#[derive(Debug, PartialEq)]
pub enum CreateStreamError {
    /// The stream name is not acceptable.
    StreamNameValidation(String),
    /// Storage or metadata failed while creating the stream.
    Other(String),
}

/// Why an event was refused as invalid.
#[derive(Debug, PartialEq)]
pub enum InvalidRequest {
    /// The payload could not become a batch.
    Event(EventError),
    /// The time-partition value (the text given) is not a date-time.
    TimeFormat(String),
    /// The time-partition field (its name) does not hold text.
    TimeNotText(String),
    /// The time-partition field (its name) is absent from the event.
    MissingTimeField(String),
}

/// Why an ingestion request failed.
#[derive(Debug, PartialEq)]
pub enum PostError {
    StreamNotFound(String),
    SerdeError(String),
    Header(ParseHeaderError),
    Event(String),
    Invalid(InvalidRequest),
    CreateStream(CreateStreamError),
    CustomError(String),
    NetworkError(String),
    ObjectStorageError(String),
}

/// The HTTP status that answers an error.
pub open spec fn status_of(e: PostError) -> u16 {
    match e {
        PostError::SerdeError(_) => 400,
        PostError::Header(_) => 400,
        PostError::Invalid(_) => 400,
        PostError::CreateStream(CreateStreamError::StreamNameValidation(_)) => 400,
        PostError::StreamNotFound(_) => 404,
        _ => 500,
    }
}

impl PostError {
    /// The HTTP status code of the error.
    pub fn status_code(&self) -> (r: u16)
        ensures
            r == status_of(*self),
    {
        match self {
            PostError::SerdeError(_) => 400,
            PostError::Header(_) => 400,
            PostError::Invalid(_) => 400,
            PostError::CreateStream(CreateStreamError::StreamNameValidation(_)) => 400,
            PostError::StreamNotFound(_) => 404,
            _ => 500,
        }
    }
}

impl InvalidRequest {
    /// The message that describes a refused time-partition value.
    pub fn message(&self) -> (r: String)
        ensures
            match *self {
                InvalidRequest::TimeFormat(v) => r@ == "field "@ + v@ + " is not in the correct datetime format"@,
                InvalidRequest::TimeNotText(n) => r@ == "field "@ + n@ + " is not a datetime text"@,
                InvalidRequest::MissingTimeField(n) => r@ == "ingestion failed as field "@ + n@
                    + " is not part of the log"@,
                InvalidRequest::Event(_) => r@ == "the event could not be converted"@,
            },
    {
        proof {
            reveal_strlit("field ");
            reveal_strlit(" is not in the correct datetime format");
            reveal_strlit(" is not a datetime text");
            reveal_strlit("ingestion failed as field ");
            reveal_strlit(" is not part of the log");
            reveal_strlit("the event could not be converted");
        }
        match self {
            InvalidRequest::TimeFormat(v) => {
                let mut m = String::from_str("field ");
                m.append(v.as_str());
                m.append(" is not in the correct datetime format");
                m
            },
            InvalidRequest::TimeNotText(n) => {
                let mut m = String::from_str("field ");
                m.append(n.as_str());
                m.append(" is not a datetime text");
                m
            },
            InvalidRequest::MissingTimeField(n) => {
                let mut m = String::from_str("ingestion failed as field ");
                m.append(n.as_str());
                m.append(" is not part of the log");
                m
            },
            InvalidRequest::Event(_) => String::from_str("the event could not be converted"),
        }
    }
}

/// Whether an error of the converter is the one that `rows` give.
pub open spec fn event_error_of(e: EventError, schema: Seq<Field>, static_schema: bool, rows: Seq<crate::flatten::Row>) -> bool {
    match e {
        EventError::ReservedField(n) => first_problem(schema, static_schema, rows, n@, 1),
        EventError::SchemaMismatch(n) => first_problem(schema, static_schema, rows, n@, 2),
        EventError::SchemaConflict(n) => first_problem(schema, static_schema, rows, n@, 3),
        EventError::NotObject => false,
    }
}

/// Whether an event converts: its labelled headers read, its payload flattens
/// and every leaf is acceptable.
pub open spec fn converts(headers: Seq<Header>, v: Json, schema: Seq<Field>, static_schema: bool) -> bool {
    &&& labels(headers, PREFIX_TAGS@, SEPARATOR) is Ok
    &&& labels(headers, PREFIX_META@, SEPARATOR) is Ok
    &&& event_rows(v) is Some
    &&& rows_acceptable(schema, static_schema, event_rows(v)->0)
}

/// Whether `b` is the batch of event `v`.
pub open spec fn event_batch(headers: Seq<Header>, v: Json, schema: Seq<Field>, now: i64, b: RecordBatch) -> bool {
    batch_of(
        b,
        event_rows(v)->0,
        schema,
        joined(labels(headers, PREFIX_TAGS@, SEPARATOR)->Ok_0, SEPARATOR),
        joined(labels(headers, PREFIX_META@, SEPARATOR)->Ok_0, SEPARATOR),
        now,
    )
}

/// The batch of one event: its tags and metadata from the labelled headers,
/// its rows from the flattened payload, typed by `schema`; `now` fills the
/// timestamp column. The flag tells whether the stream had no schema yet.
pub fn into_event_batch(
    headers: &Vec<Header>,
    body: &JsonValue,
    schema: &Vec<Field>,
    static_schema: bool,
    now: i64,
) -> (r: Result<(RecordBatch, bool), PostError>)
    ensures
        match labels(headers@, PREFIX_TAGS@, SEPARATOR) {
            Err(e) => r is Err && r->Err_0 == PostError::Header(e),
            Ok(tl) => match labels(headers@, PREFIX_META@, SEPARATOR) {
                Err(e) => r is Err && r->Err_0 == PostError::Header(e),
                Ok(ml) => match event_rows(view_value(*body)) {
                    None => r is Err && r->Err_0 == PostError::Invalid(
                        InvalidRequest::Event(EventError::NotObject),
                    ),
                    Some(rows) => if rows_acceptable(schema@, static_schema, rows) {
                        &&& r is Ok
                        &&& batch_of(
                            r->Ok_0.0,
                            rows,
                            schema@,
                            joined(tl, SEPARATOR),
                            joined(ml, SEPARATOR),
                            now,
                        )
                        &&& r->Ok_0.1 == (schema@.len() == 0)
                    } else {
                        &&& r is Err
                        &&& r->Err_0 is Invalid
                        &&& r->Err_0->Invalid_0 is Event
                        &&& event_error_of(r->Err_0->Invalid_0->Event_0, schema@, static_schema, rows)
                    },
                },
            },
        },
        r is Ok <==> converts(headers@, view_value(*body), schema@, static_schema),
        r matches Ok(p) ==> event_batch(headers@, view_value(*body), schema@, now, p.0),
        r matches Err(e) ==> conversion_error(headers@, view_value(*body), schema@, static_schema, e),
{
    let tags = match collect_labelled_headers(headers, PREFIX_TAGS, SEPARATOR) {
        Ok(t) => t,
        Err(e) => {
            return Err(PostError::Header(e));
        },
    };
    let metadata = match collect_labelled_headers(headers, PREFIX_META, SEPARATOR) {
        Ok(m) => m,
        Err(e) => {
            return Err(PostError::Header(e));
        },
    };
    let rows = match flatten_event(body) {
        Some(rows) => rows,
        None => {
            return Err(PostError::Invalid(InvalidRequest::Event(EventError::NotObject)));
        },
    };
    match rows_into_batch(&rows, schema, static_schema, &tags, &metadata, now) {
        Ok(b) => Ok((b, schema.len() == 0)),
        Err(e) => Err(PostError::Invalid(InvalidRequest::Event(e))),
    }
}

/// The value of the first header named `name`.
pub open spec fn header_value(hs: Seq<Header>, name: Seq<char>) -> Option<Option<String>>
    decreases hs.len(),
{
    if hs.len() == 0 {
        None
    } else if hs[0].0@ == name {
        Some(hs[0].1)
    } else {
        header_value(hs.drop_first(), name)
    }
}

fn find_header(headers: &Vec<Header>, name: &str) -> (r: Option<Option<String>>)
    ensures
        r == header_value(headers@, name@),
{
    let ghost hs = headers@;
    let key = String::from_str(name);
    assert(hs.subrange(0, hs.len() as int) =~= hs);
    let mut i: usize = 0;
    while i < headers.len()
        invariant
            hs == headers@,
            key@ == name@,
            i <= hs.len(),
            header_value(hs, name@) == header_value(hs.subrange(i as int, hs.len() as int), name@),
        decreases hs.len() - i,
    {
        proof {
            let t = hs.subrange(i as int, hs.len() as int);
            assert(t[0] == hs[i as int]);
            assert(t.drop_first() =~= hs.subrange(i as int + 1, hs.len() as int));
        }
        if headers[i].0 == key {
            return Some(headers[i].1.clone());
        }
        i = i + 1;
    }
    None
}

/// The stream named by the stream header.
pub fn stream_name_from_headers(headers: &Vec<Header>) -> (r: Result<String, PostError>)
    ensures
        match header_value(headers@, STREAM_NAME_HEADER_KEY@) {
            None => r is Err && r->Err_0 == PostError::Header(ParseHeaderError::MissingStreamName),
            Some(None) => r is Err && r->Err_0 == PostError::Header(ParseHeaderError::InvalidValue),
            Some(Some(v)) => r is Ok && r->Ok_0@ == v@,
        },
{
    match find_header(headers, STREAM_NAME_HEADER_KEY) {
        None => Err(PostError::Header(ParseHeaderError::MissingStreamName)),
        Some(None) => Err(PostError::Header(ParseHeaderError::InvalidValue)),
        Some(Some(v)) => Ok(v),
    }
}

/// How the body of a request is turned into events.
#[derive(Clone, Copy, Debug, PartialEq, Eq, Structural)]
pub enum LogSource {
    /// Records of a Kinesis delivery stream.
    Kinesis,
    /// OpenTelemetry logs.
    Otel,
    /// The body is the event itself.
    Generic,
}

/// The source that the log-source header names; any other value, or none,
/// is generic.
pub fn log_source_from_headers(headers: &Vec<Header>) -> (r: LogSource)
    ensures
        r == (match header_value(headers@, LOG_SOURCE_KEY@) {
            Some(Some(v)) => if v@ == LOG_SOURCE_KINESIS@ {
                LogSource::Kinesis
            } else if v@ == LOG_SOURCE_OTEL@ {
                LogSource::Otel
            } else {
                LogSource::Generic
            },
            _ => LogSource::Generic,
        }),
{
    match find_header(headers, LOG_SOURCE_KEY) {
        Some(Some(v)) => {
            if v == String::from_str(LOG_SOURCE_KINESIS) {
                LogSource::Kinesis
            } else if v == String::from_str(LOG_SOURCE_OTEL) {
                LogSource::Otel
            } else {
                LogSource::Generic
            }
        },
        _ => LogSource::Generic,
    }
}

/// The role of this server process.
#[derive(Clone, Copy, Debug, PartialEq, Eq, Structural)]
pub enum Mode {
    All,
    Query,
    Ingest,
}

/// What ingestion must do before it can write to a stream.
#[derive(Clone, Copy, Debug, PartialEq, Eq, Structural)]
pub enum StreamAction {
    /// The stream is known.
    Ready,
    /// Create the stream with an empty schema.
    Create,
    /// Look the stream up in object storage.
    LookUpStorage,
}

/// The step to take for a stream that the registry may not know: known
/// streams are ready; other streams are created, except on an ingest server,
/// which must find them in storage.
pub fn create_stream_action(in_registry: bool, mode: Mode) -> (r: StreamAction)
    ensures
        r == (if in_registry {
            StreamAction::Ready
        } else if mode == Mode::Ingest {
            StreamAction::LookUpStorage
        } else {
            StreamAction::Create
        }),
{
    if in_registry {
        StreamAction::Ready
    } else {
        match mode {
            Mode::Ingest => StreamAction::LookUpStorage,
            _ => StreamAction::Create,
        }
    }
}

/// After the storage lookup of an ingest server: the stream can be loaded from
/// storage when `stored` lists it, else it is not found.
pub fn stream_in_storage(stream_name: &String, stored: &Vec<String>) -> (r: Result<(), PostError>)
    ensures
        r is Ok <==> exists|i: int| 0 <= i < stored@.len() && (#[trigger] stored@[i])@ == stream_name@,
        r is Err ==> r->Err_0 is StreamNotFound && r->Err_0->StreamNotFound_0@ == stream_name@,
{
    let mut i: usize = 0;
    while i < stored.len()
        invariant
            i <= stored@.len(),
            forall|j: int| 0 <= j < i ==> (#[trigger] stored@[j])@ != stream_name@,
        decreases stored@.len() - i,
    {
        if stored[i] == *stream_name {
            return Ok(());
        }
        i = i + 1;
    }
    Err(PostError::StreamNotFound(stream_name.clone()))
}

/// The value of the first entry named `k`.
pub open spec fn object_get(es: Seq<(Seq<char>, Json)>, k: Seq<char>) -> Option<Json>
    decreases es.len(),
{
    if es.len() == 0 {
        None
    } else if es[0].0 == k {
        Some(es[0].1)
    } else {
        object_get(es.drop_first(), k)
    }
}

/// The value of field `k` of an object.
pub open spec fn field_of(v: Json, k: Seq<char>) -> Option<Json> {
    match v {
        Json::Object(es) => object_get(es, k),
        _ => None,
    }
}

/// The time-partition instant of an event, when its field holds a date-time.
pub open spec fn event_time(v: Json, tp: Seq<char>) -> Option<i64> {
    match field_of(v, tp) {
        Some(Json::Str(s)) => parsed_millis(s),
        _ => None,
    }
}

/// Whether `r` is what the time partition `tp` gives for event `v`.
pub open spec fn time_outcome(v: Json, tp: Seq<char>, r: Result<i64, InvalidRequest>) -> bool {
    match field_of(v, tp) {
        None => r is Err && r->Err_0 is MissingTimeField && r->Err_0->MissingTimeField_0@ == tp,
        Some(Json::Str(s)) => match parsed_millis(s) {
            Some(t) => r == Ok::<i64, InvalidRequest>(t),
            None => r is Err && r->Err_0 is TimeFormat && r->Err_0->TimeFormat_0@ == s,
        },
        Some(_) => r is Err && r->Err_0 is TimeNotText && r->Err_0->TimeNotText_0@ == tp,
    }
}

/// The instant of an event under the time partition `tp`.
pub fn event_timestamp(v: &JsonValue, tp: &String) -> (r: Result<i64, InvalidRequest>)
    ensures
        time_outcome(view_value(*v), tp@, r),
{
    match v {
        JsonValue::Object(es) => {
            let ghost ev = crate::json::view_entries(es@);
            proof {
                crate::json::lemma_view_entries(es@);
                assert(ev.subrange(0, ev.len() as int) =~= ev);
            }
            let mut i: usize = 0;
            while i < es.len()
                invariant
                    *v == JsonValue::Object(*es),
                    ev == crate::json::view_entries(es@),
                    ev.len() == es@.len(),
                    forall|j: int| 0 <= j < es@.len() ==> #[trigger] ev[j] == (es@[j].0@, view_value(es@[j].1)),
                    i <= es@.len(),
                    object_get(ev, tp@) == object_get(ev.subrange(i as int, ev.len() as int), tp@),
                decreases es@.len() - i,
            {
                proof {
                    let t = ev.subrange(i as int, ev.len() as int);
                    assert(t[0] == ev[i as int]);
                    assert(t.drop_first() =~= ev.subrange(i as int + 1, ev.len() as int));
                }
                if es[i].0 == *tp {
                    return match &es[i].1 {
                        JsonValue::Str(s) => match parse_utc_millis(s.as_str()) {
                            Some(t) => Ok(t),
                            None => Err(InvalidRequest::TimeFormat(s.clone())),
                        },
                        _ => Err(InvalidRequest::TimeNotText(tp.clone())),
                    };
                }
                i = i + 1;
            }
            Err(InvalidRequest::MissingTimeField(tp.clone()))
        },
        _ => Err(InvalidRequest::MissingTimeField(tp.clone())),
    }
}


/// Whether event `i` is the first whose time field fails, with error `e`.
pub open spec fn first_time_error_at(vals: Seq<Json>, tp: Seq<char>, e: InvalidRequest, i: int) -> bool {
    &&& 0 <= i < vals.len()
    &&& forall|j: int| 0 <= j < i ==> (#[trigger] event_time(vals[j], tp)) is Some
    &&& time_outcome(vals[i], tp, Err(e))
}

/// Whether `e` is the error of the first event whose time field fails.
pub open spec fn first_time_error(vals: Seq<Json>, tp: Seq<char>, e: InvalidRequest) -> bool {
    exists|i: int| #[trigger] first_time_error_at(vals, tp, e, i)
}

/// Whether `e` is the error that converting event `v` gives: the first
/// labelled header that cannot be read, a payload that is not an object or an
/// array of objects, or the first leaf (by name) with a problem.
pub open spec fn conversion_error(
    headers: Seq<Header>,
    v: Json,
    schema: Seq<Field>,
    static_schema: bool,
    e: PostError,
) -> bool {
    match labels(headers, PREFIX_TAGS@, SEPARATOR) {
        Err(x) => e == PostError::Header(x),
        Ok(_) => match labels(headers, PREFIX_META@, SEPARATOR) {
            Err(x) => e == PostError::Header(x),
            Ok(_) => match event_rows(v) {
                None => e == PostError::Invalid(InvalidRequest::Event(EventError::NotObject)),
                Some(rows) => e is Invalid && e->Invalid_0 is Event && event_error_of(
                    e->Invalid_0->Event_0,
                    schema,
                    static_schema,
                    rows,
                ),
            },
        },
    }
}

/// Whether `e` is the error of the first event of `vals` that does not convert.
pub open spec fn first_conversion_error(
    headers: Seq<Header>,
    vals: Seq<Json>,
    schema: Seq<Field>,
    static_schema: bool,
    e: PostError,
) -> bool {
    exists|i: int|
        0 <= i < vals.len() && (forall|j: int| 0 <= j < i ==> converts(headers, #[trigger] vals[j], schema, static_schema))
            && #[trigger] conversion_error(headers, vals[i], schema, static_schema, e)
}

/// The events of a body: the elements of an array, else the body itself.
pub open spec fn event_values(v: Json) -> Seq<Json> {
    match v {
        Json::Array(a) => a,
        _ => seq![v],
    }
}

/// The events of a body under the time partition `tp`, each with its instant.
/// Fails on the first event whose field `tp` is absent or not a date-time, so
/// that no event of the request is committed unless all can be.
pub fn partitioned_events(body: &JsonValue, tp: &String) -> (r: Result<Vec<(JsonValue, i64)>, PostError>)
    ensures
        r is Ok <==> forall|i: int|
            0 <= i < event_values(view_value(*body)).len() ==> (#[trigger] event_time(
                event_values(view_value(*body))[i],
                tp@,
            )) is Some,
        r matches Ok(list) ==> {
            &&& list@.len() == event_values(view_value(*body)).len()
            &&& forall|i: int|
                0 <= i < list@.len() ==> {
                    &&& view_value((#[trigger] list@[i]).0) == event_values(view_value(*body))[i]
                    &&& event_time(event_values(view_value(*body))[i], tp@) == Some(list@[i].1)
                }
        },
        r matches Err(e) ==> e is Invalid && first_time_error(event_values(view_value(*body)), tp@, e->Invalid_0),
{
    let ghost vals = event_values(view_value(*body));
    let single: Vec<JsonValue>;
    let items: &Vec<JsonValue> = match body {
        JsonValue::Array(a) => a,
        _ => {
            single = vec![body.copy()];
            &single
        },
    };
    proof {
        crate::json::lemma_view_values(items@);
        assert(crate::json::view_values(items@) =~= vals);
    }
    let mut out: Vec<(JsonValue, i64)> = Vec::new();
    let mut i: usize = 0;
    while i < items.len()
        invariant
            vals == event_values(view_value(*body)),
            vals.len() == items@.len(),
            forall|j: int| 0 <= j < items@.len() ==> #[trigger] vals[j] == view_value(items@[j]),
            i <= items@.len(),
            out@.len() == i,
            forall|j: int|
                0 <= j < i ==> {
                    &&& view_value((#[trigger] out@[j]).0) == vals[j]
                    &&& event_time(vals[j], tp@) == Some(out@[j].1)
                },
        decreases items@.len() - i,
    {
        match event_timestamp(&items[i], tp) {
            Ok(t) => {
                out.push((items[i].copy(), t));
            },
            Err(e) => {
                proof {
                    assert(time_outcome(vals[i as int], tp@, Err(e)));
                    assert(event_time(vals[i as int], tp@) is None);
                    assert(time_outcome(event_values(view_value(*body))[i as int], tp@, Err(e)));
                    assert(forall|j: int| 0 <= j < i ==> #[trigger] event_time(vals[j], tp@) == Some(out@[j].1));
                    assert(first_time_error_at(vals, tp@, e, i as int));
                }
                return Err(PostError::Invalid(e));
            },
        }
        i = i + 1;
    }
    assert forall|j: int| 0 <= j < vals.len() implies (#[trigger] event_time(vals[j], tp@)) is Some by {
        assert(event_time(vals[j], tp@) == Some(out@[j].1));
    }
    Ok(out)
}


/// The batches of a request body, each with whether the stream had no schema
/// and the instant that partitions it. Without a time partition the body is
/// one event stamped `now`; with one, each event of the body becomes its own
/// batch stamped with its time field. Every event is converted before any is
/// returned, so one bad event fails the whole request.
pub fn convert_events(
    headers: &Vec<Header>,
    body: &JsonValue,
    schema: &Vec<Field>,
    static_schema: bool,
    time_partition: &Option<String>,
    now: i64,
) -> (r: Result<Vec<(RecordBatch, bool, i64)>, PostError>)
    ensures
        match *time_partition {
            None => {
                &&& r is Ok <==> converts(headers@, view_value(*body), schema@, static_schema)
                &&& r matches Ok(list) ==> {
                    &&& list@.len() == 1
                    &&& list@[0].1 == (schema@.len() == 0)
                    &&& list@[0].2 == now
                    &&& event_batch(headers@, view_value(*body), schema@, now, list@[0].0)
                }
                &&& r matches Err(e) ==> conversion_error(headers@, view_value(*body), schema@, static_schema, e)
            },
            Some(tp) => {
                let vals = event_values(view_value(*body));
                &&& r is Ok <==> forall|i: int|
                    0 <= i < vals.len() ==> (#[trigger] event_time(vals[i], tp@)) is Some && converts(
                        headers@,
                        vals[i],
                        schema@,
                        static_schema,
                    )
                &&& r matches Ok(list) ==> {
                    &&& list@.len() == vals.len()
                    &&& forall|i: int|
                        0 <= i < list@.len() ==> {
                            &&& Some((#[trigger] list@[i]).2) == event_time(vals[i], tp@)
                            &&& list@[i].1 == (schema@.len() == 0)
                            &&& event_batch(headers@, vals[i], schema@, now, list@[i].0)
                            &&& vals[i] is Object ==> list@[i].0.num_rows == 1
                        }
                }
                &&& r matches Err(e) ==> if forall|i: int|
                    0 <= i < vals.len() ==> (#[trigger] event_time(vals[i], tp@)) is Some {
                    first_conversion_error(headers@, vals, schema@, static_schema, e)
                } else {
                    e is Invalid && first_time_error(vals, tp@, e->Invalid_0)
                }
            },
        },
{
    match time_partition {
        None => {
            let (b, first) = into_event_batch(headers, body, schema, static_schema, now)?;
            Ok(vec![(b, first, now)])
        },
        Some(tp) => {
            let events = match partitioned_events(body, tp) {
                Ok(events) => events,
                Err(e) => {
                    return Err(e);
                },
            };
            let ghost vals = event_values(view_value(*body));
            let mut out: Vec<(RecordBatch, bool, i64)> = Vec::new();
            let mut i: usize = 0;
            while i < events.len()
                invariant
                    *time_partition == Some::<String>(*tp),
                    vals == event_values(view_value(*body)),
                    events@.len() == vals.len(),
                    forall|j: int|
                        0 <= j < events@.len() ==> {
                            &&& view_value((#[trigger] events@[j]).0) == vals[j]
                            &&& event_time(vals[j], tp@) == Some(events@[j].1)
                        },
                    i <= events@.len(),
                    out@.len() == i,
                    forall|j: int| 0 <= j < i ==> converts(headers@, #[trigger] vals[j], schema@, static_schema),
                    forall|j: int|
                        0 <= j < i ==> {
                            &&& Some((#[trigger] out@[j]).2) == event_time(vals[j], tp@)
                            &&& out@[j].1 == (schema@.len() == 0)
                            &&& event_batch(headers@, vals[j], schema@, now, out@[j].0)
                            &&& vals[j] is Object ==> out@[j].0.num_rows == 1
                        },
                decreases events@.len() - i,
            {
                let (b, first) = match into_event_batch(headers, &events[i].0, schema, static_schema, now) {
                    Ok(p) => p,
                    Err(e) => {
                        assert(!converts(headers@, vals[i as int], schema@, static_schema));
                        assert(event_time(vals[i as int], tp@) is Some);
                        assert(forall|j: int| 0 <= j < vals.len() ==> #[trigger] event_time(vals[j], tp@) == Some(events@[j].1));
                        assert(conversion_error(headers@, vals[i as int], schema@, static_schema, e));
                        return Err(e);
                    },
                };
                proof {
                    let v = vals[i as int];
                    if v is Object {
                        crate::event::lemma_object_one_row(
                            v->Object_0,
                            event_rows(v)->0,
                            b,
                            schema@,
                            joined(labels(headers@, PREFIX_TAGS@, SEPARATOR)->Ok_0, SEPARATOR),
                            joined(labels(headers@, PREFIX_META@, SEPARATOR)->Ok_0, SEPARATOR),
                            now,
                        );
                    }
                }
                out.push((b, first, events[i].1));
                i = i + 1;
            }
            Ok(out)
        },
    }
}

} // verus!
