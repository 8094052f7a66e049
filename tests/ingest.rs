use parseable::event::{DataType, EventError, Field, RecordBatch, DEFAULT_METADATA_KEY, DEFAULT_TAGS_KEY, DEFAULT_TIMESTAMP_KEY};
use parseable::ingest::{into_event_batch, Header, InvalidRequest, PostError, PREFIX_META, PREFIX_TAGS};
use parseable::json::JsonValue;

fn obj(entries: Vec<(&str, JsonValue)>) -> JsonValue {
    JsonValue::Object(entries.into_iter().map(|(k, v)| (k.to_string(), v)).collect())
}

fn integer(v: i64) -> JsonValue {
    JsonValue::Int(v)
}

fn float(v: f64) -> JsonValue {
    JsonValue::Float(v.to_bits())
}

fn text(v: &str) -> JsonValue {
    JsonValue::Str(v.to_string())
}

fn ints(vs: Vec<Option<i64>>) -> Vec<JsonValue> {
    vs.into_iter().map(|v| v.map_or(JsonValue::Null, JsonValue::Int)).collect()
}

fn floats(vs: Vec<Option<f64>>) -> Vec<JsonValue> {
    vs.into_iter().map(|v| v.map_or(JsonValue::Null, |f| JsonValue::Float(f.to_bits()))).collect()
}

fn texts(vs: Vec<Option<&str>>) -> Vec<JsonValue> {
    vs.into_iter().map(|v| v.map_or(JsonValue::Null, |s| JsonValue::Str(s.to_string()))).collect()
}

fn field(name: &str, data_type: DataType) -> Field {
    Field { name: name.to_string(), data_type }
}

fn abc_schema() -> Vec<Field> {
    vec![field("a", DataType::Int64), field("b", DataType::Utf8), field("c", DataType::Float64)]
}

fn batch(headers: &Vec<Header>, json: JsonValue, schema: Vec<Field>) -> Result<(RecordBatch, bool), PostError> {
    into_event_batch(headers, &json, &schema, false, 1_700_000_000_000)
}

fn column<'a>(rb: &'a RecordBatch, name: &str) -> &'a Vec<JsonValue> {
    rb.column_by_name(name).unwrap()
}

#[test]
fn basic_object_into_rb() {
    let json = obj(vec![("c", float(4.23)), ("a", integer(1)), ("b", text("hello"))]);
    let headers: Vec<Header> = vec![
        (PREFIX_TAGS.to_string() + "a", Some("tag1".to_string())),
        (PREFIX_META.to_string() + "c", Some("meta1".to_string())),
    ];
    let (rb, _) = batch(&headers, json, vec![]).unwrap();
    assert_eq!(rb.num_rows(), 1);
    assert_eq!(rb.num_columns(), 6);
    assert_eq!(column(&rb, "a"), &ints(vec![Some(1)]));
    assert_eq!(column(&rb, "b"), &texts(vec![Some("hello")]));
    assert_eq!(column(&rb, "c"), &floats(vec![Some(4.23)]));
    assert_eq!(column(&rb, DEFAULT_TAGS_KEY), &texts(vec![Some("a=tag1")]));
    assert_eq!(column(&rb, DEFAULT_METADATA_KEY), &texts(vec![Some("c=meta1")]));
    assert_eq!(column(&rb, DEFAULT_TIMESTAMP_KEY), &ints(vec![Some(1_700_000_000_000)]));
}

#[test]
fn basic_object_with_null_into_rb() {
    let json = obj(vec![("a", integer(1)), ("b", text("hello")), ("c", JsonValue::Null)]);
    let (rb, _) = batch(&vec![], json, vec![]).unwrap();
    assert_eq!(rb.num_rows(), 1);
    assert_eq!(rb.num_columns(), 6);
    assert_eq!(column(&rb, "a"), &ints(vec![Some(1)]));
    assert_eq!(column(&rb, "b"), &texts(vec![Some("hello")]));
}

#[test]
fn basic_object_derive_schema_into_rb() {
    let json = obj(vec![("a", integer(1)), ("b", text("hello"))]);
    let (rb, _) = batch(&vec![], json, abc_schema()).unwrap();
    assert_eq!(rb.num_rows(), 1);
    assert_eq!(rb.num_columns(), 6);
    assert_eq!(column(&rb, "a"), &ints(vec![Some(1)]));
    assert_eq!(column(&rb, "b"), &texts(vec![Some("hello")]));
}

#[test]
fn basic_object_schema_mismatch() {
    let json = obj(vec![("a", integer(1)), ("b", integer(1))]);
    assert!(batch(&vec![], json, abc_schema()).is_err());
}

#[test]
fn empty_object() {
    let json = obj(vec![]);
    let (rb, _) = batch(&vec![], json, abc_schema()).unwrap();
    assert_eq!(rb.num_rows(), 1);
    assert_eq!(rb.num_columns(), 6);
}

#[test]
fn non_object_arr_is_err() {
    let json = JsonValue::Array(vec![integer(1)]);
    assert!(batch(&vec![], json, vec![]).is_err());
}

#[test]
fn array_into_recordbatch_inffered_schema() {
    let json = JsonValue::Array(vec![
        obj(vec![("b", text("hello"))]),
        obj(vec![("a", integer(1)), ("b", text("hello")), ("c", integer(1))]),
        obj(vec![("a", integer(1)), ("b", text("hello")), ("c", JsonValue::Null)]),
    ]);
    let (rb, _) = batch(&vec![], json, vec![]).unwrap();
    assert_eq!(rb.num_rows(), 3);
    assert_eq!(rb.num_columns(), 6);
    let fields = &rb.fields;
    assert_eq!(&fields[1], &field("a", DataType::Int64));
    assert_eq!(&fields[2], &field("b", DataType::Utf8));
    assert_eq!(&fields[3], &field("c", DataType::Int64));
    assert_eq!(column(&rb, "a"), &ints(vec![None, Some(1), Some(1)]));
    assert_eq!(column(&rb, "b"), &texts(vec![Some("hello"), Some("hello"), Some("hello")]));
    assert_eq!(column(&rb, "c"), &ints(vec![None, Some(1), None]));
}

fn null_rows() -> JsonValue {
    JsonValue::Array(vec![
        obj(vec![("a", JsonValue::Null), ("b", text("hello")), ("c", JsonValue::Null)]),
        obj(vec![("a", integer(1)), ("b", text("hello")), ("c", float(1.22))]),
        obj(vec![("a", integer(1)), ("b", text("hello")), ("c", JsonValue::Null)]),
    ])
}

#[test]
fn arr_with_null_into_rb() {
    let (rb, _) = batch(&vec![], null_rows(), vec![]).unwrap();
    assert_eq!(rb.num_rows(), 3);
    assert_eq!(rb.num_columns(), 6);
    assert_eq!(column(&rb, "a"), &ints(vec![None, Some(1), Some(1)]));
    assert_eq!(column(&rb, "b"), &texts(vec![Some("hello"), Some("hello"), Some("hello")]));
    assert_eq!(column(&rb, "c"), &floats(vec![None, Some(1.22), None]));
}

#[test]
fn arr_with_null_derive_schema_into_rb() {
    let (rb, _) = batch(&vec![], null_rows(), abc_schema()).unwrap();
    assert_eq!(rb.num_rows(), 3);
    assert_eq!(rb.num_columns(), 6);
    assert_eq!(column(&rb, "a"), &ints(vec![None, Some(1), Some(1)]));
    assert_eq!(column(&rb, "b"), &texts(vec![Some("hello"), Some("hello"), Some("hello")]));
    assert_eq!(column(&rb, "c"), &floats(vec![None, Some(1.22), None]));
}

#[test]
fn arr_schema_mismatch() {
    let json = JsonValue::Array(vec![
        obj(vec![("a", JsonValue::Null), ("b", text("hello")), ("c", float(1.24))]),
        obj(vec![("a", integer(1)), ("b", text("hello")), ("c", integer(1))]),
        obj(vec![("a", integer(1)), ("b", text("hello")), ("c", JsonValue::Null)]),
    ]);
    assert!(batch(&vec![], json, abc_schema()).is_err());
}

#[test]
fn arr_obj_with_nested_type() {
    let json = JsonValue::Array(vec![
        obj(vec![("a", integer(1)), ("b", text("hello"))]),
        obj(vec![("a", integer(1)), ("b", text("hello"))]),
        obj(vec![("a", integer(1)), ("b", text("hello")), ("c", JsonValue::Array(vec![obj(vec![("a", integer(1))])]))]),
        obj(vec![
            ("a", integer(1)),
            ("b", text("hello")),
            ("c", JsonValue::Array(vec![obj(vec![("a", integer(1)), ("b", integer(2))])])),
        ]),
    ]);
    let (rb, _) = batch(&vec![], json, vec![]).unwrap();
    assert_eq!(rb.num_rows(), 4);
    assert_eq!(rb.num_columns(), 7);
    assert_eq!(column(&rb, "a"), &ints(vec![Some(1), Some(1), Some(1), Some(1)]));
    assert_eq!(column(&rb, "b"), &texts(vec![Some("hello"), Some("hello"), Some("hello"), Some("hello")]));
    let c_a = vec![JsonValue::Null, JsonValue::Null, JsonValue::Array(ints(vec![Some(1)])), JsonValue::Array(ints(vec![Some(1)]))];
    let c_b = vec![JsonValue::Null, JsonValue::Null, JsonValue::Null, JsonValue::Array(ints(vec![Some(2)]))];
    assert_eq!(column(&rb, "c_a"), &c_a);
    assert_eq!(column(&rb, "c_b"), &c_b);
    let list_of_int = DataType::List(Box::new(DataType::Int64));
    assert_eq!(rb.fields.iter().find(|f| f.name == "c_a").unwrap().data_type, list_of_int);
}

#[test]
fn nested_object_leaves_joined_by_underscore() {
    let json = obj(vec![("c", obj(vec![("a", integer(1)), ("d", obj(vec![("e", text("x"))]))]))]);
    let (rb, _) = batch(&vec![], json, vec![]).unwrap();
    assert_eq!(rb.num_columns(), 5);
    assert_eq!(column(&rb, "c_a"), &ints(vec![Some(1)]));
    assert_eq!(column(&rb, "c_d_e"), &texts(vec![Some("x")]));
}

#[test]
fn mixed_leaf_types_conflict() {
    let json = JsonValue::Array(vec![obj(vec![("x", integer(1))]), obj(vec![("x", text("one"))])]);
    match batch(&vec![], json, vec![]) {
        Err(PostError::Invalid(InvalidRequest::Event(EventError::SchemaConflict(n)))) => assert_eq!(n, "x"),
        other => panic!("unexpected {:?}", other),
    }
}

#[test]
fn reserved_leaf_is_refused() {
    let json = obj(vec![("p_tags", text("t"))]);
    match batch(&vec![], json, vec![]) {
        Err(PostError::Invalid(InvalidRequest::Event(EventError::ReservedField(n)))) => assert_eq!(n, "p_tags"),
        other => panic!("unexpected {:?}", other),
    }
}

#[test]
fn static_schema_refuses_unknown_leaf() {
    let json = obj(vec![("a", integer(1)), ("z", integer(2))]);
    let r = into_event_batch(&vec![], &json, &abc_schema(), true, 0);
    match r {
        Err(PostError::Invalid(InvalidRequest::Event(EventError::SchemaMismatch(n)))) => assert_eq!(n, "z"),
        other => panic!("unexpected {:?}", other),
    }
}

#[test]
fn scalar_payload_is_not_object() {
    let r = batch(&vec![], integer(3), vec![]);
    assert_eq!(r.unwrap_err(), PostError::Invalid(InvalidRequest::Event(EventError::NotObject)));
}

#[test]
fn first_event_flag_follows_empty_schema() {
    let (_, first) = batch(&vec![], obj(vec![("a", integer(1))]), vec![]).unwrap();
    assert!(first);
    let (_, first) = batch(&vec![], obj(vec![("a", integer(1))]), abc_schema()).unwrap();
    assert!(!first);
}

#[test]
fn array_gives_one_row_per_object() {
    let json = JsonValue::Array(vec![obj(vec![("a", integer(1))]), obj(vec![("a", integer(2))]), obj(vec![])]);
    let (rb, _) = batch(&vec![], json, vec![]).unwrap();
    assert_eq!(rb.num_rows(), 3);
    assert_eq!(column(&rb, "a"), &ints(vec![Some(1), Some(2), None]));
}

#[test]
fn schema_type_is_kept_for_timestamp_field() {
    let json = obj(vec![("t", text("2024-01-01T00:00:00Z"))]);
    let (rb, _) = batch(&vec![], json, vec![field("t", DataType::TimestampMs)]).unwrap();
    assert_eq!(rb.fields[1], field("t", DataType::TimestampMs));
}

#[test]
fn export_and_reingest_round_trip() {
    let json = JsonValue::Array(vec![
        obj(vec![("a", integer(1)), ("b", text("x")), ("l", JsonValue::Array(vec![integer(1), integer(2)]))]),
        obj(vec![("a", JsonValue::Null), ("b", text("y")), ("f", float(0.5))]),
    ]);
    let headers: Vec<Header> = vec![(PREFIX_TAGS.to_string() + "k", Some("v".to_string()))];
    let (rb, _) = into_event_batch(&headers, &json, &vec![], false, 42).unwrap();
    let exported = parseable::export::batch_to_json(&rb);
    let schema = parseable::export::batch_schema(&rb);
    assert_eq!(schema.len(), 4);
    let (again, first) = into_event_batch(&headers, &exported, &schema, false, 42).unwrap();
    assert!(!first);
    assert_eq!(again.num_rows(), rb.num_rows());
    assert_eq!(again.fields, rb.fields);
    assert_eq!(again.columns, rb.columns);
}

#[test]
fn time_partition_gives_single_row_batches() {
    let json = JsonValue::Array(vec![
        obj(vec![("ts", text("2024-01-01T00:00:00Z")), ("a", integer(1))]),
        obj(vec![("ts", text("2024-01-02T00:00:00Z")), ("a", integer(2))]),
        obj(vec![("ts", text("2024-01-03T00:00:00Z"))]),
    ]);
    let tp = Some("ts".to_string());
    let batches = parseable::ingest::convert_events(&vec![], &json, &vec![], false, &tp, 7).unwrap();
    assert_eq!(batches.len(), 3);
    assert!(batches.iter().all(|(b, _, _)| b.num_rows() == 1));
    assert_eq!(batches[1].2, 1_704_153_600_000);
    let whole = parseable::ingest::convert_events(&vec![], &json, &vec![], false, &None, 7).unwrap();
    assert_eq!(whole.len(), 1);
    assert_eq!(whole[0].0.num_rows(), 3);
    assert_eq!(whole[0].2, 7);
}

#[test]
fn one_bad_event_fails_the_request() {
    let json = JsonValue::Array(vec![
        obj(vec![("ts", text("2024-01-01T00:00:00Z")), ("a", integer(1))]),
        obj(vec![("ts", text("2024-01-02T00:00:00Z")), ("p_timestamp", integer(2))]),
    ]);
    let tp = Some("ts".to_string());
    assert!(parseable::ingest::convert_events(&vec![], &json, &vec![], false, &tp, 7).is_err());
}

#[test]
fn schema_fields_missing_from_payload_are_null_columns() {
    let (rb, _) = batch(&vec![], obj(vec![("a", integer(1))]), abc_schema()).unwrap();
    assert_eq!(rb.num_columns(), 6);
    assert_eq!(column(&rb, "b"), &vec![JsonValue::Null]);
    assert_eq!(column(&rb, "c"), &vec![JsonValue::Null]);
    assert_eq!(&rb.fields[2], &field("b", DataType::Utf8));
    let (empty, _) = batch(&vec![], obj(vec![]), abc_schema()).unwrap();
    assert_eq!(column(&empty, "a"), &vec![JsonValue::Null]);
}

#[test]
fn reserved_schema_fields_keep_their_own_columns() {
    let schema = vec![field("a", DataType::Int64), field(DEFAULT_TIMESTAMP_KEY, DataType::TimestampMs)];
    let (rb, _) = batch(&vec![], obj(vec![("a", integer(1))]), schema).unwrap();
    assert_eq!(rb.num_columns(), 4);
}

#[test]
fn large_unsigned_value_is_a_float_column() {
    let (rb, _) = batch(&vec![], obj(vec![("a", JsonValue::UInt(10_000_000_000_000_000_000))]), vec![]).unwrap();
    assert_eq!(rb.fields[1], field("a", DataType::Float64));
    assert_eq!(column(&rb, "a"), &vec![JsonValue::UInt(10_000_000_000_000_000_000)]);
}
