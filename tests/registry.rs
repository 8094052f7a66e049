use parseable::event::{DataType, Field};
use parseable::ingest::into_event_batch;
use parseable::json::JsonValue;
use parseable::registry::{LogStreamMetadata, MetadataError, StreamInfo};

fn field(name: &str, data_type: DataType) -> Field {
    Field { name: name.to_string(), data_type }
}

fn registry_with(name: &str, schema: Vec<Field>) -> StreamInfo {
    let mut info = StreamInfo { streams: vec![] };
    info.add_stream(
        name.to_string(),
        LogStreamMetadata { schema, time_partition: Some("ts".to_string()), static_schema_flag: false },
    );
    info
}

#[test]
fn lookups() {
    let info = registry_with("app", vec![field("a", DataType::Int64)]);
    let app = "app".to_string();
    assert!(info.stream_exists(&app));
    assert!(!info.stream_exists(&"web".to_string()));
    assert_eq!(info.get_time_partition(&app).unwrap(), Some("ts".to_string()));
    assert_eq!(info.get_schema(&app).unwrap(), vec![field("a", DataType::Int64)]);
    assert_eq!(
        info.get_schema(&"web".to_string()).unwrap_err(),
        MetadataError::StreamNotFound("web".to_string())
    );
}

#[test]
fn schema_grows_and_keeps_types() {
    let mut info = registry_with("app", vec![field("a", DataType::Int64)]);
    let app = "app".to_string();
    let incoming = vec![field("b", DataType::Utf8), field("a", DataType::Int64), field("n", DataType::Null)];
    info.evolve_schema(&app, &incoming).unwrap();
    assert_eq!(info.get_schema(&app).unwrap(), vec![field("a", DataType::Int64), field("b", DataType::Utf8)]);
    let conflict = vec![field("c", DataType::Boolean), field("a", DataType::Utf8)];
    assert_eq!(
        info.evolve_schema(&app, &conflict).unwrap_err(),
        MetadataError::SchemaConflict {
            field: "a".to_string(),
            existing: DataType::Int64,
            incoming: DataType::Utf8,
        }
    );
    assert_eq!(info.get_schema(&app).unwrap().len(), 2);
}

#[test]
fn null_leaf_adds_no_field() {
    let mut info = registry_with("app", vec![]);
    let json = JsonValue::Object(vec![
        ("a".to_string(), JsonValue::Int(1)),
        ("b".to_string(), JsonValue::Str("hello".to_string())),
        ("c".to_string(), JsonValue::Null),
    ]);
    let (rb, _) = into_event_batch(&vec![], &json, &vec![], false, 0).unwrap();
    assert_eq!(rb.num_columns(), 6);
    info.evolve_schema(&"app".to_string(), &rb.fields).unwrap();
    let names: Vec<String> = info.get_schema(&"app".to_string()).unwrap().into_iter().map(|f| f.name).collect();
    assert!(names.contains(&"a".to_string()) && names.contains(&"b".to_string()));
    assert!(!names.contains(&"c".to_string()));
}
