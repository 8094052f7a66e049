use parseable::ingest::{
    collect_labelled_headers, create_stream_action, log_source_from_headers, partitioned_events,
    stream_in_storage, stream_name_from_headers, CreateStreamError, Header, InvalidRequest, LogSource,
    Mode, ParseHeaderError, PostError, StreamAction, PREFIX_META, PREFIX_TAGS, SEPARATOR,
};
use parseable::json::JsonValue;

fn header(name: &str, value: &str) -> Header {
    (name.to_string(), Some(value.to_string()))
}

fn object(entries: Vec<(&str, JsonValue)>) -> JsonValue {
    JsonValue::Object(entries.into_iter().map(|(k, v)| (k.to_string(), v)).collect())
}

#[test]
fn labels_are_joined_by_separator() {
    let hs = vec![header("x-p-tag-a", "1"), header("content-type", "json"), header("x-p-tag-b", "2")];
    assert_eq!(collect_labelled_headers(&hs, PREFIX_TAGS, SEPARATOR).unwrap(), "a=1^b=2");
    assert_eq!(collect_labelled_headers(&hs, PREFIX_META, SEPARATOR).unwrap(), "");
}

#[test]
fn label_errors() {
    let empty_key = vec![header("x-p-tag-", "1")];
    assert_eq!(collect_labelled_headers(&empty_key, PREFIX_TAGS, SEPARATOR), Err(ParseHeaderError::Emptykey));
    let sep_key = vec![header("x-p-tag-a^b", "1")];
    assert_eq!(
        collect_labelled_headers(&sep_key, PREFIX_TAGS, SEPARATOR),
        Err(ParseHeaderError::SeperatorInKey('^'))
    );
    let sep_value = vec![header("x-p-tag-a", "1^2")];
    assert_eq!(
        collect_labelled_headers(&sep_value, PREFIX_TAGS, SEPARATOR),
        Err(ParseHeaderError::SeperatorInValue('^'))
    );
    let bad_value: Vec<Header> = vec![("x-p-meta-k".to_string(), None)];
    assert_eq!(collect_labelled_headers(&bad_value, PREFIX_META, SEPARATOR), Err(ParseHeaderError::InvalidValue));
}

#[test]
fn stream_name_header() {
    let hs = vec![header("x-p-stream", "app")];
    assert_eq!(stream_name_from_headers(&hs).unwrap(), "app");
    assert_eq!(
        stream_name_from_headers(&vec![]).unwrap_err(),
        PostError::Header(ParseHeaderError::MissingStreamName)
    );
}

#[test]
fn log_source_falls_back_to_generic() {
    assert_eq!(log_source_from_headers(&vec![header("x-p-log-source", "kinesis")]), LogSource::Kinesis);
    assert_eq!(log_source_from_headers(&vec![header("x-p-log-source", "otel")]), LogSource::Otel);
    assert_eq!(log_source_from_headers(&vec![header("x-p-log-source", "syslog")]), LogSource::Generic);
    assert_eq!(log_source_from_headers(&vec![]), LogSource::Generic);
}

#[test]
fn missing_stream_actions() {
    assert_eq!(create_stream_action(true, Mode::Ingest), StreamAction::Ready);
    assert_eq!(create_stream_action(false, Mode::All), StreamAction::Create);
    assert_eq!(create_stream_action(false, Mode::Query), StreamAction::Create);
    assert_eq!(create_stream_action(false, Mode::Ingest), StreamAction::LookUpStorage);
    let stored = vec!["a".to_string(), "b".to_string()];
    assert!(stream_in_storage(&"b".to_string(), &stored).is_ok());
    assert_eq!(
        stream_in_storage(&"c".to_string(), &stored).unwrap_err(),
        PostError::StreamNotFound("c".to_string())
    );
}

#[test]
fn status_codes() {
    assert_eq!(PostError::StreamNotFound("s".to_string()).status_code(), 404);
    assert_eq!(PostError::SerdeError("e".to_string()).status_code(), 400);
    assert_eq!(PostError::Header(ParseHeaderError::MissingStreamName).status_code(), 400);
    assert_eq!(PostError::Invalid(InvalidRequest::MissingTimeField("t".to_string())).status_code(), 400);
    assert_eq!(
        PostError::CreateStream(CreateStreamError::StreamNameValidation("x".to_string())).status_code(),
        400
    );
    assert_eq!(PostError::CreateStream(CreateStreamError::Other("x".to_string())).status_code(), 500);
    assert_eq!(PostError::Event("e".to_string()).status_code(), 500);
    assert_eq!(PostError::ObjectStorageError("e".to_string()).status_code(), 500);
    assert_eq!(PostError::NetworkError("e".to_string()).status_code(), 500);
    assert_eq!(PostError::CustomError("e".to_string()).status_code(), 500);
}

#[test]
fn time_field_parse_failure() {
    let body = object(vec![
        ("ts", JsonValue::Str("not-a-date".to_string())),
        ("x", JsonValue::Int(1)),
    ]);
    let err = partitioned_events(&body, &"ts".to_string()).unwrap_err();
    match err {
        PostError::Invalid(e) => {
            assert_eq!(e, InvalidRequest::TimeFormat("not-a-date".to_string()));
            assert_eq!(e.message(), "field not-a-date is not in the correct datetime format");
        },
        other => panic!("unexpected {:?}", other),
    }
}

#[test]
fn time_partition_splits_array() {
    let body = JsonValue::Array(vec![
        object(vec![("ts", JsonValue::Str("2024-01-01T00:00:00Z".to_string()))]),
        object(vec![("ts", JsonValue::Str("2024-01-01T00:00:01.5Z".to_string()))]),
    ]);
    let events = partitioned_events(&body, &"ts".to_string()).unwrap();
    assert_eq!(events.len(), 2);
    assert_eq!(events[0].1, 1_704_067_200_000);
    assert_eq!(events[1].1, 1_704_067_201_500);
}

#[test]
fn time_field_missing_or_not_text() {
    let body = object(vec![("x", JsonValue::Int(1))]);
    match partitioned_events(&body, &"ts".to_string()).unwrap_err() {
        PostError::Invalid(e) => {
            assert_eq!(e, InvalidRequest::MissingTimeField("ts".to_string()));
            assert_eq!(e.message(), "ingestion failed as field ts is not part of the log");
        },
        other => panic!("unexpected {:?}", other),
    }
    let body = object(vec![("ts", JsonValue::Int(5))]);
    assert_eq!(
        partitioned_events(&body, &"ts".to_string()).unwrap_err(),
        PostError::Invalid(InvalidRequest::TimeNotText("ts".to_string()))
    );
}

fn converted(body: &JsonValue, tp: Option<&str>) -> Result<Vec<(parseable::event::RecordBatch, bool, i64)>, PostError> {
    parseable::ingest::convert_events(&vec![], body, &vec![], false, &tp.map(|t| t.to_string()), 5)
}

#[test]
fn convert_events_reports_time_errors() {
    let bad_text = object(vec![("ts", JsonValue::Str("not-a-date".to_string())), ("x", JsonValue::Int(1))]);
    match converted(&bad_text, Some("ts")).unwrap_err() {
        PostError::Invalid(e) => assert_eq!(e.message(), "field not-a-date is not in the correct datetime format"),
        other => panic!("unexpected {:?}", other),
    }
    let missing = JsonValue::Array(vec![
        object(vec![("ts", JsonValue::Str("2024-01-01T00:00:00Z".to_string()))]),
        object(vec![("x", JsonValue::Int(1))]),
    ]);
    match converted(&missing, Some("ts")).unwrap_err() {
        PostError::Invalid(e) => assert_eq!(e.message(), "ingestion failed as field ts is not part of the log"),
        other => panic!("unexpected {:?}", other),
    }
    let not_text = object(vec![("ts", JsonValue::Null)]);
    assert_eq!(
        converted(&not_text, Some("ts")).unwrap_err(),
        PostError::Invalid(InvalidRequest::TimeNotText("ts".to_string()))
    );
}

#[test]
fn convert_events_first_event_flag() {
    let body = object(vec![("ts", JsonValue::Str("2024-01-01T00:00:00Z".to_string()))]);
    let batches = converted(&body, Some("ts")).unwrap();
    assert!(batches[0].1);
    let batches = converted(&body, None).unwrap();
    assert!(batches[0].1);
    assert_eq!(batches[0].2, 5);
}
