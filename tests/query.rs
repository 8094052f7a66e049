use parseable::json::JsonValue;
use parseable::query::flatten_objects_for_count;

fn count(entries: Vec<(&str, i64)>) -> JsonValue {
    JsonValue::Object(entries.into_iter().map(|(k, v)| (k.to_string(), JsonValue::Int(v))).collect())
}

#[test]
fn test_flat_simple() {
    let val = vec![count(vec![("COUNT(*)", 1)]), count(vec![("COUNT(*)", 2)]), count(vec![("COUNT(*)", 3)])];
    let out = flatten_objects_for_count(val);
    assert_eq!(out, vec![count(vec![("COUNT(*)", 6)])]);
}

#[test]
fn test_flat_empty() {
    let val: Vec<JsonValue> = vec![];
    let out = flatten_objects_for_count(vec![]);
    assert_eq!(val, out);
}

#[test]
fn test_flat_same_multi() {
    let val = vec![count(vec![("COUNT(ALPHA)", 1)]), count(vec![("COUNT(ALPHA)", 2)])];
    let out = flatten_objects_for_count(val);
    assert_eq!(vec![count(vec![("COUNT(ALPHA)", 3)])], out);
}

#[test]
fn test_flat_diff_multi() {
    let val = || vec![count(vec![("COUNT(ALPHA)", 1)]), count(vec![("COUNT(BETA)", 2)])];
    let out = flatten_objects_for_count(val());
    assert_eq!(out, val());
}

#[test]
fn test_flat_fail() {
    let val = || vec![count(vec![("Num", 1)]), count(vec![("Num", 2)]), count(vec![("Num", 3)])];
    let out = flatten_objects_for_count(val());
    assert_eq!(val(), out);
}

#[test]
fn test_flat_multi_key() {
    let val = || {
        vec![
            count(vec![("COUNT(*)", 1), ("Num", 1)]),
            count(vec![("COUNT(*)", 2), ("Num", 2)]),
            count(vec![("COUNT(*)", 3), ("Num", 3)]),
        ]
    };
    let out = flatten_objects_for_count(val());
    assert_eq!(val(), out);
}

#[test]
fn negative_count_is_left_alone() {
    let val = || vec![count(vec![("COUNT(*)", -1)]), count(vec![("COUNT(*)", 2)])];
    assert_eq!(flatten_objects_for_count(val()), val());
}

#[test]
fn counts_beyond_i64_are_summed() {
    let big = |v: u64| JsonValue::Object(vec![("COUNT(*)".to_string(), JsonValue::UInt(v))]);
    let val = vec![count(vec![("COUNT(*)", i64::MAX)]), big(10)];
    let out = flatten_objects_for_count(val);
    assert_eq!(out, vec![big(i64::MAX as u64 + 10)]);
    let overflow = || vec![big(u64::MAX), big(1)];
    assert_eq!(flatten_objects_for_count(overflow()), overflow());
}
