use parseable::column::Column;
use parseable::counts::{total_rows, CountsRequest, QueryError};
use parseable::manifest::{File, Manifest};
use parseable::stats::{Int64Type, TypedStatistics};

const START: i64 = 1_704_067_200_000; // 2024-01-01T00:00:00Z
const MINUTE: i64 = 60_000;

fn file(rows: u64, column: &str, min: i64) -> File {
    File {
        file_path: format!("{min}.parquet"),
        num_rows: rows,
        file_size: 1,
        ingestion_size: 1,
        columns: vec![Column {
            name: column.to_string(),
            stats: Some(TypedStatistics::Int(Int64Type { min, max: min + 1 })),
        }],
    }
}

fn request(end: &str, num_bins: u64) -> CountsRequest {
    CountsRequest {
        stream: "app".to_string(),
        start_time: "2024-01-01T00:00:00Z".to_string(),
        end_time: end.to_string(),
        num_bins,
    }
}

fn uneven() -> Vec<Manifest> {
    vec![Manifest {
        files: vec![
            file(10, "p_timestamp", START),
            file(20, "p_timestamp", START + 5 * MINUTE),
            file(30, "p_timestamp", START + 11 * MINUTE),
        ],
    }]
}

#[test]
fn counts_with_uneven_bins() {
    let records = request("2024-01-01T00:10:00Z", 2).get_bin_density(&uneven(), &None).unwrap();
    assert_eq!(records.len(), 2);
    assert_eq!(records[0].count, 10);
    assert_eq!(records[1].count, 20);
    assert_eq!(records[0].start_time, "2024-01-01T00:00:00+00:00");
    assert_eq!(records[0].end_time, "2024-01-01T00:05:00+00:00");
    assert_eq!(records[1].end_time, "2024-01-01T00:10:00+00:00");
}

#[test]
fn single_bin_covers_range() {
    let records = request("2024-01-01T00:10:00Z", 1).get_bin_density(&uneven(), &None).unwrap();
    assert_eq!(records.len(), 1);
    assert_eq!(records[0].count, 30);
    assert_eq!(records[0].end_time, "2024-01-01T00:10:00+00:00");
}

#[test]
fn remainder_adds_a_short_bin() {
    let r = request("2024-01-01T00:11:00Z", 2);
    let bounds = r.get_bounds(START, START + 11 * MINUTE);
    assert_eq!(bounds.len(), 3);
    assert_eq!((bounds[0].start, bounds[0].end), (START, START + 5 * MINUTE));
    assert_eq!((bounds[1].start, bounds[1].end), (START + 5 * MINUTE, START + 10 * MINUTE));
    assert_eq!((bounds[2].start, bounds[2].end), (START + 10 * MINUTE, START + 11 * MINUTE));
    let counts = r.bin_counts(START, START + 11 * MINUTE, &uneven(), &"p_timestamp".to_string());
    let got: Vec<u64> = counts.iter().map(|c| c.count).collect();
    assert_eq!(got, vec![10, 20, 30]);
}

#[test]
fn counts_use_time_partition_column() {
    let manifests = vec![Manifest { files: vec![file(4, "ts", START), file(9, "other", START)] }];
    let r = request("2024-01-01T00:10:00Z", 1);
    let records = r.get_bin_density(&manifests, &Some("ts".to_string())).unwrap();
    assert_eq!(records[0].count, 4);
    let records = r.get_bin_density(&manifests, &None).unwrap();
    assert_eq!(records[0].count, 0);
}

#[test]
fn counts_errors() {
    let empty: Vec<Manifest> = vec![];
    let r = request("2024-01-01T00:00:00Z", 1);
    assert_eq!(r.get_bin_density(&empty, &None).unwrap_err(), QueryError::EmptyRange);
    let r = request("2023-12-31T00:00:00Z", 1);
    assert_eq!(r.get_bin_density(&empty, &None).unwrap_err(), QueryError::EmptyRange);
    let r = request("yesterday", 1);
    assert_eq!(r.get_bin_density(&empty, &None).unwrap_err(), QueryError::TimeParse("yesterday".to_string()));
    let big = vec![Manifest { files: vec![file(u64::MAX, "p_timestamp", START), file(1, "p_timestamp", START)] }];
    assert_eq!(total_rows(&big), None);
    let r = request("2024-01-01T00:10:00Z", 1);
    assert_eq!(r.get_bin_density(&big, &None).unwrap_err(), QueryError::CountOverflow);
}

#[test]
fn total_rows_sums_all_files() {
    assert_eq!(total_rows(&uneven()), Some(60));
}

#[test]
fn file_at_range_end_counts_in_last_bin() {
    let manifests = vec![Manifest { files: vec![file(7, "p_timestamp", START + MINUTE)] }];
    let records = request("2024-01-01T00:01:00Z", 1).get_bin_density(&manifests, &None).unwrap();
    assert_eq!(records[0].count, 7);
    let inner = vec![Manifest { files: vec![file(7, "p_timestamp", START + 5 * MINUTE)] }];
    let records = request("2024-01-01T00:10:00Z", 2).get_bin_density(&inner, &None).unwrap();
    assert_eq!((records[0].count, records[1].count), (0, 7));
}

#[test]
fn request_time_range() {
    assert_eq!(request("2024-01-01T00:10:00Z", 1).time_range(), Ok((START, START + 10 * MINUTE)));
    assert_eq!(request("soon", 1).time_range(), Err(QueryError::TimeParse("soon".to_string())));
}
