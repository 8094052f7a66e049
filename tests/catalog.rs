use parseable::catalog::manifest_paths;
use parseable::ingest::Mode;
use parseable::catalog::{partition_path, ManifestFile, Snapshot as SnapshotView};
use parseable::column::Column;
use parseable::manifest::File;
use parseable::snapshot::{ManifestItem, PartialTimeFilter, Snapshot, TimeBound};
use parseable::stats::{matches_range, BoolType, Int64Type, TypedStatistics, Utf8Type};

fn item(path: &str, lo: i64, hi: i64) -> ManifestItem {
    ManifestItem { manifest_path: path.to_string(), time_lower_bound: lo, time_upper_bound: hi }
}

#[test]
fn range_intersection() {
    assert!(matches_range(1, 5, 5, 9));
    assert!(matches_range(1, 5, 0, 1));
    assert!(matches_range(3, 4, 0, 10));
    assert!(!matches_range(1, 5, 6, 9));
    assert!(!matches_range(6, 9, 1, 5));
    assert!(!matches_range(5, 1, 0, 10));
    assert!(Int64Type { min: 10, max: 20 }.overlaps(20, 30));
    assert!(!BoolType { min: false, max: false }.overlaps(true, true));
}

#[test]
fn null_only_column_never_prunes() {
    let c = Column { name: "x".to_string(), stats: None };
    assert!(c.may_hold_int_in(0, 1));
    let c = Column { name: "x".to_string(), stats: Some(TypedStatistics::Int(Int64Type { min: 5, max: 6 })) };
    assert!(!c.may_hold_int_in(0, 1));
}

#[test]
fn partition_path_by_utc_date() {
    let day = 1_704_067_200_000i64; // 2024-01-01T00:00:00Z
    assert_eq!(partition_path("app", day, day + 3_600_000), "app/date=2024-01-01");
    assert_eq!(partition_path("app", day, day + 86_400_000), "app/date=2024-01-01:2024-01-02");
}

#[test]
fn manifests_in_range_sorted() {
    let snapshot = Snapshot {
        manifest_list: vec![item("c", 30, 40), item("a", 0, 10), item("x", 100, 200), item("b", 10, 20)],
    };
    let r = snapshot.manifests_in_range(5, 35);
    let paths: Vec<&str> = r.iter().map(|m| m.manifest_path.as_str()).collect();
    assert_eq!(paths, vec!["a", "b", "c"]);
}

#[test]
fn manifests_by_filters() {
    let snapshot = Snapshot { manifest_list: vec![item("a", 0, 10), item("b", 10, 20), item("c", 30, 40)] };
    let r = SnapshotView::manifests(&snapshot, &[PartialTimeFilter::Low(TimeBound::Excluded(10))]);
    assert_eq!(r.len(), 2);
    assert_eq!(r[0].manifest_path, "b");
    let r = snapshot.manifests(&[PartialTimeFilter::High(TimeBound::Excluded(10))]);
    assert_eq!(r.len(), 1);
    let r = snapshot.manifests(&[PartialTimeFilter::Eq(15), PartialTimeFilter::Low(TimeBound::Unbounded)]);
    assert_eq!(r[0].manifest_path, "b");
}

#[test]
fn manifest_file_view() {
    let f = File { file_path: "f.parquet".to_string(), num_rows: 7, file_size: 100, ingestion_size: 300, columns: vec![] };
    assert_eq!(f.file_name(), "f.parquet");
    assert_eq!(ManifestFile::num_rows(&f), 7);
    assert_eq!(f.file_size(), 100);
    assert_eq!(f.ingestion_size(), 300);
    assert_eq!(f.columns().len(), 0);
}

#[test]
fn text_statistics_intersection() {
    let s = Utf8Type { min: "apple".to_string(), max: "mango".to_string() };
    assert!(s.overlaps(&"banana".to_string(), &"zebra".to_string()));
    assert!(s.overlaps(&"a".to_string(), &"apple".to_string()));
    assert!(!s.overlaps(&"mangoes".to_string(), &"zebra".to_string()));
    assert!(!s.overlaps(&"a".to_string(), &"ap".to_string()));
}

#[test]
fn manifest_paths_follow_mode() {
    let canonical = Snapshot { manifest_list: vec![item("c1", 0, 10), item("c0", -5, 1)] };
    let stored = vec![
        Snapshot { manifest_list: vec![item("q2", 20, 30), item("far", 100, 200)] },
        Snapshot { manifest_list: vec![item("q1", 5, 8)] },
    ];
    assert_eq!(manifest_paths(Mode::All, &canonical, &stored, 0, 50), vec!["c0".to_string(), "c1".to_string()]);
    assert_eq!(manifest_paths(Mode::Ingest, &canonical, &stored, 2, 50), vec!["c1".to_string()]);
    assert_eq!(manifest_paths(Mode::Query, &canonical, &stored, 0, 50), vec!["q1".to_string(), "q2".to_string()]);
}
