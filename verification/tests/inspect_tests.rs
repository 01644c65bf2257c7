use dir_inspector::inspect::{
    extension_of, inspect, EntryInfo, EntryKind, RecordKind, Timestamp,
};

fn stamp() -> Timestamp {
    Timestamp { year: 2024, month: 1, day: 2, hour: 3, minute: 4 }
}

fn folder(depth: usize, name: &str) -> EntryInfo {
    EntryInfo { depth, name: name.to_string(), kind: EntryKind::Folder }
}

fn file(depth: usize, name: &str, size: u64) -> EntryInfo {
    EntryInfo {
        depth,
        name: name.to_string(),
        kind: EntryKind::File { size, readonly: false, created: stamp() },
    }
}

fn sample_tree() -> Vec<EntryInfo> {
    vec![
        folder(1, "src"),
        file(2, "main.rs", 1000),
        file(2, "lib.rs", 2000),
        folder(2, "nested"),
        file(3, "deep.txt", 4000),
        file(1, "README", 300),
        file(1, "notes.txt", 700),
    ]
}

#[test]
fn extension_after_last_dot() {
    assert_eq!(extension_of("report.pdf"), "pdf");
    assert_eq!(extension_of("archive.tar.gz"), "gz");
}

#[test]
fn extension_missing_is_other() {
    assert_eq!(extension_of("README"), "other");
    assert_eq!(extension_of(""), "other");
}

#[test]
fn extension_of_hidden_file_is_other() {
    // A leading-dot name with no further dot has no extension.
    assert_eq!(extension_of(".gitignore"), "other");
    // A dot later in a hidden name does begin an extension.
    assert_eq!(extension_of(".config.toml"), "toml");
}

#[test]
fn extension_of_trailing_dot_is_empty() {
    assert_eq!(extension_of("notes."), "");
}

#[test]
fn depth_zero_emits_nothing() {
    let report = inspect(&sample_tree(), 0).unwrap();
    assert!(report.records.is_empty());
    assert_eq!(report.total_size, 0);
    assert_eq!(report.folder_count, 0);
    assert!(report.ext_counts.is_empty());
}

#[test]
fn no_record_deeper_than_bound() {
    let report = inspect(&sample_tree(), 2).unwrap();
    assert!(report.records.iter().all(|r| r.depth >= 1 && r.depth <= 2));
    assert_eq!(report.records.len(), 6);
}

#[test]
fn total_size_is_sum_of_emitted_file_sizes() {
    let report = inspect(&sample_tree(), 3).unwrap();
    let sum: u64 = report
        .records
        .iter()
        .map(|r| match &r.kind {
            RecordKind::File { size, .. } => *size,
            RecordKind::Folder => 0,
        })
        .sum();
    assert_eq!(report.total_size, sum);
    assert_eq!(report.total_size, 8000);
}

#[test]
fn folder_count_matches_folder_records() {
    let report = inspect(&sample_tree(), 3).unwrap();
    let folders = report
        .records
        .iter()
        .filter(|r| matches!(r.kind, RecordKind::Folder))
        .count();
    assert_eq!(report.folder_count as usize, folders);
    assert_eq!(report.folder_count, 2);
}

#[test]
fn extension_counts_sum_to_file_records() {
    let report = inspect(&sample_tree(), 3).unwrap();
    let files = report
        .records
        .iter()
        .filter(|r| matches!(r.kind, RecordKind::File { .. }))
        .count();
    let sum: u64 = report.ext_counts.iter().map(|c| c.count).sum();
    assert_eq!(sum as usize, files);
}

#[test]
fn extension_buckets_count_and_order() {
    let report = inspect(&sample_tree(), 3).unwrap();
    let buckets: Vec<(String, u64)> = report
        .ext_counts
        .iter()
        .map(|c| (c.extension.clone(), c.count))
        .collect();
    assert_eq!(
        buckets,
        vec![
            ("rs".to_string(), 2),
            ("txt".to_string(), 2),
            ("other".to_string(), 1),
        ]
    );
}

#[test]
fn records_carry_entry_data() {
    let entries = vec![EntryInfo {
        depth: 1,
        name: "a.bin".to_string(),
        kind: EntryKind::File { size: 5, readonly: true, created: stamp() },
    }];
    let report = inspect(&entries, 1).unwrap();
    assert_eq!(report.records.len(), 1);
    let record = &report.records[0];
    assert_eq!(record.depth, 1);
    assert_eq!(record.name, "a.bin");
    match &record.kind {
        RecordKind::File { size, readonly, created, extension } => {
            assert_eq!(*size, 5);
            assert!(*readonly);
            assert_eq!(*created, stamp());
            assert_eq!(extension, "bin");
        }
        RecordKind::Folder => panic!("expected a file record"),
    }
}

#[test]
fn root_entry_is_never_emitted() {
    let entries = vec![folder(0, "root"), file(1, "a.txt", 10)];
    let report = inspect(&entries, 1).unwrap();
    assert_eq!(report.records.len(), 1);
    assert_eq!(report.folder_count, 0);
    assert_eq!(report.total_size, 10);
}

#[test]
fn rerun_on_unchanged_listing_is_identical() {
    let entries = sample_tree();
    let first = inspect(&entries, 2).unwrap();
    let second = inspect(&entries, 2).unwrap();
    assert_eq!(first, second);
}

#[test]
fn overflowing_total_size_is_refused() {
    let entries = vec![file(1, "a.bin", u64::MAX), file(1, "b.bin", 1)];
    assert!(inspect(&entries, 1).is_none());
    // Out-of-depth entries do not contribute to the total.
    let entries = vec![file(1, "a.bin", u64::MAX), file(2, "b.bin", 1)];
    let report = inspect(&entries, 1).unwrap();
    assert_eq!(report.total_size, u64::MAX);
}
