use sync_engine::FileMetadata;
use sync_engine::diff::DiffCalculator;

fn create_test_file(path: &str, hash: &str, size: i64) -> FileMetadata {
    FileMetadata {
        path: path.to_string(),
        hash: hash.to_string(),
        size,
        modified_time: "2023-01-01T00:00:00Z".to_string(),
        permissions: "0644".to_string(),
    }
}

#[test]
fn test_calculate_differences_new_file() {
    let calculator = DiffCalculator::new();

    let source_files = vec![create_test_file("/test/new_file.txt", "hash1", 1024)];
    let dest_files: Vec<FileMetadata> = vec![];

    let result = calculator
        .calculate_differences(&source_files, &dest_files)
        .unwrap();

    assert_eq!(result.differences.len(), 1);
    assert_eq!(result.differences[0].operation.name(), "create");
    assert_eq!(result.statistics.files_to_create, 1);
}

#[test]
fn test_calculate_differences_updated_file() {
    let calculator = DiffCalculator::new();

    let source_files = vec![create_test_file("/test/file.txt", "hash_new", 1024)];
    let dest_files = vec![create_test_file("/test/file.txt", "hash_old", 1024)];

    let result = calculator
        .calculate_differences(&source_files, &dest_files)
        .unwrap();

    assert_eq!(result.differences.len(), 1);
    assert_eq!(result.differences[0].operation.name(), "update");
    assert_eq!(result.statistics.files_to_update, 1);
}

#[test]
fn test_calculate_differences_no_changes() {
    let calculator = DiffCalculator::new();

    let source_files = vec![create_test_file("/test/file.txt", "same_hash", 1024)];
    let dest_files = vec![create_test_file("/test/file.txt", "same_hash", 1024)];

    let result = calculator
        .calculate_differences(&source_files, &dest_files)
        .unwrap();

    assert_eq!(result.differences.len(), 0);
    assert_eq!(result.statistics.files_to_create, 0);
    assert_eq!(result.statistics.files_to_update, 0);
}

#[test]
fn test_normalize_path() {
    let calculator = DiffCalculator::new();

    assert_eq!(
        calculator.normalize_path("C:\\test\\file.txt"),
        "C:/test/file.txt"
    );
    assert_eq!(
        calculator.normalize_path("/test/file.txt"),
        "/test/file.txt"
    );
}

#[test]
fn test_find_files_to_delete() {
    let calculator = DiffCalculator::new();

    let source_files = vec![create_test_file("/test/keep.txt", "hash1", 1024)];
    let dest_files = vec![
        create_test_file("/test/keep.txt", "hash1", 1024),
        create_test_file("/test/delete.txt", "hash2", 512),
    ];

    let to_delete = calculator.find_files_to_delete(&source_files, &dest_files);

    assert_eq!(to_delete.len(), 1);
    assert_eq!(to_delete[0].operation.name(), "delete");
    assert_eq!(to_delete[0].path, "/test/delete.txt");
}

#[test]
fn test_update_on_size_mismatch() {
    // Defensive branch: equal hashes but different sizes still force an
    // update.
    let calculator = DiffCalculator::new();

    let source_files = vec![create_test_file("/test/file.txt", "same_hash", 2048)];
    let dest_files = vec![create_test_file("/test/file.txt", "same_hash", 1024)];

    let result = calculator
        .calculate_differences(&source_files, &dest_files)
        .unwrap();

    assert_eq!(result.differences.len(), 1);
    assert_eq!(result.differences[0].operation.name(), "update");
    assert_eq!(result.differences[0].source_hash, "same_hash");
    assert_eq!(result.differences[0].dest_hash, "same_hash");
    assert_eq!(result.differences[0].size, 2048);
}

#[test]
fn test_path_normalization_join() {
    // A Windows-style source path and a POSIX-style destination path that
    // normalize to the same string are the same file: no operation.
    let calculator = DiffCalculator::new();

    let source_files = vec![create_test_file("a\\b\\c.txt", "h", 10)];
    let dest_files = vec![create_test_file("a/b/c.txt", "h", 10)];

    let result = calculator
        .calculate_differences(&source_files, &dest_files)
        .unwrap();
    assert_eq!(result.differences.len(), 0);

    let to_delete = calculator.find_files_to_delete(&source_files, &dest_files);
    assert_eq!(to_delete.len(), 0);
}

#[test]
fn test_single_create_statistics() {
    let calculator = DiffCalculator::new();

    let source_files = vec![create_test_file("x.txt", "h1", 10)];
    let dest_files: Vec<FileMetadata> = vec![];

    let result = calculator
        .calculate_differences(&source_files, &dest_files)
        .unwrap();

    assert_eq!(result.differences.len(), 1);
    assert_eq!(result.differences[0].operation.name(), "create");
    assert_eq!(result.differences[0].path, "x.txt");
    assert_eq!(result.differences[0].source_hash, "h1");
    assert_eq!(result.differences[0].dest_hash, "");
    assert_eq!(result.statistics.total_source_files, 1);
    assert_eq!(result.statistics.total_dest_files, 0);
    assert_eq!(result.statistics.files_to_create, 1);
    assert_eq!(result.statistics.files_to_update, 0);
    assert_eq!(result.statistics.files_to_delete, 0);
    assert_eq!(result.statistics.total_size, 10);
}

#[test]
fn test_identical_records_zero_statistics() {
    let calculator = DiffCalculator::new();

    let source_files = vec![create_test_file("x.txt", "h1", 10)];
    let dest_files = vec![create_test_file("x.txt", "h1", 10)];

    let result = calculator
        .calculate_differences(&source_files, &dest_files)
        .unwrap();

    assert_eq!(result.differences.len(), 0);
    assert_eq!(result.statistics.files_to_create, 0);
    assert_eq!(result.statistics.files_to_update, 0);
    assert_eq!(result.statistics.files_to_delete, 0);
    assert_eq!(result.statistics.total_size, 0);
}

#[test]
fn test_delete_for_absent_path() {
    let calculator = DiffCalculator::new();

    let source_files: Vec<FileMetadata> = vec![];
    let dest_files = vec![create_test_file("old.txt", "h9", 7)];

    let to_delete = calculator.find_files_to_delete(&source_files, &dest_files);

    assert_eq!(to_delete.len(), 1);
    assert_eq!(to_delete[0].operation.name(), "delete");
    assert_eq!(to_delete[0].path, "old.txt");
    assert_eq!(to_delete[0].source_hash, "");
    assert_eq!(to_delete[0].dest_hash, "h9");
    assert_eq!(to_delete[0].size, 7);
}

#[test]
fn test_diff_idempotent() {
    // Two runs over unchanged inputs give identical operations and
    // statistics.
    let calculator = DiffCalculator::new();

    let source_files = vec![
        create_test_file("a.txt", "h1", 1),
        create_test_file("b.txt", "h2", 2),
        create_test_file("c\\d.txt", "h3", 3),
    ];
    let dest_files = vec![
        create_test_file("b.txt", "hx", 2),
        create_test_file("gone.txt", "h4", 4),
    ];

    let r1 = calculator
        .calculate_differences(&source_files, &dest_files)
        .unwrap();
    let r2 = calculator
        .calculate_differences(&source_files, &dest_files)
        .unwrap();

    assert_eq!(r1.differences.len(), r2.differences.len());
    for (a, b) in r1.differences.iter().zip(r2.differences.iter()) {
        assert_eq!(a.path, b.path);
        assert_eq!(a.operation, b.operation);
        assert_eq!(a.source_hash, b.source_hash);
        assert_eq!(a.dest_hash, b.dest_hash);
        assert_eq!(a.size, b.size);
    }
    assert_eq!(r1.statistics, r2.statistics);
}

#[test]
fn test_duplicate_normalized_paths_last_wins() {
    // Two destination records normalizing to the same path: the last one
    // wins the join, the earlier one is silently dropped from comparison.
    let calculator = DiffCalculator::new();

    let source_files = vec![create_test_file("a/b.txt", "h_new", 10)];
    let dest_files = vec![
        create_test_file("a\\b.txt", "h_new", 10),
        create_test_file("a/b.txt", "h_old", 10),
    ];

    let result = calculator
        .calculate_differences(&source_files, &dest_files)
        .unwrap();

    // The source is compared against the last record (h_old), so an update
    // is emitted even though the first record matches.
    assert_eq!(result.differences.len(), 1);
    assert_eq!(result.differences[0].operation.name(), "update");
    assert_eq!(result.differences[0].dest_hash, "h_old");
}
