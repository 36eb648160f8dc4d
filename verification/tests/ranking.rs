use sync_engine::diff::DiffCalculator;
use sync_engine::{FileDiff, OperationKind};

fn op(path: &str, kind: OperationKind, size: i64) -> FileDiff {
    FileDiff {
        path: path.to_string(),
        operation: kind,
        source_hash: "s".to_string(),
        dest_hash: "d".to_string(),
        size,
    }
}

#[test]
fn test_priority_kind_values() {
    let calculator = DiffCalculator::new();
    // Bare kind plus the small-size tier; "bin" is in no extension bucket.
    assert_eq!(
        calculator.get_file_priority(&op("data.bin", OperationKind::Create, 10)),
        120
    );
    assert_eq!(
        calculator.get_file_priority(&op("data.bin", OperationKind::Update, 10)),
        70
    );
    assert_eq!(
        calculator.get_file_priority(&op("data.bin", OperationKind::Delete, 10)),
        30
    );
}

#[test]
fn test_priority_size_tiers() {
    let calculator = DiffCalculator::new();
    let small = calculator.get_file_priority(&op("data.bin", OperationKind::Create, 1048575));
    let medium = calculator.get_file_priority(&op("data.bin", OperationKind::Create, 1048576));
    let large = calculator.get_file_priority(&op("data.bin", OperationKind::Create, 10485760));
    assert_eq!(small, 120);
    assert_eq!(medium, 110);
    assert_eq!(large, 100);
}

#[test]
fn test_priority_extension_buckets() {
    let calculator = DiffCalculator::new();
    // create (100) + small (20) + bucket bonus
    assert_eq!(
        calculator.get_file_priority(&op("conf/settings.json", OperationKind::Create, 10)),
        150
    );
    assert_eq!(
        calculator.get_file_priority(&op("notes.txt", OperationKind::Create, 10)),
        145
    );
    assert_eq!(
        calculator.get_file_priority(&op("src/main.rs", OperationKind::Create, 10)),
        140
    );
    // Case-insensitive extension matching.
    assert_eq!(
        calculator.get_file_priority(&op("conf/settings.JSON", OperationKind::Create, 10)),
        150
    );
}

#[test]
fn test_priority_special_filenames() {
    let calculator = DiffCalculator::new();
    // Makefile: no extension, special name (40): 100 + 20 + 40.
    assert_eq!(
        calculator.get_file_priority(&op("proj/Makefile", OperationKind::Create, 10)),
        160
    );
    // README.md: md extension (25) and special name (40): 100 + 20 + 25 + 40.
    assert_eq!(
        calculator.get_file_priority(&op("README.md", OperationKind::Create, 10)),
        185
    );
    // go.mod: mod is no extension bucket, special name (35): 100 + 20 + 35.
    assert_eq!(
        calculator.get_file_priority(&op("go.mod", OperationKind::Create, 10)),
        155
    );
    // A dotfile has no extension and no special name.
    assert_eq!(
        calculator.get_file_priority(&op(".gitignore", OperationKind::Create, 10)),
        120
    );
}

#[test]
fn test_stable_ranking() {
    // Equal scores keep their input order.
    let calculator = DiffCalculator::new();
    let mut ops = vec![
        op("z.txt", OperationKind::Create, 10),
        op("a.txt", OperationKind::Create, 10),
    ];
    calculator.sort_by_priority(&mut ops);
    assert_eq!(ops[0].path, "z.txt");
    assert_eq!(ops[1].path, "a.txt");
}

#[test]
fn test_special_filename_boost_sorts_first() {
    // go.mod (100+35+20) sorts above data.bin (100+20) of equal size.
    let calculator = DiffCalculator::new();
    let mut ops = vec![
        op("data.bin", OperationKind::Create, 10),
        op("go.mod", OperationKind::Create, 10),
    ];
    calculator.sort_by_priority(&mut ops);
    assert_eq!(ops[0].path, "go.mod");
    assert_eq!(ops[1].path, "data.bin");
}

#[test]
fn test_sort_by_priority_full_order() {
    let calculator = DiffCalculator::new();
    let mut ops = vec![
        op("huge.bin", OperationKind::Delete, 20971520),
        op("app.rs", OperationKind::Update, 10),
        op("Cargo.toml", OperationKind::Create, 10),
        op("first.bin", OperationKind::Create, 10),
        op("second.bin", OperationKind::Create, 10),
    ];
    calculator.sort_by_priority(&mut ops);
    // Cargo.toml: 100+20+30+35 = 185; the two .bin creates: 120 each, in
    // input order; app.rs update: 50+20+20 = 90; huge delete: 10.
    assert_eq!(ops[0].path, "Cargo.toml");
    assert_eq!(ops[1].path, "first.bin");
    assert_eq!(ops[2].path, "second.bin");
    assert_eq!(ops[3].path, "app.rs");
    assert_eq!(ops[4].path, "huge.bin");
}
