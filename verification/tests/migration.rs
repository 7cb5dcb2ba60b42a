use loki_migration::{AppliedRevision, MemoryStore, Migration, Revision};

fn rev(id: &str) -> Revision {
    Revision::const_new(id, None, None)
}

fn ledger_ids(migration: &Migration<MemoryStore>) -> Vec<String> {
    migration.store().rows().iter().map(|row| row.revision().to_string()).collect()
}

#[test]
fn full_migration() {
    let revisions = vec![rev("1"), rev("2")];
    let mut migration = Migration::new(MemoryStore::new(), revisions);
    assert_eq!(2, migration.upgrade().unwrap());
    let expected = vec!["query".to_string(), "apply:[1;2]".to_string()];
    assert_eq!(&expected, migration.store().calls());
}

#[test]
fn require_one_migration() {
    let revisions = vec![rev("1"), rev("2"), rev("3")];
    let store = MemoryStore::with_rows(vec![
        AppliedRevision::new("2", 0),
        AppliedRevision::new("1", 1),
    ]);
    let mut migration = Migration::new(store, revisions);
    assert_eq!(1, migration.upgrade().unwrap());
    let expected = vec!["query".to_string(), "apply:[3]".to_string()];
    assert_eq!(&expected, migration.store().calls());
}

#[test]
fn revert_all() {
    let revisions = vec![rev("1"), rev("2"), rev("3")];
    let store = MemoryStore::with_rows(vec![
        AppliedRevision::new("2", 0),
        AppliedRevision::new("1", 1),
        AppliedRevision::new("3", 2),
    ]);
    let mut migration = Migration::new(store, revisions);
    assert_eq!(3, migration.downgrade(None).unwrap());
    let expected = vec!["query".to_string(), "revert:[3;2;1]".to_string()];
    assert_eq!(&expected, migration.store().calls());
}

#[test]
fn revert_single() {
    let revisions = vec![rev("1"), rev("2"), rev("3")];
    let store = MemoryStore::with_rows(vec![
        AppliedRevision::new("2", 0),
        AppliedRevision::new("1", 1),
    ]);
    let mut migration = Migration::new(store, revisions);
    assert_eq!(1, migration.downgrade(Some(1)).unwrap());
    let expected = vec!["query".to_string(), "revert:[2]".to_string()];
    assert_eq!(&expected, migration.store().calls());
}

#[test]
fn reset() {
    let revisions = vec![rev("1"), rev("2"), rev("3")];
    let store = MemoryStore::with_rows(vec![
        AppliedRevision::new("2", 0),
        AppliedRevision::new("1", 1),
    ]);
    let mut migration = Migration::new(store, revisions);
    migration.reset().unwrap();
    let expected = vec![
        "query".to_string(),
        "revert:[2;1]".to_string(),
        "apply:[1;2;3]".to_string(),
    ];
    assert_eq!(&expected, migration.store().calls());
    assert_eq!(vec!["1", "2", "3"], ledger_ids(&migration));
}

#[test]
fn needs_migration_reports_already_migrated() {
    let revisions = vec![rev("1"), rev("2")];
    let store = MemoryStore::with_rows(vec![
        AppliedRevision::new("1", 0),
        AppliedRevision::new("2", 1),
    ]);
    let mut migration = Migration::new(store, revisions);
    assert!(migration.needs_migration());
}

#[test]
fn needs_migration_false_with_gap() {
    let revisions = vec![rev("1"), rev("2")];
    let store = MemoryStore::with_rows(vec![AppliedRevision::new("1", 0)]);
    let mut migration = Migration::new(store, revisions);
    assert!(!migration.needs_migration());
}

#[test]
fn downgrade_clamps_oversized_count() {
    let revisions = vec![rev("1"), rev("2")];
    let store = MemoryStore::with_rows(vec![
        AppliedRevision::new("1", 0),
        AppliedRevision::new("2", 1),
    ]);
    let mut migration = Migration::new(store, revisions);
    assert_eq!(2, migration.downgrade(Some(10)).unwrap());
    assert!(ledger_ids(&migration).is_empty());
}

#[test]
fn downgrade_of_zero_reverts_nothing() {
    let revisions = vec![rev("1"), rev("2")];
    let store = MemoryStore::with_rows(vec![AppliedRevision::new("1", 0)]);
    let mut migration = Migration::new(store, revisions);
    assert_eq!(0, migration.downgrade(Some(0)).unwrap());
    let expected = vec!["query".to_string()];
    assert_eq!(&expected, migration.store().calls());
}

#[test]
fn empty_declared_sequence() {
    let mut migration = Migration::new(MemoryStore::new(), Vec::<Revision>::new());
    assert!(migration.needs_migration());
    assert_eq!(0, migration.upgrade().unwrap());
    assert_eq!(0, migration.downgrade(None).unwrap());
}
