use loki_migration::{
    AppliedRevision, ExecutionPolicy, MemoryStorage, MemoryStore, Migration, MigrationError,
    Revision, RevisionDatabase,
};

fn rev(id: &str) -> Revision {
    Revision::const_new(id, None, None)
}

fn scripted(id: &str, apply: &str) -> Revision {
    Revision::const_new(id, Some(apply), None)
}

fn ledger_ids(store: &MemoryStore) -> Vec<String> {
    store.rows().iter().map(|row| row.revision().to_string()).collect()
}

#[test]
fn upgrade_applies_exactly_the_gap() {
    let revisions = vec![rev("a"), rev("b"), rev("c"), rev("d")];
    let store = MemoryStore::with_rows(vec![
        AppliedRevision::new("c", 0),
        AppliedRevision::new("a", 1),
    ]);
    let mut migration = Migration::new(store, revisions);
    assert_eq!(2, migration.upgrade().unwrap());
    let expected = vec!["query".to_string(), "apply:[b;d]".to_string()];
    assert_eq!(&expected, migration.store().calls());
}

#[test]
fn upgrade_fully_applied_makes_no_store_calls() {
    let revisions = vec![rev("a"), rev("b")];
    let store = MemoryStore::with_rows(vec![
        AppliedRevision::new("a", 0),
        AppliedRevision::new("b", 1),
    ]);
    let mut migration = Migration::new(store, revisions);
    assert_eq!(0, migration.upgrade().unwrap());
    let expected = vec!["query".to_string()];
    assert_eq!(&expected, migration.store().calls());
}

#[test]
fn upgrade_twice_applies_nothing_the_second_time() {
    let revisions = vec![rev("x"), rev("y")];
    let mut migration = Migration::new(MemoryStore::new(), revisions);
    assert_eq!(2, migration.upgrade().unwrap());
    assert_eq!(0, migration.upgrade().unwrap());
    let expected = vec![
        "query".to_string(),
        "apply:[x;y]".to_string(),
        "query".to_string(),
    ];
    assert_eq!(&expected, migration.store().calls());
}

#[test]
fn apply_then_revert_restores_the_ledger() {
    let revisions = vec![rev("base"), rev("extra1"), rev("extra2")];
    let store = MemoryStore::with_rows(vec![AppliedRevision::new("base", 0)]);
    let mut migration = Migration::new(store, revisions);
    assert_eq!(2, migration.upgrade().unwrap());
    assert_eq!(2, migration.downgrade(Some(2)).unwrap());
    assert_eq!(vec!["base"], ledger_ids(migration.store()));
}

#[test]
fn example_upgrade_applies_the_last_revision() {
    let revisions = vec![rev("v1"), rev("v2"), rev("v3")];
    let store = MemoryStore::with_rows(vec![
        AppliedRevision::new("v1", 0),
        AppliedRevision::new("v2", 1),
    ]);
    let mut migration = Migration::new(store, revisions);
    assert_eq!(1, migration.upgrade().unwrap());
    let expected = vec!["query".to_string(), "apply:[v3]".to_string()];
    assert_eq!(&expected, migration.store().calls());
}

#[test]
fn example_downgrade_one_reverts_the_most_recent() {
    let revisions = vec![rev("v1"), rev("v2"), rev("v3")];
    let store = MemoryStore::with_rows(vec![
        AppliedRevision::new("v1", 0),
        AppliedRevision::new("v2", 1),
    ]);
    let mut migration = Migration::new(store, revisions);
    assert_eq!(1, migration.downgrade(Some(1)).unwrap());
    let expected = vec!["query".to_string(), "revert:[v2]".to_string()];
    assert_eq!(&expected, migration.store().calls());
}

#[test]
fn example_downgrade_all_reverts_in_reverse_order() {
    let revisions = vec![rev("v1"), rev("v2"), rev("v3")];
    let store = MemoryStore::with_rows(vec![
        AppliedRevision::new("v1", 0),
        AppliedRevision::new("v2", 1),
        AppliedRevision::new("v3", 2),
    ]);
    let mut migration = Migration::new(store, revisions);
    assert_eq!(3, migration.downgrade(None).unwrap());
    let expected = vec!["query".to_string(), "revert:[v3;v2;v1]".to_string()];
    assert_eq!(&expected, migration.store().calls());
}

#[test]
fn sequential_failure_keeps_earlier_revisions() {
    let revisions = vec![
        scripted("v000", "CREATE TABLE a"),
        scripted("v001", "CREATE TABLE b"),
        scripted("v002", "CREATE TABLE c"),
    ];
    let mut storage = MemoryStorage::new();
    storage.fail_execute_at = Some(1);
    let mut db = RevisionDatabase::new(storage, ExecutionPolicy::Sequential);
    match db.apply_revisions(&revisions) {
        Err(MigrationError::PartialApplication { failed, committed, message }) => {
            assert_eq!("v001", failed);
            assert_eq!(vec!["v000".to_string()], committed);
            assert_eq!("injected execution failure", message);
        },
        other => panic!("expected a partial application error, got {other:?}"),
    }
    let recorded: Vec<String> =
        db.storage().rows.iter().map(|row| row.revision().to_string()).collect();
    assert_eq!(vec!["v000".to_string()], recorded);
    assert_eq!(2, db.storage().executed.len());
}

#[test]
fn reset_reverts_everything_then_applies_everything() {
    let revisions = vec![rev("v1"), rev("v2"), rev("v3")];
    let store = MemoryStore::with_rows(vec![AppliedRevision::new("v1", 0)]);
    let mut migration = Migration::new(store, revisions);
    migration.reset().unwrap();
    let expected = vec![
        "query".to_string(),
        "revert:[v1]".to_string(),
        "apply:[v1;v2;v3]".to_string(),
    ];
    assert_eq!(&expected, migration.store().calls());
    assert_eq!(vec!["v1", "v2", "v3"], ledger_ids(migration.store()));
}

#[test]
fn needs_migration_swallows_query_failures() {
    let revisions = vec![scripted("v1", "CREATE TABLE a")];
    let mut storage = MemoryStorage::with_applied(vec![AppliedRevision::new("v1", 0)]);
    storage.fail_query = true;
    let db = RevisionDatabase::new(storage, ExecutionPolicy::Sequential);
    let mut migration = Migration::new(db, revisions);
    assert!(!migration.needs_migration());
}

#[test]
fn upgrade_propagates_query_failures() {
    let revisions = vec![rev("v1")];
    let mut storage = MemoryStorage::new();
    storage.fail_query = true;
    let db = RevisionDatabase::new(storage, ExecutionPolicy::Sequential);
    let mut migration = Migration::new(db, revisions);
    match migration.upgrade() {
        Err(MigrationError::Query(_)) => {},
        other => panic!("expected a query error, got {other:?}"),
    }
}
