use loki_migration::{
    AppliedRevision, ExecutionPolicy, MemoryStorage, MigrationError, Revision, RevisionDatabase,
    RevisionStore,
};

fn storage_with(rows: Vec<AppliedRevision>) -> MemoryStorage {
    MemoryStorage::with_applied(rows)
}

#[test]
fn query_applied_one() {
    let storage = storage_with(vec![AppliedRevision::new("v1_initial", 0)]);
    let mut db = RevisionDatabase::new(storage, ExecutionPolicy::Sequential);
    let applied = db.applied_revisions().unwrap();
    assert_eq!(1, applied.len());
    assert_eq!("v1_initial", applied[0].revision());
}

#[test]
fn query_applied() {
    let storage = storage_with(vec![
        AppliedRevision::new("v000", 0),
        AppliedRevision::new("v001", 1),
    ]);
    let mut db = RevisionDatabase::new(storage, ExecutionPolicy::Sequential);
    let applied = db.applied_revisions().unwrap();
    assert_eq!(2, applied.len());
    assert_eq!("v000", applied[0].revision());
    assert_eq!("v001", applied[1].revision());
}

#[test]
#[should_panic]
fn query_applied_failure() {
    let mut storage = MemoryStorage::new();
    storage.fail_query = true;
    let mut db = RevisionDatabase::new(storage, ExecutionPolicy::Sequential);
    db.applied_revisions().unwrap();
}

#[test]
fn apply_one() {
    let revisions = vec![Revision::const_new("v000", Some("SELECT * FROM migrations"), None)];
    let mut db = RevisionDatabase::new(MemoryStorage::new(), ExecutionPolicy::Sequential);
    db.apply(&revisions).unwrap();
    let expected =
        vec!["SELECT * FROM migrations\n;\nINSERT INTO migrations (rev) VALUES ('v000')"
            .to_string()];
    assert_eq!(&expected, &db.storage().executed);
}

#[test]
fn revert_one() {
    let revisions = vec![Revision::const_new(
        "v000",
        Some("SELECT * FROM migrations"),
        Some("DELETE * FROM migrations"),
    )];
    let mut db = RevisionDatabase::new(MemoryStorage::new(), ExecutionPolicy::Sequential);
    db.revert(&revisions).unwrap();
    let expected = vec![
        "DELETE * FROM migrations\n;\nDELETE FROM migrations WHERE rev='v000'".to_string(),
    ];
    assert_eq!(&expected, &db.storage().executed);
}

#[test]
fn apply_batch() {
    let revisions = vec![
        Revision::const_new("v000", Some("SELECT * FROM migrations"), None),
        Revision::const_new("v001", Some("CREATE TABLE news   "), None),
    ];
    let mut db = RevisionDatabase::new(MemoryStorage::new(), ExecutionPolicy::Batched);
    db.apply(&revisions).unwrap();
    let expected = vec![
        "SELECT * FROM migrations\n;\nCREATE TABLE news\n;\nINSERT INTO migrations (rev) VALUES ('v000'),('v001')"
            .to_string(),
    ];
    assert_eq!(&expected, &db.storage().executed);
}

#[test]
fn revert_batch() {
    let revisions = vec![
        Revision::const_new(
            "v000",
            Some("SELECT * FROM migrations"),
            Some("DELETE * FROM migrations"),
        ),
        Revision::const_new("v001", Some("CREATE TABLE news   "), Some("DROP TABLE news")),
    ];
    let mut db = RevisionDatabase::new(MemoryStorage::new(), ExecutionPolicy::Batched);
    db.revert(&revisions).unwrap();
    let expected = vec![
        "DELETE * FROM migrations\n;\nDROP TABLE news\n;\nDELETE FROM migrations WHERE rev='v000' OR rev='v001'"
            .to_string(),
    ];
    assert_eq!(&expected, &db.storage().executed);
}

#[test]
fn migrate_store_apply_batch() {
    let revisions = vec![
        Revision::const_new("v000", Some("SELECT * FROM migrations"), None),
        Revision::const_new("v001", Some("CREATE TABLE news   "), None),
    ];
    let mut db = RevisionDatabase::new(MemoryStorage::new(), ExecutionPolicy::Sequential);
    db.apply(&revisions).unwrap();
    let expected = vec![
        "SELECT * FROM migrations\n;\nINSERT INTO migrations (rev) VALUES ('v000')".to_string(),
        "CREATE TABLE news\n;\nINSERT INTO migrations (rev) VALUES ('v001')".to_string(),
    ];
    assert_eq!(&expected, &db.storage().executed);
}

#[test]
fn migrate_store_revert_batch() {
    let revisions = vec![
        Revision::const_new(
            "v000",
            Some("SELECT * FROM migrations"),
            Some("DELETE * FROM migrations"),
        ),
        Revision::const_new("v001", Some("CREATE TABLE news   "), Some("DROP TABLE news")),
    ];
    let mut db = RevisionDatabase::new(MemoryStorage::new(), ExecutionPolicy::Sequential);
    db.revert(&revisions).unwrap();
    let expected = vec![
        "DELETE * FROM migrations\n;\nDELETE FROM migrations WHERE rev='v000'".to_string(),
        "DROP TABLE news\n;\nDELETE FROM migrations WHERE rev='v001'".to_string(),
    ];
    assert_eq!(&expected, &db.storage().executed);
}

#[test]
fn conversion_failure_is_reported() {
    let mut storage = storage_with(vec![AppliedRevision::new("v000", 0)]);
    storage.undecodable_row = Some(0);
    let mut db = RevisionDatabase::new(storage, ExecutionPolicy::Sequential);
    match db.applied_revisions() {
        Err(MigrationError::Conversion(_)) => {},
        other => panic!("expected a conversion error, got {:?}", other.map(|v| v.len())),
    }
}

#[test]
fn batched_failure_leaves_ledger_unchanged() {
    let revisions = vec![
        Revision::const_new("v000", Some("CREATE TABLE a"), None),
        Revision::const_new("v001", Some("CREATE TABLE b"), None),
    ];
    let mut storage = MemoryStorage::new();
    storage.fail_execute_at = Some(0);
    let mut db = RevisionDatabase::new(storage, ExecutionPolicy::Batched);
    match db.apply(&revisions) {
        Err(MigrationError::Execution(_)) => {},
        other => panic!("expected an execution error, got {other:?}"),
    }
    assert!(db.storage().rows.is_empty());
}

#[test]
fn applying_nothing_executes_nothing() {
    let revisions = Vec::<Revision>::new();
    let mut db = RevisionDatabase::new(MemoryStorage::new(), ExecutionPolicy::Batched);
    db.apply(&revisions).unwrap();
    db.revert(&revisions).unwrap();
    assert!(db.storage().executed.is_empty());
}
