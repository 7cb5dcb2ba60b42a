use chrono::Utc;
use loki_migration::{AppliedRevision, Revision, RevisionList, RevisionStatus};

fn nanos_of(when: chrono::DateTime<Utc>) -> i64 {
    when.timestamp_nanos_opt().expect("timestamp out of range")
}

#[test]
fn empty_revision_vec() {
    let revisions = Vec::<Revision>::new();
    assert_eq!("[]", revisions.revision_list());
}

#[test]
fn empty_applied_revision_vec() {
    let revisions = Vec::<AppliedRevision>::new();
    assert_eq!("[]", revisions.revision_list());
}

#[test]
fn sinle_revision_vec() {
    let revisions = vec![Revision::const_new("v00", None, None)];
    assert_eq!("[v00]", revisions.revision_list());
}

#[test]
fn sinle_applied_revision_vec() {
    let revisions = vec![AppliedRevision::new("0000_create_news_table", nanos_of(Utc::now()))];
    assert_eq!("[0000_create_news_table]", revisions.revision_list());
}

#[test]
fn single_revision_vec_spaces() {
    let revisions = vec![Revision::const_new("v 00", None, None)];
    assert_eq!("[v_00]", revisions.revision_list());
}

#[test]
fn single_applied_revision_vec_spaces() {
    let revisions = vec![AppliedRevision::new("v 00 create news", nanos_of(Utc::now()))];
    assert_eq!("[v_00_create_news]", revisions.revision_list());
}

#[test]
fn revisions_vec() {
    let revisions = vec![
        Revision::const_new("v00", None, None),
        Revision::const_new("v01_create", None, None),
    ];
    assert_eq!("[v00;v01_create]", revisions.revision_list());
}

#[test]
fn applied_revisions_vec() {
    let revisions = vec![
        AppliedRevision::new("v00", nanos_of(Utc::now())),
        AppliedRevision::new("v01_initial", nanos_of(Utc::now())),
    ];
    assert_eq!("[v00;v01_initial]", revisions.revision_list());
}

#[test]
fn applied_revisions_vec_status() {
    let now = Utc::now();
    let timestamp = now.to_rfc3339();

    let revisions = vec![
        AppliedRevision::new("v00", nanos_of(now)),
        AppliedRevision::new("v01_initial", nanos_of(now)),
    ];
    assert_eq!(
        format!("[v00@{timestamp};v01_initial@{timestamp}]"),
        revisions.revision_status(),
    );
}

#[test]
fn applied_revision_status() {
    let now = Utc::now();
    let timestamp = now.to_rfc3339();

    let revision = AppliedRevision::new("v 00", nanos_of(now));
    assert_eq!(format!("v_00@{timestamp}"), revision.revision_status());
}

#[test]
fn contains_revision_by_id() {
    let revisions = vec![
        Revision::const_new("v00", None, None),
        Revision::const_new("v01", None, None),
    ];
    assert!(revisions.contains_revision("v01"));
    assert!(!revisions.contains_revision("v02"));
    let applied = vec![AppliedRevision::new("v00", 0)];
    assert!(applied.contains_revision("v00"));
    assert!(!applied.contains_revision("v01"));
}
