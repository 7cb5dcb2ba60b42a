use loki_migration::Revision;

#[test]
fn delcare_empty_revision_ident() {
    let revision = Revision::const_new("v1", None, None);
    assert_eq!("v1", revision.revision());
    assert!(!revision.has_apply());
    assert!(!revision.has_revert());
}

#[test]
fn delcare_empty_revision_literal() {
    let revision = Revision::const_new("1", None, None);
    assert_eq!("1", revision.revision());
    assert!(!revision.has_apply());
    assert!(!revision.has_revert());
}

#[test]
fn declare_apply_revision() {
    let revision = Revision::const_new("v2", Some("SELECT"), None);
    assert_eq!("v2", revision.revision());
    assert_eq!("SELECT", revision.apply());
    assert!(!revision.has_revert());
}

#[test]
fn declare_apply_revision_literal() {
    let revision = Revision::const_new("2", Some("SELECT"), None);
    assert_eq!("2", revision.revision());
    assert_eq!("SELECT", revision.apply());
    assert!(!revision.has_revert());
}

#[test]
fn declare_full_revision() {
    let revision = Revision::const_new("v_1", Some("SELECT"), Some("DROP TABLE IF EXISTS fred"));
    assert_eq!("v_1", revision.revision());
    assert_eq!("SELECT", revision.apply());
    assert_eq!("DROP TABLE IF EXISTS fred", revision.revert());
}

#[test]
fn declare_full_revision_literal() {
    let revision = Revision::const_new("6", Some("SELECT"), Some("DROP TABLE IF EXISTS fred"));
    assert_eq!("6", revision.revision());
    assert_eq!("SELECT", revision.apply());
    assert_eq!("DROP TABLE IF EXISTS fred", revision.revert());
}

#[test]
fn blank_scripts_count_as_absent() {
    let revision = Revision::const_new("v9", Some("   \t\n"), Some(""));
    assert!(!revision.has_apply());
    assert!(!revision.has_revert());
    assert_eq!("   \t\n", revision.apply());
}
