use bibliotek::reconcile::{reconcile_kind, Candidate, SeenSet, format_external_id, is_orphan};
use bibliotek::store::{EntityStore, StoreError};

fn candidate(native: &str, body: &str) -> Candidate {
    Candidate {
        native_id: native.to_string(),
        parent: None,
        fields: vec![Some(body.to_string())],
        aux: None,
    }
}

#[test]
fn reconcile_creates_then_reports_unchanged() {
    let mut store = EntityStore::new();
    let batch = vec![candidate("n1", "one"), candidate("n2", "two")];
    let first = reconcile_kind(&mut store, "src", None, &batch);
    assert_eq!(first.created, 2);
    assert_eq!(first.unchanged, 0);
    assert_eq!(first.deleted, 0);

    let second = reconcile_kind(&mut store, "src", None, &batch);
    assert_eq!(second.created, 0);
    assert_eq!(second.updated, 0);
    assert_eq!(second.unchanged, 2);
    assert_eq!(second.deleted, 0);
}

#[test]
fn reconcile_sweeps_only_this_sources_orphans() {
    let mut store = EntityStore::new();
    reconcile_kind(&mut store, "src", None, &vec![candidate("n1", "one")]);
    reconcile_kind(&mut store, "other", None, &vec![candidate("n1", "one")]);
    // an empty batch for one source leaves the other source's record alone
    let stats = reconcile_kind(&mut store, "src", None, &vec![]);
    assert_eq!(stats.deleted, 1);
    assert!(store.find_by_external_id("src:n1").is_none());
    assert!(store.find_by_external_id("other:n1").is_some());
}

#[test]
fn store_enforces_external_id_uniqueness() {
    let mut store = EntityStore::new();
    let ok = store.create(None, vec![Some("x".to_string())], Some("s:1".to_string()), None, None);
    assert!(matches!(ok, Ok(1)));
    let dup = store.create(None, vec![Some("y".to_string())], Some("s:1".to_string()), None, None);
    assert!(matches!(dup, Err(StoreError::UniqueViolation)));
}

#[test]
fn soft_delete_hides_but_keeps_the_row() {
    let mut store = EntityStore::new();
    let created = store.create(None, vec![Some("x".to_string())], Some("s:1".to_string()), None, None);
    let id = match created {
        Ok(id) => id,
        Err(_) => panic!("create refused a fresh external id"),
    };
    assert!(store.soft_delete(id));
    assert!(!store.soft_delete(id));
    assert!(store.find_by_external_id("s:1").is_none());
    assert_eq!(store.row_count(), 1);
}

#[test]
fn update_answers_none_for_missing_rows() {
    let mut store = EntityStore::new();
    assert!(store.update(7, vec![Some("x".to_string())], None, None).is_none());
}

#[test]
fn external_ids_are_namespaced() {
    assert_eq!(format_external_id("light", "42"), "light:42");
    let mut seen = SeenSet::new();
    seen.insert("light:42".to_string());
    assert!(!is_orphan(&Some("light:42".to_string()), &seen));
    assert!(is_orphan(&Some("light:43".to_string()), &seen));
    assert!(!is_orphan(&None, &seen));
}
