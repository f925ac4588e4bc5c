use bibliotek::commonplace::Catalog;
use bibliotek::light::{HighlightRecord, LightHighlight, SyncRequest, UrlHighlights, sync_highlights};

fn highlight(group_id: i64, repr: &str, url: &str) -> HighlightRecord {
    HighlightRecord {
        highlight: LightHighlight {
            chunks: vec![repr.to_string()],
            date: "2024-01-01".to_string(),
            group_id,
            repr: repr.to_string(),
            url: url.to_string(),
        },
        boundary: None,
    }
}

fn one_highlight_batch(scope: Option<&str>) -> SyncRequest {
    SyncRequest {
        source: "light".to_string(),
        scope: scope.map(|s| s.to_string()),
        highlights: vec![UrlHighlights {
            url: "https://a".to_string(),
            records: vec![highlight(1, "a passage", "https://a")],
        }],
    }
}

#[test]
fn one_new_highlight_creates_resource_and_annotation() {
    let mut catalog = Catalog::new();
    let resp = sync_highlights(&mut catalog, &one_highlight_batch(None));
    assert_eq!(resp.resources_created, 1);
    assert_eq!(resp.annotations_created, 1);
    assert_eq!(resp.annotations_updated, 0);
    assert_eq!(resp.annotations_deleted, 0);
    assert_eq!(resp.annotations_unchanged, 0);
}

#[test]
fn rerunning_the_identical_batch_changes_nothing() {
    let mut catalog = Catalog::new();
    sync_highlights(&mut catalog, &one_highlight_batch(None));
    let resp = sync_highlights(&mut catalog, &one_highlight_batch(None));
    assert_eq!(resp.resources_created, 0);
    assert_eq!(resp.annotations_created, 0);
    assert_eq!(resp.annotations_updated, 0);
    assert_eq!(resp.annotations_deleted, 0);
    assert_eq!(resp.annotations_unchanged, 1);
}

#[test]
fn omitted_highlight_is_soft_deleted_but_the_row_persists() {
    let mut catalog = Catalog::new();
    sync_highlights(&mut catalog, &one_highlight_batch(None));
    assert!(catalog.find_annotation_by_external_id("light:1").is_some());

    let empty_batch = SyncRequest {
        source: "light".to_string(),
        scope: None,
        highlights: vec![UrlHighlights { url: "https://a".to_string(), records: vec![] }],
    };
    let resp = sync_highlights(&mut catalog, &empty_batch);
    assert_eq!(resp.annotations_deleted, 1);
    assert!(catalog.find_annotation_by_external_id("light:1").is_none());
    assert_eq!(catalog.annotations.row_count(), 1);
}

#[test]
fn scoped_sync_spares_highlights_of_other_resources() {
    let mut catalog = Catalog::new();
    sync_highlights(&mut catalog, &one_highlight_batch(None));
    // a second resource, synced under its own scope so the first
    // resource's highlight is not swept along the way
    let batch_b = SyncRequest {
        source: "light".to_string(),
        scope: Some("https://b".to_string()),
        highlights: vec![UrlHighlights {
            url: "https://b".to_string(),
            records: vec![highlight(2, "other passage", "https://b")],
        }],
    };
    sync_highlights(&mut catalog, &batch_b);
    assert!(catalog.find_annotation_by_external_id("light:1").is_some());

    // an empty batch scoped to the other resource omits highlight 1,
    // yet must not touch it
    let scoped = SyncRequest {
        source: "light".to_string(),
        scope: Some("https://b".to_string()),
        highlights: vec![],
    };
    let resp = sync_highlights(&mut catalog, &scoped);
    assert!(catalog.find_annotation_by_external_id("light:1").is_some());
    assert!(catalog.find_annotation_by_external_id("light:2").is_none());
    assert_eq!(resp.annotations_deleted, 1);
}

#[test]
fn unresolved_scope_skips_the_sweep() {
    let mut catalog = Catalog::new();
    sync_highlights(&mut catalog, &one_highlight_batch(None));
    let scoped = SyncRequest {
        source: "light".to_string(),
        scope: Some("https://nowhere".to_string()),
        highlights: vec![],
    };
    let resp = sync_highlights(&mut catalog, &scoped);
    assert_eq!(resp.annotations_deleted, 0);
    assert!(catalog.find_annotation_by_external_id("light:1").is_some());
}

#[test]
fn changed_highlight_text_updates_the_annotation() {
    let mut catalog = Catalog::new();
    sync_highlights(&mut catalog, &one_highlight_batch(None));
    let changed = SyncRequest {
        source: "light".to_string(),
        scope: None,
        highlights: vec![UrlHighlights {
            url: "https://a".to_string(),
            records: vec![highlight(1, "a different passage", "https://a")],
        }],
    };
    let resp = sync_highlights(&mut catalog, &changed);
    assert_eq!(resp.annotations_updated, 1);
    assert_eq!(resp.annotations_created, 0);
    assert_eq!(resp.resources_created, 0);
    let ann = catalog.find_annotation_by_external_id("light:1").unwrap();
    assert_eq!(ann.text, "a different passage");
}
