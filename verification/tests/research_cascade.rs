use bibliotek::commonplace::Catalog;
use bibliotek::research::{
    AnnotationBundle, ResearchAnnotation, ResearchBatchItem, ResearchComment, ResearchItem,
    ResearchNote, sync_all_entities,
};

fn full_item() -> ResearchBatchItem {
    ResearchBatchItem {
        item: ResearchItem { id: "item-1".to_string(), title: "A Paper".to_string() },
        annotations: vec![AnnotationBundle {
            annotation: ResearchAnnotation {
                id: "ann-1".to_string(),
                text: "a highlighted claim".to_string(),
                color: Some("green".to_string()),
                boundary: None,
            },
            comments: vec![ResearchComment {
                id: "com-1".to_string(),
                content: "worth checking".to_string(),
            }],
        }],
        notes: vec![ResearchNote { id: "note-1".to_string(), content: "read again".to_string() }],
    }
}

#[test]
fn cascade_creates_every_kind_top_down() {
    let mut catalog = Catalog::new();
    let resp = sync_all_entities(&mut catalog, &vec![full_item()]);
    assert_eq!(resp.resources_created, 1);
    assert_eq!(resp.annotations_created, 1);
    assert_eq!(resp.comments_created, 1);
    assert_eq!(resp.notes_created, 1);
    assert_eq!(resp.resources_deleted, 0);
    assert_eq!(resp.annotations_deleted, 0);

    // every child really references its created parent
    let res = catalog.find_resource_by_external_id("research:item-1").unwrap();
    let ann = catalog.find_annotation_by_external_id("research:ann-1").unwrap();
    let com = catalog.find_comment_by_external_id("research:com-1").unwrap();
    let note = catalog.find_note_by_external_id("research:note-1").unwrap();
    assert_eq!(ann.resource_id, res.id);
    assert_eq!(com.annotation_id, ann.id);
    assert_eq!(note.resource_id, res.id);
}

#[test]
fn rerunning_the_same_batch_is_all_unchanged() {
    let mut catalog = Catalog::new();
    sync_all_entities(&mut catalog, &vec![full_item()]);
    let resp = sync_all_entities(&mut catalog, &vec![full_item()]);
    assert_eq!(resp.resources_created, 0);
    assert_eq!(resp.resources_unchanged, 1);
    assert_eq!(resp.annotations_unchanged, 1);
    assert_eq!(resp.comments_unchanged, 1);
    assert_eq!(resp.notes_unchanged, 1);
    assert_eq!(resp.resources_deleted, 0);
    assert_eq!(resp.annotations_deleted, 0);
    assert_eq!(resp.comments_deleted, 0);
    assert_eq!(resp.notes_deleted, 0);
}

#[test]
fn dropped_comment_is_swept_without_touching_its_parent() {
    let mut catalog = Catalog::new();
    sync_all_entities(&mut catalog, &vec![full_item()]);
    let mut item = full_item();
    item.annotations[0].comments.clear();
    let resp = sync_all_entities(&mut catalog, &vec![item]);
    assert_eq!(resp.comments_deleted, 1);
    assert_eq!(resp.annotations_deleted, 0);
    assert!(catalog.find_comment_by_external_id("research:com-1").is_none());
    assert!(catalog.find_annotation_by_external_id("research:ann-1").is_some());
}

#[test]
fn changed_color_updates_the_annotation() {
    let mut catalog = Catalog::new();
    sync_all_entities(&mut catalog, &vec![full_item()]);
    let mut item = full_item();
    item.annotations[0].annotation.color = None;
    let resp = sync_all_entities(&mut catalog, &vec![item]);
    assert_eq!(resp.annotations_updated, 1);
    assert_eq!(resp.annotations_unchanged, 0);
}

#[test]
fn dropped_item_sweeps_its_whole_subtree() {
    let mut catalog = Catalog::new();
    sync_all_entities(&mut catalog, &vec![full_item()]);
    let resp = sync_all_entities(&mut catalog, &vec![]);
    assert_eq!(resp.resources_deleted, 1);
    assert_eq!(resp.annotations_deleted, 1);
    assert_eq!(resp.comments_deleted, 1);
    assert_eq!(resp.notes_deleted, 1);
    assert!(catalog.find_resource_by_external_id("research:item-1").is_none());
    // soft deletion keeps every row
    assert_eq!(catalog.resources.row_count(), 1);
    assert_eq!(catalog.annotations.row_count(), 1);
    assert_eq!(catalog.comments.row_count(), 1);
    assert_eq!(catalog.notes.row_count(), 1);
}
