use bibliotek::sync::{
    handle_create_result, handle_create_result_unit, handle_update_result,
    handle_update_result_unit, is_unchanged, SyncResult, SyncStats, Syncable,
};

#[test]
fn counters_accumulate_by_class() {
    let mut stats = SyncStats::new();
    SyncResult::Created(7).record(&mut stats);
    SyncResult::Updated(7).record(&mut stats);
    SyncResult::Unchanged(7).record(&mut stats);
    SyncResult::<i32>::Error.record(&mut stats);
    assert_eq!(stats.created, 1);
    assert_eq!(stats.updated, 1);
    assert_eq!(stats.unchanged, 1);
    assert_eq!(stats.deleted, 0);

    let mut unit_stats = SyncStats::default();
    SyncResult::Created(()).record_unit(&mut unit_stats);
    SyncResult::<()>::Error.record_unit(&mut unit_stats);
    assert_eq!(unit_stats.created, 1);
    assert_eq!(unit_stats.errors, 0);
}

#[test]
fn record_hands_back_the_id_except_on_error() {
    let mut stats = SyncStats::new();
    assert_eq!(SyncResult::Created(3).record(&mut stats), Some(3));
    assert_eq!(SyncResult::<i32>::Error.record(&mut stats), None);
}

#[test]
fn update_results_classify_races_as_errors() {
    assert!(matches!(
        handle_update_result::<u8, String>(Ok(Some(0)), 5),
        SyncResult::Updated(5)
    ));
    assert!(matches!(handle_update_result::<u8, String>(Ok(None), 5), SyncResult::Error));
    assert!(matches!(
        handle_update_result::<u8, String>(Err("down".to_string()), 5),
        SyncResult::Error
    ));
    assert!(matches!(
        handle_update_result_unit::<u8, String>(Ok(Some(0))),
        SyncResult::Updated(())
    ));
}

#[test]
fn create_results_classify_failures_as_errors() {
    assert!(matches!(handle_create_result::<u8, String>(Ok(9), 4), SyncResult::Created(4)));
    assert!(matches!(
        handle_create_result::<u8, String>(Err("down".to_string()), 4),
        SyncResult::Error
    ));
    assert!(matches!(handle_create_result_unit::<u8, String>(Ok(9)), SyncResult::Created(())));
}

#[test]
fn unchanged_means_matching_fingerprints() {
    let record = bibliotek::commonplace::Resource {
        id: 1,
        title: "t".to_string(),
        resource_type: bibliotek::commonplace::ResourceType::Website,
        external_id: Some("src:1".to_string()),
        content_hash: Some("abc".to_string()),
        created_at: String::new(),
        updated_at: String::new(),
    };
    assert!(is_unchanged(&record, "abc"));
    assert!(!is_unchanged(&record, "abd"));
    assert_eq!(record.id(), 1);
    assert_eq!(record.external_id(), Some("src:1"));
    assert_eq!(record.content_hash(), Some("abc"));
}
