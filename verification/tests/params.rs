use bibliotek::api::QueryParams;

#[test]
fn test_params_deserialize() {}

#[test]
fn test_into_handler_params_defaults() {
    let qp = QueryParams { q: None, page: None, limit: None, state: None };
    let hp = qp.into_handler_params();
    assert_eq!(hp.page, 1);
    assert_eq!(hp.limit, 50);
    assert_eq!(hp.offset, 0);
    assert!(hp.query.is_none());
    assert!(hp.state.is_none());
}

#[test]
fn test_into_handler_params_paging() {
    let qp = QueryParams { q: Some("tea".to_string()), page: Some(3), limit: Some(10), state: None };
    let hp = qp.into_handler_params();
    assert_eq!(hp.page, 3);
    assert_eq!(hp.limit, 10);
    assert_eq!(hp.offset, 20);
    assert_eq!(hp.query.as_deref(), Some("tea"));
}

#[test]
fn test_into_handler_params_clamps_limit() {
    let qp = QueryParams { q: None, page: Some(0), limit: Some(500), state: None };
    let hp = qp.into_handler_params();
    assert_eq!(hp.page, 1);
    assert_eq!(hp.limit, 50);
    assert_eq!(hp.offset, 0);
}
