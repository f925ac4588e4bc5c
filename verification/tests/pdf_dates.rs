use bibliotek::pdf_date::parse_pdf_date;

#[test]
fn test_parse_pdf_date() {
    assert_eq!(
        parse_pdf_date("D:20231025143022"),
        Some("2023-10-25 14:30:22 UTC".to_string())
    );

    assert_eq!(
        parse_pdf_date("D:20231025"),
        Some("2023-10-25 00:00:00 UTC".to_string())
    );

    assert_eq!(parse_pdf_date(""), None);

    assert_eq!(
        parse_pdf_date("invalid_date"),
        Some("invalid_date".to_string())
    );
}

#[test]
fn test_parse_pdf_date_without_prefix() {
    assert_eq!(
        parse_pdf_date("20231025143022"),
        Some("2023-10-25 14:30:22 UTC".to_string())
    );
}

#[test]
fn test_parse_pdf_date_minutes_only() {
    assert_eq!(
        parse_pdf_date("D:202310251430"),
        Some("2023-10-25 14:30:00 UTC".to_string())
    );
}

#[test]
fn test_parse_pdf_date_rejects_bad_month() {
    assert_eq!(
        parse_pdf_date("D:20231325"),
        Some("D:20231325".to_string())
    );
}

#[test]
fn test_parse_pdf_date_leap_day() {
    assert_eq!(
        parse_pdf_date("D:20240229"),
        Some("2024-02-29 00:00:00 UTC".to_string())
    );
    assert_eq!(
        parse_pdf_date("D:20230229"),
        Some("D:20230229".to_string())
    );
}
