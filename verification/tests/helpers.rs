use bibliotek::commonplace::{migrations, Catalog, ResourceType};
use bibliotek::db::split_comma_separated_string;
use bibliotek::numfmt::{i64_to_string, u64_to_string};
use bibliotek::pdf_extract::{infer_category_from_metadata, parse_keywords, title_from_filename};
use bibliotek::resumable::{build_key, get_filename_from_key, parse_key};
use bibliotek::{get_s3_url, unpack_error};

#[test]
fn s3_urls_per_service() {
    assert_eq!(get_s3_url("t3", "books", "k.pdf"), "https://books.t3.storage.dev/k.pdf");
    assert_eq!(get_s3_url("s3", "books", "k.pdf"), "https://books.s3.amazonaws.com/k.pdf");
    assert_eq!(get_s3_url("minio", "books", "k.pdf"), "https://minio.storage.dev/k.pdf");
}

#[test]
fn error_chains_join_with_colons() {
    assert_eq!(unpack_error(&vec!["outer".to_string(), "cause".to_string()]), "outer: cause");
    assert_eq!(unpack_error(&vec!["only".to_string()]), "only");
    assert_eq!(unpack_error(&vec![]), "");
}

#[test]
fn keywords_are_trimmed_lowercased_and_filtered() {
    assert_eq!(parse_keywords(" Math, ,PHYSICS "), vec!["math".to_string(), "physics".to_string()]);
    assert_eq!(parse_keywords(""), Vec::<String>::new());
}

#[test]
fn id_lists_are_split_and_trimmed() {
    assert_eq!(
        split_comma_separated_string("1, 2,,3 ".to_string()),
        vec!["1".to_string(), "2".to_string(), "3".to_string()]
    );
}

#[test]
fn categories_follow_cue_word_precedence() {
    assert_eq!(
        infer_category_from_metadata(Some("Advanced Physics"), None),
        Some("physics".to_string())
    );
    assert_eq!(
        infer_category_from_metadata(Some("math"), Some("physics")),
        Some("mathematics".to_string())
    );
    assert_eq!(infer_category_from_metadata(None, None), None);
}

#[test]
fn titles_fall_back_to_cleaned_file_names() {
    assert_eq!(title_from_filename("my_book-v2.pdf"), "my book v2");
    assert_eq!(title_from_filename("plain"), "plain");
    assert_eq!(title_from_filename(" spaced_.name.txt"), "spaced .name");
}

#[test]
fn decimal_renderings() {
    assert_eq!(u64_to_string(0), "0");
    assert_eq!(u64_to_string(90210), "90210");
    assert_eq!(i64_to_string(-42), "-42");
    assert_eq!(i64_to_string(i64::MIN), "-9223372036854775808");
}

#[test]
fn resource_types_round_trip() {
    assert_eq!(ResourceType::Website.as_str(), "website");
    assert_eq!(ResourceType::Pdf.as_str(), "pdf");
    assert!(matches!(ResourceType::from_str("WEBSITE"), Some(ResourceType::Website)));
    assert!(matches!(ResourceType::from_str("Pdf"), Some(ResourceType::Pdf)));
    assert!(ResourceType::from_str("epub").is_none());
}

#[test]
fn upload_keys_round_trip() {
    let key = build_key("0123456789abcdef", "file.pdf");
    assert_eq!(key, "0123456789abcdef_file.pdf");
    let meta = parse_key(&key).unwrap();
    assert_eq!(meta.signature, "0123456789abcdef");
    assert_eq!(meta.file_name, "file.pdf");
    assert_eq!(get_filename_from_key(&key), Some("file.pdf".to_string()));
    assert!(parse_key("short_name").is_none());
    assert!(parse_key("nounderscore").is_none());
}

#[test]
fn migration_lists_are_named() {
    let commonplace = migrations();
    assert_eq!(commonplace.len(), 1);
    assert_eq!(commonplace[0].0, "commonplace_001_schema.sql");
    assert!(commonplace[0].1.contains("CREATE TABLE"));
    let research = bibliotek::research::migrations();
    assert_eq!(research.len(), 1);
    assert_eq!(research[0].0, "research_001_config.sql");
    assert!(research[0].1.contains("research_config"));
}

#[test]
fn config_references_are_scanned_and_substituted() {
    let text = "db: ${DB_PATH} port: ${PORT:-8080} tail";
    let refs = bibliotek::config::env_var_refs(text);
    assert_eq!(refs.len(), 2);
    assert_eq!(refs[0], ("DB_PATH".to_string(), None));
    assert_eq!(refs[1], ("PORT".to_string(), Some("8080".to_string())));

    let out = bibliotek::config::substitute_env_vars(
        text,
        &vec!["/tmp/x.db".to_string(), "9000".to_string()],
    );
    assert_eq!(out, "db: /tmp/x.db port: 9000 tail");

    // an unclosed opener stops the scan and keeps the text as it stands
    assert_eq!(bibliotek::config::env_var_refs("broken ${X").len(), 0);
    assert_eq!(
        bibliotek::config::substitute_env_vars("broken ${X", &vec![]),
        "broken ${X"
    );
}

#[test]
fn resources_are_found_by_title() {
    let mut catalog = Catalog::new();
    let req = bibliotek::light::SyncRequest {
        source: "light".to_string(),
        scope: None,
        highlights: vec![bibliotek::light::UrlHighlights {
            url: "https://t".to_string(),
            records: vec![],
        }],
    };
    bibliotek::light::sync_highlights(&mut catalog, &req);
    let found = catalog.find_resource_by_title("https://t").unwrap();
    assert_eq!(found.title, "https://t");
    assert!(matches!(found.resource_type, ResourceType::Website));
    assert!(catalog.find_resource_by_title("https://other").is_none());
}
