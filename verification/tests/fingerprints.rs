use bibliotek::hash::{
    compute_annotation_hash, compute_comment_hash, compute_note_hash, compute_resource_hash,
};

#[test]
fn resource_hash_exact_value() {
    // one character: a sixteen-digit length prefix, then the code point 0x61
    assert_eq!(compute_resource_hash("a"), "0000000000000001000061");
    assert_eq!(compute_resource_hash(""), "0000000000000000");
}

#[test]
fn hashes_are_stable() {
    assert_eq!(compute_resource_hash("the title"), compute_resource_hash("the title"));
    assert_eq!(
        compute_annotation_hash("text", Some("yellow")),
        compute_annotation_hash("text", Some("yellow"))
    );
}

#[test]
fn any_semantic_change_changes_the_hash() {
    assert_ne!(compute_resource_hash("title a"), compute_resource_hash("title b"));
    assert_ne!(
        compute_annotation_hash("text", Some("yellow")),
        compute_annotation_hash("text", Some("green"))
    );
    assert_ne!(
        compute_annotation_hash("text", Some("yellow")),
        compute_annotation_hash("text", None)
    );
    assert_ne!(compute_comment_hash("body"), compute_comment_hash("body "));
    assert_ne!(compute_note_hash(""), compute_note_hash(" "));
}

#[test]
fn field_boundaries_do_not_collide() {
    // the same characters split differently across fields must not collide
    assert_ne!(
        compute_annotation_hash("ab", Some("c")),
        compute_annotation_hash("a", Some("bc"))
    );
    assert_ne!(compute_annotation_hash("ab", None), compute_resource_hash("a"));
}
