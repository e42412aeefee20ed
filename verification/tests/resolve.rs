use lune_core::resolve::{
    canonicalize_path, classify_require_path, join_under, normalize_segments, split_segments,
    PathKind,
};

#[test]
fn canonical_collapses_dot_segments() {
    assert_eq!(canonicalize_path("a/./b"), String::from("a/b"));
}

#[test]
fn canonical_collapses_empty_segments() {
    assert_eq!(canonicalize_path("a//b"), String::from("a/b"));
    assert_eq!(canonicalize_path("a/b/"), String::from("a/b"));
}

#[test]
fn canonical_resolves_parent_segments() {
    assert_eq!(canonicalize_path("a/b/../c"), String::from("a/c"));
    assert_eq!(canonicalize_path("a/../../b"), String::from("b"));
}

#[test]
fn canonical_of_empty_is_empty() {
    assert_eq!(canonicalize_path(""), String::from(""));
    assert_eq!(canonicalize_path("."), String::from(""));
}

#[test]
fn canonical_is_idempotent_on_examples() {
    for p in ["a/./b", "x//y/../z", "./m", "../n"] {
        let once = canonicalize_path(p);
        let twice = canonicalize_path(&once);
        assert_eq!(once, twice);
    }
}

#[test]
fn split_keeps_empty_segments() {
    let segs = split_segments("a//b/");
    assert_eq!(
        segs,
        vec![String::from("a"), String::from(""), String::from("b"), String::from("")]
    );
}

#[test]
fn normalize_drops_specials() {
    let segs = vec![
        String::from("a"),
        String::from("."),
        String::from(""),
        String::from("b"),
        String::from(".."),
        String::from("c"),
    ];
    assert_eq!(normalize_segments(&segs), vec![String::from("a"), String::from("c")]);
}

#[test]
fn classify_builtin_lowercases_name() {
    let r = classify_require_path("@lune/FS");
    assert_eq!(r, PathKind::Builtin { name: String::from("fs") });
}

#[test]
fn classify_alias_splits_on_first_slash() {
    let r = classify_require_path("@pkg/a/b");
    assert_eq!(
        r,
        PathKind::Aliased { alias: String::from("pkg"), rest: String::from("a/b") }
    );
}

#[test]
fn classify_alias_without_slash_is_malformed() {
    assert_eq!(classify_require_path("@pkg"), PathKind::MissingDelimiter);
}

#[test]
fn classify_plain_paths() {
    assert_eq!(classify_require_path("dir/mod"), PathKind::Plain);
    assert_eq!(classify_require_path(""), PathKind::Plain);
    // The builtin prefix is case-sensitive: this is an alias form.
    assert_eq!(
        classify_require_path("@Lune/fs"),
        PathKind::Aliased { alias: String::from("Lune"), rest: String::from("fs") }
    );
}

#[test]
fn join_under_inserts_one_separator() {
    let base = String::from("proj");
    assert_eq!(join_under(&base, "mod"), String::from("proj/mod"));
}
