use path_utils::{join_and_normalize, normalize_path_buf, normalize_path_str};

#[test]
fn test_normalize_path_str() {
    assert_eq!(normalize_path_str("a//b"), "a/b");
    assert_eq!(normalize_path_str("a\\b"), "a/b");
    assert_eq!(normalize_path_str("a//b//c"), "a/b/c");
    assert_eq!(normalize_path_str("/a/b/"), "a/b");
    assert_eq!(normalize_path_str("a/./b"), "a/./b"); // Doesn't resolve . or ..
}

#[test]
fn test_normalize_path_buf() {
    assert_eq!(normalize_path_buf("a//b"), "a/b");
    assert_eq!(normalize_path_buf("a\\b"), "a/b");
}

#[test]
fn test_join_and_normalize() {
    assert_eq!(join_and_normalize("source/", "/main.rs"), "source/main.rs");
    assert_eq!(join_and_normalize("source", "main.rs"), "source/main.rs");
    assert_eq!(join_and_normalize("source//", "//main.rs"), "source/main.rs");
    let base = String::from("source/");
    let file = String::from("/main.rs");
    assert_eq!(join_and_normalize(&base, &file), "source/main.rs");
}

#[test]
fn test_normalize_mixed_separators() {
    assert_eq!(normalize_path_str("a//b\\c"), "a/b/c");
    assert_eq!(normalize_path_str(""), "");
    assert_eq!(normalize_path_str("///"), "");
    assert_eq!(normalize_path_str("\\\\server\\share"), "server/share");
}

#[test]
fn test_normalize_idempotent_examples() {
    for s in [
        "a//b\\c",
        "",
        "/a/b/",
        "\\\\x\\\\",
        "already/normal",
        "..//..",
        "a/./b",
        "   ",
    ] {
        let once = normalize_path_str(s);
        let twice = normalize_path_str(&once);
        assert_eq!(twice, once);
    }
}

#[test]
fn test_normalize_output_well_formed() {
    for s in ["a//b\\c", "/a/b/", "\\\\x\\\\y", "a\\\\b//c\\d", "////", "a"] {
        let n = normalize_path_str(s);
        assert!(!n.contains('\\'));
        assert!(!n.contains("//"));
        assert!(!n.starts_with('/'));
        assert!(!n.ends_with('/'));
    }
}

#[test]
fn test_join_and_normalize_associative_examples() {
    let cases = [
        ("a", "b", "c"),
        ("src/lib", "deep\\dir", "file.txt"),
        ("", "b//", "/c"),
        ("a/", "", "c\\d"),
        ("//", "\\", ""),
    ];
    for (a, b, c) in cases {
        let left = join_and_normalize(a, &join_and_normalize(b, c));
        let right = join_and_normalize(&join_and_normalize(a, b), c);
        assert_eq!(left, right);
    }
}
