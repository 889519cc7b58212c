use path_utils::{is_safe_path, sanitize_directory_file_path, validate_path, PathError};

#[test]
fn test_is_safe_path() {
    // Safe paths
    assert!(is_safe_path("safe/path/file.txt"));
    assert!(is_safe_path("file.txt"));
    assert!(is_safe_path("src/main.rs"));

    // Unsafe paths
    assert!(!is_safe_path("../etc/passwd"));
    assert!(!is_safe_path(""));
    assert!(!is_safe_path("   "));
    assert!(!is_safe_path("file\0null"));
    assert!(!is_safe_path("file<script>"));
    assert!(!is_safe_path("CON"));
    assert!(!is_safe_path("PRN.txt"));
}

#[test]
fn test_validate_path() {
    // Valid paths
    assert!(validate_path("safe/path/file.txt").is_ok());
    assert!(validate_path("file.txt").is_ok());
    assert!(validate_path("src/main.rs").is_ok());

    // Invalid paths with specific errors
    assert!(matches!(
        validate_path("../etc/passwd"),
        Err(PathError::PathTraversal { .. })
    ));
    assert!(matches!(validate_path(""), Err(PathError::EmptyPath)));
    assert!(matches!(validate_path("   "), Err(PathError::EmptyPath)));
    assert!(matches!(
        validate_path("file\0null"),
        Err(PathError::InvalidCharacters { .. })
    ));
    assert!(matches!(
        validate_path("file<script>"),
        Err(PathError::InvalidCharacters { .. })
    ));
    assert!(matches!(
        validate_path("CON"),
        Err(PathError::ReservedFilename { .. })
    ));
    assert!(matches!(
        validate_path("PRN.txt"),
        Err(PathError::ReservedFilename { .. })
    ));
}

#[test]
fn test_is_safe_matches_validate() {
    for s in [
        "safe/path/file.txt",
        "",
        "   ",
        "../etc/passwd",
        "a..b",
        "file\0null",
        "file\tname",
        "file\nname",
        "CON",
        "lpt5",
        "notreserved",
        "a\\CON/b",
        "C:/data",
        "deep/\\mixed//path",
    ] {
        assert_eq!(is_safe_path(s), validate_path(s).is_ok(), "input {:?}", s);
    }
}

#[test]
fn test_reserved_names_rejected_any_case() {
    for name in [
        "CON", "PRN", "AUX", "NUL", "COM1", "LPT1", "con", "prn", "aux", "nul", "com1", "lpt1",
        "Con", "pRn", "AuX", "nUl", "Com1", "lPt1",
    ] {
        assert!(!is_safe_path(name), "reserved {:?} accepted", name);
        assert!(
            sanitize_directory_file_path(name).is_err(),
            "reserved {:?} sanitized",
            name
        );
    }
}

#[test]
fn test_validate_reserved_in_either_separator_form() {
    // The validator splits on both separators independently.
    assert!(matches!(
        validate_path("dir/NUL.txt"),
        Err(PathError::ReservedFilename { .. })
    ));
    assert!(matches!(
        validate_path("dir\\NUL.txt"),
        Err(PathError::ReservedFilename { .. })
    ));
    match validate_path("x/COM3.bin/y") {
        Err(PathError::ReservedFilename { filename, path }) => {
            assert_eq!(filename, "COM3.bin");
            assert_eq!(path, "x/COM3.bin/y");
        }
        other => panic!("expected a reserved-filename error, got {:?}", other),
    }
}

#[test]
fn test_nul_rejected_any_position() {
    for s in ["\0", "\0start", "mid\0dle", "end\0", "a/\0/b"] {
        assert!(!is_safe_path(s));
        assert!(validate_path(s).is_err());
        assert!(sanitize_directory_file_path(s).is_err());
    }
}

#[test]
fn test_dotdot_patterns_rejected() {
    for s in [
        "../x",
        "..\\x",
        "x/..",
        "x\\..",
        "a/../b",
        "a\\..\\b",
        "..",
        "report..final.txt",
    ] {
        assert!(!is_safe_path(s), "{:?} accepted", s);
        assert!(validate_path(s).is_err());
        assert!(sanitize_directory_file_path(s).is_err());
    }
}

#[test]
fn test_control_characters_newline_tab_allowed() {
    // Newline and tab are the two permitted control characters.
    assert!(is_safe_path("file\tname"));
    assert!(is_safe_path("file\nname"));
    assert!(!is_safe_path("file\rname"));
    assert!(!is_safe_path("file\x1bname"));
    assert!(!is_safe_path("file\x7fname"));
}
