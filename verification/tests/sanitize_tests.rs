use path_utils::{sanitize_directory_file_path, PathError};

#[test]
fn test_sanitize_directory_file_path() {
    // Test absolute path conversion - this is the core bug fix
    assert_eq!(sanitize_directory_file_path("/args.js").unwrap(), "args.js");
    assert_eq!(
        sanitize_directory_file_path("/lib/generator.js").unwrap(),
        "lib/generator.js"
    );
    assert_eq!(
        sanitize_directory_file_path("/config/args.js").unwrap(),
        "config/args.js"
    );

    // Test already relative paths (should be unchanged)
    assert_eq!(sanitize_directory_file_path("args.js").unwrap(), "args.js");
    assert_eq!(
        sanitize_directory_file_path("lib/generator.js").unwrap(),
        "lib/generator.js"
    );

    // Test path normalization
    assert_eq!(
        sanitize_directory_file_path("lib//generator.js").unwrap(),
        "lib/generator.js"
    );
    assert_eq!(
        sanitize_directory_file_path("lib\\generator.js").unwrap(),
        "lib/generator.js"
    );

    // Test empty path rejection
    assert!(sanitize_directory_file_path("").is_err());
    assert!(sanitize_directory_file_path("   ").is_err());

    // Test path traversal rejection
    assert!(sanitize_directory_file_path("../etc/passwd").is_err());
    assert!(sanitize_directory_file_path("lib/../../../etc/passwd").is_err());
    assert!(sanitize_directory_file_path("..\\windows\\system32").is_err());
}

#[test]
fn test_sanitize_directory_file_path_security() {
    // Test invalid characters
    assert!(sanitize_directory_file_path("file<script>").is_err());
    assert!(sanitize_directory_file_path("file|pipe").is_err());
    assert!(sanitize_directory_file_path("file?query").is_err());
    assert!(sanitize_directory_file_path("file*glob").is_err());
    assert!(sanitize_directory_file_path("file\"quote").is_err());

    // Test null bytes and control characters
    assert!(sanitize_directory_file_path("file\0null").is_err());
    assert!(sanitize_directory_file_path("file\x01control").is_err());

    // Test Windows reserved names
    assert!(sanitize_directory_file_path("CON").is_err());
    assert!(sanitize_directory_file_path("PRN.txt").is_err());
    assert!(sanitize_directory_file_path("lib/AUX.js").is_err());
    assert!(sanitize_directory_file_path("COM1.exe").is_err());
    assert!(sanitize_directory_file_path("LPT9.log").is_err());

    // Test case-insensitive reserved names
    assert!(sanitize_directory_file_path("con").is_err());
    assert!(sanitize_directory_file_path("Con.txt").is_err());
    assert!(sanitize_directory_file_path("lib/aux.js").is_err());
}

#[test]
fn test_sanitize_directory_file_path_windows() {
    // Test Windows drive letter rejection
    assert!(sanitize_directory_file_path("C:\\Windows\\System32").is_err());
    assert!(sanitize_directory_file_path("D:/data/file.txt").is_err());
    assert!(sanitize_directory_file_path("c:\\file.txt").is_err());
}

#[test]
fn test_sanitize_error_variants() {
    assert!(matches!(
        sanitize_directory_file_path(""),
        Err(PathError::EmptyPath)
    ));
    assert!(matches!(
        sanitize_directory_file_path("lib/../../../etc/passwd"),
        Err(PathError::PathTraversal { .. })
    ));
    assert!(matches!(
        sanitize_directory_file_path("C:/data"),
        Err(PathError::DriveLetterPath { .. })
    ));
    assert!(matches!(
        sanitize_directory_file_path("file\x02ctl"),
        Err(PathError::InvalidCharacters { .. })
    ));
    assert!(matches!(
        sanitize_directory_file_path("file>out"),
        Err(PathError::InvalidCharacters { .. })
    ));
    assert!(matches!(
        sanitize_directory_file_path("CON"),
        Err(PathError::ReservedFilename { .. })
    ));
    match sanitize_directory_file_path("lib/NUL.dat") {
        Err(PathError::ReservedFilename { filename, path }) => {
            assert_eq!(filename, "NUL.dat");
            assert_eq!(path, "lib/NUL.dat");
        }
        other => panic!("expected a reserved-filename error, got {:?}", other),
    }
}

#[test]
fn test_sanitize_reserved_only_after_stripping() {
    // The reserved name only becomes a leading component once the
    // absolute marker is stripped by normalization.
    assert!(matches!(
        sanitize_directory_file_path("/CON"),
        Err(PathError::ReservedFilename { .. })
    ));
    // A name that merely starts with a reserved word is fine.
    assert_eq!(
        sanitize_directory_file_path("CONSOLE.txt").unwrap(),
        "CONSOLE.txt"
    );
    assert_eq!(sanitize_directory_file_path("COM0").unwrap(), "COM0");
    assert_eq!(sanitize_directory_file_path("lpt10.txt").unwrap(), "lpt10.txt");
}
