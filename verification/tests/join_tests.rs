use path_utils::{safe_repository_join, PathError};

// The library's join takes the repository root as an already-resolved
// absolute path string and never touches the filesystem, so a fixed root
// stands in for the original temporary directory.

#[test]
fn test_safe_repository_join() {
    let workdir = "/tmp/repo";

    // Test normal case - absolute path from directory content
    let result = safe_repository_join(workdir, "testing/framework", "/args.js").unwrap();
    assert_eq!(result, "/tmp/repo/testing/framework/args.js");
    assert!(result.ends_with("testing/framework/args.js"));

    // Test already relative path
    let result = safe_repository_join(workdir, "testing/framework", "lib/generator.js").unwrap();
    assert_eq!(result, "/tmp/repo/testing/framework/lib/generator.js");

    // Test nested directory structure
    let result = safe_repository_join(workdir, "tools/build", "config/webpack.js").unwrap();
    assert_eq!(result, "/tmp/repo/tools/build/config/webpack.js");
}

#[test]
fn test_safe_repository_join_security() {
    let workdir = "/tmp/repo";

    // Test path traversal rejection
    assert!(safe_repository_join(workdir, "test", "../../../etc/passwd").is_err());
    assert!(safe_repository_join(workdir, "test", "..\\..\\windows\\system32").is_err());

    // Test invalid characters rejection
    assert!(safe_repository_join(workdir, "test", "file<script>").is_err());
    assert!(safe_repository_join(workdir, "test", "file|pipe").is_err());

    // Test empty path rejection
    assert!(safe_repository_join(workdir, "test", "").is_err());
    assert!(safe_repository_join(workdir, "test", "   ").is_err());
}

#[test]
fn test_cli_bug_reproduction() {
    // The bug: directory content holds "/args.js" (an absolute path); the
    // join must sanitize it to "args.js" and keep it inside the root.
    let workdir = "/tmp/repo";

    let result = safe_repository_join(workdir, "testing/test-framework", "/args.js").unwrap();
    assert_eq!(result, "/tmp/repo/testing/test-framework/args.js");

    // Verify the result is within the repository (not root filesystem)
    assert!(result.starts_with(workdir));

    // Most importantly: verify the result is NOT attempting to write to root filesystem
    assert!(
        !result.starts_with("/args.js"),
        "Should not write to root filesystem!"
    );
    assert!(result.contains("args.js"), "Should contain the filename");
}

#[test]
fn test_join_rejects_traversal_in_target() {
    let workdir = "/tmp/repo";
    // The untrusted file path is clean, but the target tries to climb out.
    let result = safe_repository_join(workdir, "..", "file.txt");
    assert!(matches!(result, Err(PathError::PathTraversal { .. })));
    let result = safe_repository_join(workdir, "a/../../b", "file.txt");
    assert!(matches!(result, Err(PathError::PathTraversal { .. })));
}

#[test]
fn test_join_edge_shapes() {
    // An empty target joins directly under the root.
    let result = safe_repository_join("/tmp/repo", "", "file.txt").unwrap();
    assert_eq!(result, "/tmp/repo/file.txt");
    // A root that already ends in a separator is not doubled.
    let result = safe_repository_join("/tmp/repo/", "sub", "file.txt").unwrap();
    assert_eq!(result, "/tmp/repo/sub/file.txt");
    // The target is normalized before joining.
    let result = safe_repository_join("/tmp/repo", "a\\b//c", "file.txt").unwrap();
    assert_eq!(result, "/tmp/repo/a/b/c/file.txt");
}
