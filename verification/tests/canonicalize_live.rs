use proc_canonicalize::canonicalize;
use proc_canonicalize::errors::PathError;

#[test]
fn proc_self_cwd_preserved() {
    let path = "/proc/self/cwd";

    let result = canonicalize(path).unwrap();

    assert_eq!(result, "/proc/self/cwd");
}

#[test]
fn proc_self_root_resolves_to_itself() {
    // The boundary itself must resolve to itself, never to the host
    // root that its target reports.
    let result = canonicalize("/proc/self/root").unwrap();

    assert_ne!(result, "/");
    assert_eq!(result, "/proc/self/root");
}

#[test]
fn subpath_through_namespace_preserves_prefix() {
    let path = "/proc/self/root/etc";

    let result = canonicalize(path).unwrap();

    assert!(result.starts_with("/proc/self/root"));
    assert!(result.ends_with("etc"));
}

#[test]
fn nonexistent_file_returns_not_found() {
    let path = "/proc/self/root/this_file_does_not_exist_12345";

    let result = canonicalize(path);

    assert!(result.is_err());
    assert_eq!(result.unwrap_err(), PathError::NotFound);
}

#[test]
fn nonexistent_pid_returns_not_found() {
    let path = "/proc/4294967295/root"; // PID that doesn't exist

    let result = canonicalize(path);

    assert!(result.is_err());
    assert_eq!(result.unwrap_err(), PathError::NotFound);
}

#[test]
fn empty_path_returns_error() {
    let result = canonicalize("");

    assert!(result.is_err());
}

#[test]
fn dotdot_stays_inside_root_namespace() {
    let path = "/proc/self/root/tmp/../etc";

    let result = canonicalize(path);

    if let Ok(canonical) = result {
        assert!(canonical.starts_with("/proc/self/root"));
    }
}

#[test]
fn dot_is_normalized_out() {
    let path = "/proc/self/root/./etc";

    let result = canonicalize(path);

    if let Ok(canonical) = result {
        assert!(canonical.starts_with("/proc/self/root"));
        assert!(!canonical.contains("/./"));
    }
}

#[test]
fn deep_path_preserves_namespace() {
    let path = "/proc/self/root/usr/share/doc";

    let result = canonicalize(path);

    if let Ok(canonical) = result {
        assert!(canonical.starts_with("/proc/self/root"));
    }
}

#[test]
fn trailing_slash_works() {
    let with_slash = canonicalize("/proc/self/root/");
    let without_slash = canonicalize("/proc/self/root");

    if let (Ok(a), Ok(b)) = (with_slash, without_slash) {
        assert!(a.starts_with("/proc/self/root"));
        assert!(b.starts_with("/proc/self/root"));
    }
}

#[test]
fn thread_self_root_preserved() {
    let path = "/proc/thread-self/root";

    if let Ok(result) = canonicalize(path) {
        assert_eq!(result, "/proc/thread-self/root");
    }
}

#[test]
fn pid_1_subpath_preserves_prefix_when_accessible() {
    let path = "/proc/1/root/etc/hostname";

    match canonicalize(path) {
        Ok(result) => {
            assert!(
                result.starts_with("/proc/1/root"),
                "must preserve /proc/1/root prefix, got: {:?}",
                result
            );
        }
        Err(e) => {
            assert!(matches!(e, PathError::PermissionDenied | PathError::NotFound));
        }
    }
}

#[test]
fn pid_1_cwd_preserves_prefix_when_accessible() {
    let path = "/proc/1/cwd";

    match canonicalize(path) {
        Ok(result) => assert_eq!(result, "/proc/1/cwd"),
        Err(e) => {
            assert!(matches!(e, PathError::PermissionDenied | PathError::NotFound));
        }
    }
}

#[test]
fn excessive_dotdot_cannot_escape_root_namespace() {
    let path = "/proc/self/root/../../../../../../../etc/passwd";

    if let Ok(result) = canonicalize(path) {
        assert!(result.starts_with("/proc/self/root"));
    }
}

#[test]
fn idempotent_canonicalization() {
    let paths = ["/proc/self/root", "/proc/self/root/etc", "/proc/self/cwd"];

    for path in &paths {
        if let Ok(first) = canonicalize(path) {
            if let Ok(second) = canonicalize(first.as_str()) {
                assert_eq!(first, second);
            }
        }
    }
}

#[test]
fn uppercase_proc_not_magic() {
    let result = canonicalize("/PROC/self/root");

    match result {
        Ok(path) => assert!(!path.starts_with("/proc/")),
        Err(e) => assert_eq!(e, PathError::NotFound),
    }
}

#[test]
fn double_slashes_normalized() {
    if let Ok(normal) = canonicalize("/proc/self/root") {
        if let Ok(doubled) = canonicalize("//proc//self//root") {
            assert_eq!(normal, doubled);
        }
    }
}

#[test]
fn relative_proc_path_not_magic() {
    // "proc/self/root" (no leading /) is relative, not magic
    let _ = canonicalize("proc/self/root"); // Just shouldn't panic
}

#[test]
fn pid_zero_syntactically_valid() {
    assert!(proc_canonicalize::boundary::find_namespace_boundary("/proc/0/root").is_some());
    assert!(canonicalize("/proc/0/root").is_err()); // But doesn't exist
}

#[test]
fn test_fd_symlink_to_proc_namespace() {
    // /proc/self/fd is NOT a namespace boundary (it's a directory of
    // file descriptors); it must resolve like any ordinary path.
    let result = canonicalize("/proc/self/fd");

    if let Ok(path) = result {
        assert!(path.contains("/proc/"));
        assert!(path.contains("/fd"));
    }
}

#[test]
fn test_nested_proc_access() {
    // /proc/self/root/proc/self/root: the OUTER namespace prefix must
    // be the one preserved.
    let result = canonicalize("/proc/self/root/proc/self/root");

    if let Ok(path) = result {
        assert!(path.starts_with("/proc/self/root"));
    }
}

#[test]
fn test_root_subpath_preservation() {
    let result = canonicalize("/proc/self/root/etc");
    if let Ok(p) = result {
        assert!(
            p.starts_with("/proc/self/root"),
            "Should preserve /proc/self/root prefix for subpaths, got: {:?}",
            p
        );
    }
}

#[test]
fn test_cwd_with_dotdot_escape() {
    // /proc/self/cwd/.. resolves to the literal absolute parent of the
    // working directory, NOT /proc/self/cwd/...
    let path = "/proc/self/cwd/..";
    let result = canonicalize(path).expect("Should succeed");

    assert!(
        !result.starts_with("/proc/self/cwd"),
        "Should escape cwd namespace"
    );
    assert!(result.starts_with("/"));
}

#[test]
fn test_root_with_dotdot_stays_inside() {
    // /proc/self/root/../etc stays INSIDE the namespace because .. from
    // / is still /
    let result = canonicalize("/proc/self/root/../etc");
    if let Ok(p) = result {
        assert!(
            p.starts_with("/proc/self/root"),
            "/proc/self/root/../etc should stay in namespace, got: {:?}",
            p
        );
    }
}

#[test]
fn test_invariant_prefix_or_absolute() {
    // For any boundary path the result either starts with the same
    // prefix or is an absolute path that does not.
    let test_cases = ["/proc/self/root", "/proc/self/root/etc", "/proc/self/cwd"];

    for input in &test_cases {
        if let Ok(result) = canonicalize(input) {
            let is_prefixed =
                result.starts_with("/proc/self/root") || result.starts_with("/proc/self/cwd");
            let is_escaped_absolute = result.starts_with("/") && !result.starts_with("/proc/self/");

            assert!(
                is_prefixed || is_escaped_absolute,
                "Invariant violated for {}: result {:?} is neither prefixed nor escaped absolute",
                input,
                result
            );
        }
    }
}

#[test]
fn uninvolved_paths_equal_plain_host_resolution() {
    // A path with no boundary marker resolves to exactly what the plain
    // host primitive reports.
    for path in &["/tmp", "/etc", "/etc/.."] {
        let ours = canonicalize(path).unwrap();
        let host = dunce::canonicalize(path)
            .unwrap()
            .into_os_string()
            .into_string()
            .unwrap();
        assert_eq!(ours, host);
    }
}

#[test]
fn host_resolution_normalizes_dotdot() {
    // Would fail if the host wrapper handed its argument back unchanged.
    assert_eq!(canonicalize("/etc/..").unwrap(), "/");
}

#[test]
fn permission_denied_distinguished_when_foreign_root_guarded() {
    // An existing but guarded boundary prefix surfaces access refusal,
    // not absence; an absent one surfaces absence (checked above).
    match canonicalize("/proc/1/root") {
        Ok(p) => assert_eq!(p, "/proc/1/root"),
        Err(e) => assert!(matches!(e, PathError::PermissionDenied | PathError::NotFound)),
    }
}

#[test]
fn cwd_subpath_contained_under_cwd() {
    // When the working directory holds this entry, the rewrite must
    // keep the symbolic prefix over the cwd's real location; when the
    // harness runs from elsewhere, absence is the only acceptable
    // failure.
    match canonicalize("/proc/self/cwd/Cargo.toml") {
        Ok(result) => assert_eq!(result, "/proc/self/cwd/Cargo.toml"),
        Err(e) => assert_eq!(e, PathError::NotFound),
    }
}
