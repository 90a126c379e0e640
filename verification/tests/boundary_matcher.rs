use proc_canonicalize::boundary::find_namespace_boundary;

#[test]
fn test_find_namespace_boundary_proc_pid_root() {
    // Standard pattern: /proc/<numeric_pid>/root
    let (prefix, remainder) = find_namespace_boundary("/proc/1234/root/etc/passwd").unwrap();
    assert_eq!(prefix, "/proc/1234/root");
    assert_eq!(remainder, "etc/passwd");
}

#[test]
fn test_find_namespace_boundary_proc_pid_cwd() {
    let (prefix, remainder) = find_namespace_boundary("/proc/5678/cwd/some/file.txt").unwrap();
    assert_eq!(prefix, "/proc/5678/cwd");
    assert_eq!(remainder, "some/file.txt");
}

#[test]
fn test_find_namespace_boundary_proc_self_root() {
    let (prefix, remainder) = find_namespace_boundary("/proc/self/root/etc/passwd").unwrap();
    assert_eq!(prefix, "/proc/self/root");
    assert_eq!(remainder, "etc/passwd");
}

#[test]
fn test_find_namespace_boundary_proc_thread_self_root() {
    let (prefix, remainder) =
        find_namespace_boundary("/proc/thread-self/root/app/config").unwrap();
    assert_eq!(prefix, "/proc/thread-self/root");
    assert_eq!(remainder, "app/config");
}

#[test]
fn test_find_namespace_boundary_just_prefix_no_remainder() {
    let (prefix, remainder) = find_namespace_boundary("/proc/1234/root").unwrap();
    assert_eq!(prefix, "/proc/1234/root");
    assert_eq!(remainder, "");
}

#[test]
fn test_find_namespace_boundary_normal_path_returns_none() {
    assert!(find_namespace_boundary("/home/user/file.txt").is_none());
}

#[test]
fn test_find_namespace_boundary_proc_other_files_not_namespace() {
    // Only "root" and "cwd" are magic symlinks that cross namespace
    // boundaries; status, exe and fd are not.
    assert!(find_namespace_boundary("/proc/1234/status").is_none());
    assert!(find_namespace_boundary("/proc/1234/exe").is_none());
    assert!(find_namespace_boundary("/proc/1234/fd/0").is_none());
}

#[test]
fn test_find_namespace_boundary_relative_path_rejected() {
    // Only absolute paths can be namespace boundaries.
    assert!(find_namespace_boundary("proc/1234/root").is_none());
}

#[test]
fn test_find_namespace_boundary_invalid_pid_rejected() {
    assert!(find_namespace_boundary("/proc/abc/root").is_none());
    assert!(find_namespace_boundary("/proc/123abc/root").is_none());
    assert!(find_namespace_boundary("/proc//root").is_none());
}

#[test]
fn boundary_detection_handles_trailing_slash() {
    let (prefix, _remainder) = find_namespace_boundary("/proc/1234/root/").unwrap();
    assert_eq!(prefix, "/proc/1234/root");
}

#[test]
fn boundary_detection_handles_dot_components() {
    let (prefix, _remainder) = find_namespace_boundary("/proc/1234/root/./etc/../etc").unwrap();
    assert_eq!(prefix, "/proc/1234/root");
}

#[test]
fn missing_pid_not_namespace() {
    let result = find_namespace_boundary("/proc/root");
    assert!(result.is_none());
}

#[test]
fn invalid_special_names_not_namespace() {
    for name in &["parent", "init", "current", "me"] {
        let path = format!("/proc/{}/root", name);
        assert!(find_namespace_boundary(path.as_str()).is_none());
    }
}

#[test]
fn long_numeric_pid_accepted() {
    let long_pid = "9".repeat(100);
    let path = format!("/proc/{}/root", long_pid);
    assert!(find_namespace_boundary(path.as_str()).is_some());
}

#[test]
fn negative_pid_not_valid() {
    assert!(find_namespace_boundary("/proc/-1/root").is_none());
}

#[test]
fn leading_zeros_in_pid_accepted() {
    assert!(find_namespace_boundary("/proc/0001234/root").is_some());
}

#[test]
fn task_form_matched_with_thread_token() {
    let (prefix, remainder) = find_namespace_boundary("/proc/42/task/43/root/srv").unwrap();
    assert_eq!(prefix, "/proc/42/task/43/root");
    assert_eq!(remainder, "srv");
}

#[test]
fn task_form_requires_digit_thread_token() {
    assert!(find_namespace_boundary("/proc/42/task/self/root").is_none());
    assert!(find_namespace_boundary("/proc/42/task/root").is_none());
    assert!(find_namespace_boundary("/proc/42/task/43/exe").is_none());
}

#[test]
fn dot_components_are_dropped_before_matching() {
    let (prefix, remainder) = find_namespace_boundary("/proc/./self/./root/x").unwrap();
    assert_eq!(prefix, "/proc/self/root");
    assert_eq!(remainder, "x");
}

#[test]
fn parent_reference_in_prefix_defeats_match() {
    assert!(find_namespace_boundary("/proc/../self/root").is_none());
    assert!(find_namespace_boundary("/../proc/self/root").is_none());
}
