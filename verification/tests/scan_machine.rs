use proc_canonicalize::errors::PathError;
use proc_canonicalize::scan::{scan_begin, scan_feed, ProbeOutcome, ScanStep};

/// Drives a scan, answering each probe from a fixed table of symlinks
/// (`probe path` -> `target text`); everything else is reported as not a
/// symlink. Returns the final step and how many probes were answered.
fn drive(path: &str, budget: u32, links: &[(&str, &str)]) -> (ScanStep, u32) {
    let mut fed: u32 = 0;
    let mut step = scan_begin(path, budget);
    loop {
        match step {
            ScanStep::Probe { state, probe } => {
                let mut answer = ProbeOutcome::NotSymlink;
                for (link, target) in links {
                    if probe == *link {
                        answer = ProbeOutcome::LinkTo { target: target.to_string() };
                    }
                }
                fed += 1;
                assert!(fed < 1000, "scan did not settle within a bounded number of probes");
                step = scan_feed(state, answer);
            }
            other => return (other, fed),
        }
    }
}

#[test]
fn scan_direct_symlink_to_boundary() {
    // An ordinary symlink pointing at a boundary marker is discovered
    // and the boundary path reconstructed.
    let (end, _) = drive("/tmp/link", 40, &[("/tmp/link", "/proc/self/root")]);
    match end {
        ScanStep::Found { path } => assert_eq!(path, "/proc/self/root"),
        _ => panic!("expected the boundary to be found"),
    }
}

#[test]
fn scan_chain_of_symlinks_followed() {
    // A chain of ordinary symlinks, the last of which lands on a
    // boundary, is followed link by link.
    let (end, _) = drive(
        "/tmp/link1",
        40,
        &[("/tmp/link1", "link2"), ("/tmp/link2", "/proc/self/cwd")],
    );
    match end {
        ScanStep::Found { path } => assert_eq!(path, "/proc/self/cwd"),
        _ => panic!("expected the boundary to be found through the chain"),
    }
}

#[test]
fn scan_symlink_with_subpath_keeps_remainder() {
    let (end, _) = drive("/tmp/container/etc/hosts", 40, &[("/tmp/container", "/proc/self/root")]);
    match end {
        ScanStep::Found { path } => assert_eq!(path, "/proc/self/root/etc/hosts"),
        _ => panic!("expected the boundary with the remainder attached"),
    }
}

#[test]
fn scan_relative_target_resolved_against_link_directory() {
    // A relative symlink target is resolved against the symlink's own
    // containing directory, and the substituted prefix is itself
    // scanned for further symlinks.
    let (end, _) = drive(
        "/tmp/sub/link",
        40,
        &[("/tmp/sub/link", "../proc_link/self/root"), ("/tmp/proc_link", "/proc")],
    );
    match end {
        ScanStep::Found { path } => assert_eq!(path, "/proc/self/root"),
        _ => panic!("expected the boundary through the relative chain"),
    }
}

#[test]
fn scan_pop_lands_on_boundary() {
    // Popping a parent reference re-tests the shortened accumulation:
    // stepping out of a subdirectory can land exactly on a boundary,
    // and the unprocessed components are re-attached behind it.
    let (end, _) = drive("/a/../proc/self/root/etc/../x", 40, &[]);
    match end {
        ScanStep::Found { path } => assert_eq!(path, "/proc/self/root/x"),
        _ => panic!("expected the pop to land on the boundary"),
    }
}

#[test]
fn scan_normalized_accumulation_checked_at_end() {
    let (end, _) = drive("/a/../proc/self/cwd", 40, &[]);
    match end {
        ScanStep::Found { path } => assert_eq!(path, "/proc/self/cwd"),
        _ => panic!("expected the final accumulation to match"),
    }
}

#[test]
fn scan_uninvolved_path_not_involved() {
    let (end, _) = drive("/home/user/file.txt", 40, &[]);
    assert!(matches!(end, ScanStep::NotInvolved));
}

#[test]
fn scan_mutual_symlink_cycle_settles_within_budget() {
    // A pair of mutually-referential symlinks never blocks: the budget
    // bounds the number of substitutions and the scan reports no
    // boundary, so the caller falls through to plain resolution, which
    // reports the cycle itself.
    let budget: u32 = 7;
    let (end, fed) = drive("/x", budget, &[("/x", "/y"), ("/y", "/x")]);
    assert!(matches!(end, ScanStep::NotInvolved));
    assert!(fed <= budget + 1, "probes fed: {}", fed);
}

#[test]
fn scan_budget_zero_means_not_involved() {
    let (end, fed) = drive("/tmp/link", 0, &[("/tmp/link", "/proc/self/root")]);
    assert!(matches!(end, ScanStep::NotInvolved));
    assert_eq!(fed, 0);
}

#[test]
fn scan_missing_entries_walk_as_ordinary_segments() {
    let mut step = scan_begin("/no/such/dir", 40);
    loop {
        match step {
            ScanStep::Probe { state, .. } => {
                step = scan_feed(state, ProbeOutcome::Missing);
            }
            other => {
                assert!(matches!(other, ScanStep::NotInvolved));
                return;
            }
        }
    }
}

#[test]
fn scan_probe_failure_aborts_with_that_error() {
    let step = scan_begin("/tmp/guarded/file", 40);
    match step {
        ScanStep::Probe { state, .. } => {
            let end = scan_feed(state, ProbeOutcome::Failed { error: PathError::PermissionDenied });
            match end {
                ScanStep::Aborted { error } => assert_eq!(error, PathError::PermissionDenied),
                _ => panic!("expected the scan to abort"),
            }
        }
        _ => panic!("expected a probe first"),
    }
}

#[test]
fn scan_budget_decreases_only_on_substitution() {
    // Ordinary answers keep the budget; every symlink substitution
    // lowers it by one.
    let mut step = scan_begin("/tmp/a/b", 5);
    let mut seen_budgets: Vec<u32> = Vec::new();
    loop {
        match step {
            ScanStep::Probe { state, probe } => {
                seen_budgets.push(state.budget);
                let answer = if probe == "/tmp/a" {
                    ProbeOutcome::LinkTo { target: "/tmp/c".to_string() }
                } else {
                    ProbeOutcome::NotSymlink
                };
                step = scan_feed(state, answer);
            }
            _ => break,
        }
    }
    assert_eq!(seen_budgets, vec![5, 5, 4, 4, 4]);
}
