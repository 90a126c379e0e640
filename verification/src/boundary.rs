use vstd::prelude::*;

use crate::text::{
    clone_range, is_abs_text, join_abs, join_rel, join_abs_parts, join_rel_parts, parse_path,
    parts_of, seg_eq,
};

verus! {

// The lexical boundary matcher. A boundary prefix has the fixed shape
// root / "proc" / process-token / ["task" / thread-token] / boundary-kind,
// where the process-token is a non-empty all-digit string or one of the
// two reserved literals for the calling process and the calling thread,
// and the boundary-kind names the root view or the working-directory
// view. Matching is purely syntactic; it carries no guarantee that the
// boundary exists or is accessible, and it never performs I/O.

/// An ASCII digit.
pub open spec fn is_digit_char(c: char) -> bool {
    48 <= c as u32 <= 57
}

/// A non-empty all-digit token; arbitrary length, leading zeros allowed.
pub open spec fn is_digit_seq(s: Seq<char>) -> bool {
    s.len() > 0 && (forall|i: int| 0 <= i < s.len() ==> is_digit_char(s[i]))
}

/// A process token: all digits, or a reserved literal for the calling
/// process or the calling thread.
pub open spec fn is_pid_token(s: Seq<char>) -> bool {
    s == "self"@ || s == "thread-self"@ || is_digit_seq(s)
}

/// A boundary-kind component: the root view or the working-directory view.
pub open spec fn is_kind_seg(s: Seq<char>) -> bool {
    s == "root"@ || s == "cwd"@
}

/// The direct form: proc / process-token / kind, then the remainder.
pub open spec fn matches_direct(parts: Seq<Seq<char>>) -> bool {
    parts.len() >= 3 && parts[0] == "proc"@ && is_pid_token(parts[1]) && is_kind_seg(parts[2])
}

/// The task form: proc / process-token / task / thread-token / kind,
/// then the remainder. The thread token is all digits, with no reserved
/// literals.
pub open spec fn matches_task(parts: Seq<Seq<char>>) -> bool {
    parts.len() >= 5 && parts[0] == "proc"@ && is_pid_token(parts[1]) && parts[2] == "task"@
        && is_digit_seq(parts[3]) && is_kind_seg(parts[4])
}

/// Whether an absolute path with these components crosses a namespace
/// boundary; relative paths never match.
pub open spec fn boundary_parts_match(absolute: bool, parts: Seq<Seq<char>>) -> bool {
    absolute && (matches_direct(parts) || matches_task(parts))
}

/// How many leading components form the boundary prefix of a match.
pub open spec fn boundary_prefix_len(parts: Seq<Seq<char>>) -> int {
    if matches_direct(parts) {
        3
    } else {
        5
    }
}

/// Whether a path text crosses a namespace boundary.
pub open spec fn boundary_text_match(s: Seq<char>) -> bool {
    boundary_parts_match(is_abs_text(s), parts_of(s))
}

fn seg_is_digits(seg: &String) -> (r: bool)
    ensures
        r == is_digit_seq(seg@),
{
    let s = seg.as_str();
    let n = s.unicode_len();
    if n == 0 {
        return false;
    }
    let mut i: usize = 0;
    while i < n
        invariant
            i <= n,
            n == seg@.len(),
            s@ == seg@,
            forall|j: int| 0 <= j < i ==> is_digit_char(seg@[j]),
        decreases n - i,
    {
        let c = s.get_char(i);
        let u = c as u32;
        if u < 48 || u > 57 {
            return false;
        }
        i += 1;
    }
    true
}

fn seg_is_pid_token(seg: &String) -> (r: bool)
    ensures
        r == is_pid_token(seg@),
{
    if seg_eq(seg, "self") {
        return true;
    }
    if seg_eq(seg, "thread-self") {
        return true;
    }
    seg_is_digits(seg)
}

fn seg_is_kind(seg: &String) -> (r: bool)
    ensures
        r == is_kind_seg(seg@),
{
    if seg_eq(seg, "root") {
        return true;
    }
    seg_eq(seg, "cwd")
}

/// Matches the boundary pattern against parsed components, positionally
/// and short-circuiting on the first mismatch. On a match, returns how
/// many leading components form the boundary prefix.
pub fn match_boundary_parts(absolute: bool, parts: &Vec<String>) -> (r: Option<usize>)
    ensures
        r is Some <==> boundary_parts_match(absolute, parts.deep_view()),
        r matches Some(k) ==> k == boundary_prefix_len(parts.deep_view())
            && k <= parts.deep_view().len(),
{
    if !absolute {
        return None;
    }
    if parts.len() < 3 {
        return None;
    }
    if !seg_eq(&parts[0], "proc") {
        return None;
    }
    if !seg_is_pid_token(&parts[1]) {
        return None;
    }
    if seg_is_kind(&parts[2]) {
        return Some(3);
    }
    if !seg_eq(&parts[2], "task") {
        return None;
    }
    if parts.len() < 5 {
        return None;
    }
    if !seg_is_digits(&parts[3]) {
        return None;
    }
    if !seg_is_kind(&parts[4]) {
        return None;
    }
    Some(5)
}

/// Finds a namespace boundary in a path, lexically. On a match, returns
/// the boundary prefix as an absolute path and the remainder as a
/// relative path, which is empty when the path is the boundary itself.
pub fn find_namespace_boundary(path: &str) -> (r: Option<(String, String)>)
    ensures
        r is Some <==> boundary_text_match(path@),
        r matches Some(pr) ==> pr.0@ == join_abs(
            parts_of(path@).take(boundary_prefix_len(parts_of(path@))),
        ) && pr.1@ == join_rel(parts_of(path@).skip(boundary_prefix_len(parts_of(path@)))),
{
    let (absolute, parts) = parse_path(path);
    match match_boundary_parts(absolute, &parts) {
        None => None,
        Some(k) => {
            let prefix_vec = clone_range(&parts, 0, k);
            let rem_vec = clone_range(&parts, k, parts.len());
            proof {
                assert(prefix_vec.deep_view() =~= parts.deep_view().take(k as int));
                assert(rem_vec.deep_view() =~= parts.deep_view().skip(k as int));
            }
            Some((join_abs_parts(&prefix_vec), join_rel_parts(&rem_vec)))
        },
    }
}

/// Whether the path is itself a boundary path: a namespace boundary
/// prefix, possibly followed by further components.
pub fn is_proc_magic_path(path: &str) -> (r: bool)
    ensures
        r == boundary_text_match(path@),
{
    let (absolute, parts) = parse_path(path);
    match_boundary_parts(absolute, &parts).is_some()
}

/// A boundary match depends only on the leading components: whatever
/// follows them, the match and its prefix length stay.
pub proof fn lemma_boundary_extend(parts: Seq<Seq<char>>, suffix: Seq<Seq<char>>)
    requires
        boundary_parts_match(true, parts),
    ensures
        boundary_parts_match(true, parts + suffix),
        boundary_prefix_len(parts + suffix) == boundary_prefix_len(parts),
{
    let w = parts + suffix;
    assert(w[0] == parts[0]);
    assert(w[1] == parts[1]);
    assert(w[2] == parts[2]);
    if matches_task(parts) {
        assert(w[3] == parts[3]);
        assert(w[4] == parts[4]);
    }
}

/// Idempotence at the boundary itself, lexically: the value that a
/// boundary path with no remainder resolves to — the joined text of its
/// own components — is again a boundary path with no remainder and the
/// same components. Together with the resolution contract, which pins
/// the result for such paths to exactly that joined text, a second
/// successful resolution of the result returns it unchanged.
pub proof fn lemma_boundary_identity_idempotent(path: Seq<char>)
    requires
        boundary_text_match(path),
        parts_of(path).len() == boundary_prefix_len(parts_of(path)),
    ensures
        boundary_text_match(join_abs(parts_of(path))),
        parts_of(join_abs(parts_of(path))) == parts_of(path),
        boundary_prefix_len(parts_of(join_abs(parts_of(path)))) == boundary_prefix_len(
            parts_of(path),
        ),
{
    crate::text::lemma_parts_of_valid(path);
    crate::text::lemma_parts_of_join_abs(parts_of(path));
}

} // verus!
