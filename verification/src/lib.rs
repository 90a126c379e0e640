//! Boundary-preserving path canonicalization.
//!
//! The host's plain resolution collapses a process-filesystem boundary entry
//! such as the root view of a process to the host's own root, discarding the
//! namespace the entry was meant to denote. This library resolves paths to
//! their canonical absolute form while keeping such boundary prefixes intact
//! for paths that stay inside the boundary, and dropping them for paths that
//! provably escape it.

use vstd::prelude::*;

pub mod boundary;
pub mod errors;
mod host;
pub mod resolve;
pub mod scan;
pub mod text;

verus! {

/// Canonicalizes a path while preserving namespace boundaries.
///
/// A path that lexically crosses a boundary is handed to the
/// namespace-aware resolver: the boundary itself resolves to itself, a
/// path through the boundary keeps the symbolic prefix while it stays
/// inside, and loses it exactly when it escapes. Every other path is
/// handed to the host's plain resolution unchanged. Symlinks elsewhere
/// on the filesystem that lead into a boundary only indirectly are found
/// by the scan walk in `scan`, which a host-side driver runs; this entry
/// point itself performs no symlink probing beyond what the host's
/// resolution does.
///
/// The result, when any, is an absolute path. Failures surface as the
/// four error kinds, with an absent boundary prefix and an inaccessible
/// one told apart.
pub fn canonicalize(path: &str) -> (r: Result<String, errors::PathError>)
    ensures
        r matches Ok(p) ==> text::is_abs_text(p@),
        r matches Ok(p) ==> p@ == text::join_abs(text::parts_of(p@)),
        boundary::boundary_text_match(path@) && text::parts_of(path@).len()
            == boundary::boundary_prefix_len(text::parts_of(path@)) ==> (r matches Ok(p) ==> p@
            == text::join_abs(text::parts_of(path@))),
{
    let (absolute, parts) = text::parse_path(path);
    match boundary::match_boundary_parts(absolute, &parts) {
        Some(k) => {
            let prefix_vec = text::clone_range(&parts, 0, k);
            let rem_vec = text::clone_range(&parts, k, parts.len());
            proof {
                text::lemma_parts_of_valid(path@);
                assert forall|j: int| 0 <= j < prefix_vec.deep_view().len() implies
                    text::valid_part(#[trigger] prefix_vec.deep_view()[j]) by {
                    assert(prefix_vec.deep_view()[j] == parts.deep_view()[j]);
                }
                if parts.deep_view().len() == k {
                    assert(prefix_vec.deep_view() =~= parts.deep_view());
                }
            }
            resolve::resolve_boundary(&prefix_vec, &rem_vec)
        },
        None => host::host_realpath(path),
    }
}

} // verus!
