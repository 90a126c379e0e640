use vstd::prelude::*;

verus! {

/// The failure taxonomy of a resolution: the target or a boundary prefix is
/// absent, access to it is refused, the host detected an unbounded symlink
/// cycle, or some other I/O failure occurred. Every failure of an underlying
/// probe is surfaced to the caller under one of these kinds; nothing is
/// retried or swallowed.
#[derive(Clone, Copy, Debug, PartialEq, Eq, Structural)]
pub enum PathError {
    /// The target or the boundary prefix does not exist.
    NotFound,
    /// Access to the target or the boundary prefix was refused.
    PermissionDenied,
    /// The host reported a symlink cycle while resolving.
    LinkLoop,
    /// Any other I/O failure, passed through unclassified.
    Other,
}

} // verus!
