use vstd::prelude::*;

use crate::errors::PathError;
use crate::text::{is_abs_text, parts_of, up_seg};

verus! {

/// Relies on dunce::canonicalize, which on every non-Windows platform —
/// the only platform family with the process-introspection filesystem
/// this library is about — is exactly the standard library's plain
/// resolution primitive: it returns the canonical, absolute form of the
/// path, with all intermediate components normalized and all symbolic
/// links resolved, or fails with the underlying I/O error. The error is
/// carried over kind for kind into the library's taxonomy; of the result
/// nothing more is assumed than what that contract states: it is absolute,
/// no parent reference remains in it, and its text is the canonical form
/// of its own components — single separators, no empty or
/// current-directory segments, no trailing separator but on the root
/// itself.
#[verifier::external_body]
pub(crate) fn host_realpath(path: &str) -> (r: Result<String, PathError>)
    ensures
        r matches Ok(s) ==> is_abs_text(s@),
        r matches Ok(s) ==> forall|k: int|
            0 <= k < parts_of(s@).len() ==> #[trigger] parts_of(s@)[k] != up_seg(),
        r matches Ok(s) ==> s@ == crate::text::join_abs(parts_of(s@)),
{
    match dunce::canonicalize(path) {
        Ok(p) => match p.into_os_string().into_string() {
            Ok(s) => Ok(s),
            Err(_) => Err(PathError::Other),
        },
        Err(e) => Err(match e.kind() {
            std::io::ErrorKind::NotFound => PathError::NotFound,
            std::io::ErrorKind::PermissionDenied => PathError::PermissionDenied,
            // 40 is the POSIX errno for a symlink cycle on this platform
            _ if e.raw_os_error() == Some(40) => PathError::LinkLoop,
            _ => PathError::Other,
        }),
    }
}

} // verus!
