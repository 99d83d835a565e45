//! Comparing recorded directories with a filter directory.

use vstd::prelude::*;
use crate::catalog::SessionError;

verus! {

/// Relies on `std::path::Path::canonicalize`: the absolute form of a path that
/// exists, with links resolved; `None` where that fails. The result depends on
/// the file system, so nothing more is stated.
#[verifier::external_body]
fn canonical_form(p: &str) -> (r: Option<String>)
{
    std::path::Path::new(p).canonicalize().ok().map(|c| c.to_string_lossy().into_owned())
}

/// Whether two paths name the same directory, given their canonical forms:
/// the forms are compared where both exist, the texts otherwise.
pub fn same_path(a: &str, b: &str, ca: &Option<String>, cb: &Option<String>) -> (r: bool)
    ensures
        r == match (ca, cb) {
            (Some(x), Some(y)) => x@ == y@,
            _ => a@ == b@,
        },
{
    match (ca, cb) {
        (Some(x), Some(y)) => crate::text::same_text(x.as_str(), y.as_str()),
        _ => crate::text::same_text(a, b),
    }
}

/// Whether two paths name the same directory: their canonical forms are
/// compared where both can be had, the texts otherwise.
pub fn paths_match(a: &str, b: &str) -> (r: bool) {
    let ca = canonical_form(a);
    let cb = canonical_form(b);
    same_path(a, b, &ca, &cb)
}


/// The canonical form of a path that must exist; the error names the path.
pub fn canonicalize_existing(path: &str) -> (r: Result<String, SessionError>)
    ensures
        r matches Err(SessionError::Io(m)) ==> m@ == quoted_missing(path@),
        r is Err ==> r matches Err(SessionError::Io(_)),
{
    match canonical_form(path) {
        Some(c) => Ok(c),
        None => {
            let mut m = String::from_str("\"");
            m.append(path);
            m.append("\" does not exist");
            proof {
                assert(m@ == quoted_missing(path@));
            }
            Err(SessionError::Io(m))
        },
    }
}

/// The message for a path that does not exist.
pub open spec fn quoted_missing(p: Seq<char>) -> Seq<char> {
    "\""@ + p + "\" does not exist"@
}

} // verus!
