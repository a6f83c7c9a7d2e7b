//! Confinement of requested paths to a workspace root.
//!
//! Resolving symbolic links and `..` needs the file system; the caller
//! canonicalizes and hands the canonical forms in. What is decided here is
//! where the request points before resolution and whether the resolved path
//! stays under the root.

use vstd::prelude::*;
use crate::path::{join_path, path_starts_with, starts_with, trim_leading_slashes, trim_slashes_start};
use crate::text::push_char;

verus! {

/// The path that a request names under `root`, before resolution: leading
/// slashes of the request are dropped, so it never replaces the root.
pub open spec fn request_target_spec(root: Seq<char>, requested: Seq<char>) -> Seq<char> {
    join_path(root, trim_leading_slashes(requested))
}

/// The path to canonicalize for `requested` under `root`.
pub fn request_target(root: &str, requested: &str) -> (r: String)
    ensures
        r@ == request_target_spec(root@, requested@),
{
    let rel = trim_slashes_start(requested);
    let mut out = String::from_str(root);
    let n = root.unicode_len();
    if n > 0 && root.get_char(n - 1) != '/' {
        push_char(&mut out, '/');
    }
    out.append(rel.as_str());
    proof {
        if root@.len() == 0 || root@.last() == '/' {
            assert(out@ =~= root@ + rel@);
        } else {
            assert(out@ =~= root@ + seq!['/'] + rel@);
        }
    }
    out
}

/// Accepts `canonical`, the resolved form of a request, only when it lies at
/// or below `root_canonical`, the root's canonical form taken at the same
/// moment. A path that could not be resolved never gets here: the
/// caller rejects it as not found.
pub fn validate_path(root_canonical: &str, canonical: &str) -> (r: Option<String>)
    ensures
        r.is_some() <==> starts_with(canonical@, root_canonical@),
        r.is_some() ==> r.unwrap()@ == canonical@,
{
    if path_starts_with(canonical, root_canonical) {
        Some(String::from_str(canonical))
    } else {
        None
    }
}

} // verus!
