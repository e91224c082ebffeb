//! Resource-path resolution for mesh references.
//!
//! A description may reference a mesh by a package-relative URI or by a
//! plain path. Resolving the reference against a base directory is pure
//! string work and is decided here; opening the file is the caller's
//! business.

use vstd::prelude::*;
use vstd::string::StrSliceExecFns;
use vstd::string::StringExecFns;

verus! {

/// The view of an optional base directory.
pub open spec fn spec_base_view(base_dir: Option<String>) -> Option<Seq<char>> {
    match base_dir {
        Some(b) => Some(b@),
        None => None,
    }
}

/// The resolved path: a `package://` prefix is stripped; otherwise the
/// base directory, when given, is joined in front with a slash; otherwise
/// the name is kept as it is.
pub open spec fn spec_resolved_path(filename: Seq<char>, base_dir: Option<Seq<char>>) -> Seq<
    char,
> {
    if filename.len() >= 10 && filename.subrange(0, 10) == "package://"@ {
        filename.subrange(10, filename.len() as int)
    } else {
        match base_dir {
            Some(b) => b + "/"@ + filename,
            None => filename,
        }
    }
}

/// Whether the name starts with the `package://` prefix.
fn has_package_prefix(filename: &str) -> (r: bool)
    ensures
        r == (filename@.len() >= 10 && filename@.subrange(0, 10) == "package://"@),
{
    let prefix = "package://";
    proof {
        reveal_strlit("package://");
    }
    let n = filename.unicode_len();
    if n < 10 {
        return false;
    }
    let mut i: usize = 0;
    while i < 10
        invariant
            i <= 10,
            n == filename@.len(),
            n >= 10,
            prefix@ == "package://"@,
            prefix@.len() == 10,
            forall|t: int| 0 <= t < i ==> filename@[t] == prefix@[t],
        decreases 10 - i,
    {
        if filename.get_char(i) != prefix.get_char(i) {
            proof {
                assert(filename@.subrange(0, 10)[i as int] != "package://"@[i as int]);
            }
            return false;
        }
        i += 1;
    }
    proof {
        assert(filename@.subrange(0, 10) =~= "package://"@);
    }
    true
}

/// Resolves a mesh reference: strips a `package://` prefix when present,
/// else joins the base directory in front when one is given, else returns
/// the name unchanged.
pub fn replace_package_with_base_dir(filename: &str, base_dir: &Option<String>) -> (r: String)
    ensures
        r@ == spec_resolved_path(filename@, spec_base_view(*base_dir)),
{
    if has_package_prefix(filename) {
        let n = filename.unicode_len();
        let rest = filename.substring_char(10, n);
        rest.to_owned()
    } else {
        match base_dir {
            Some(b) => {
                let mut out = b.clone();
                out.append("/");
                out.append(filename);
                out
            },
            None => filename.to_owned(),
        }
    }
}

} // verus!
