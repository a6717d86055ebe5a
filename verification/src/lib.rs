//! A JSON document type for a key-value store: one value tree per key, read
//! and changed through paths.

use vstd::prelude::*;
use vstd::string::StrSliceExecFns;
use vstd::string::StringExecFns;

pub mod codec;
pub mod commands;
pub mod engine;
pub mod error;
pub mod laws;
pub mod ops;
pub mod path;
pub mod redisjson;
pub mod value;

verus! {

/// A guard on a set command.
#[derive(Debug, PartialEq, Eq, Clone, Copy, Structural)]
pub enum SetOptions {
    /// Set only what does not exist yet.
    NotExists,
    /// Set only what exists already.
    AlreadyExists,
}

/// The path that a client's path text stands for: a text that starts with
/// `$` stands for itself, `.` for `$`, `.x` for `$.x`, and any other `x` for
/// `$.x`.
pub open spec fn compat_path(path: Seq<char>) -> Seq<char> {
    if path.len() > 0 && path[0] == '$' {
        path
    } else if path == seq!['.'] {
        seq!['$']
    } else if path.len() > 0 && path[0] == '.' {
        seq!['$'] + path
    } else {
        seq!['$', '.'] + path
    }
}

/// Rewrites the path of an older client into one that starts with `$`.
pub fn backwards_compat_path(path: String) -> (r: String)
    ensures
        r@ == compat_path(path@),
{
    let len = path.as_str().unicode_len();
    if len > 0 && path.as_str().get_char(0) == '$' {
        path
    } else if len == 1 && path.as_str().get_char(0) == '.' {
        proof {
            reveal_strlit("$");
            assert(path@ =~= seq!['.']);
            assert("$"@ =~= seq!['$']);
        }
        String::from_str("$")
    } else if len > 0 && path.as_str().get_char(0) == '.' {
        proof {
            reveal_strlit("$");
            assert("$"@ =~= seq!['$']);
            assert(path@ != seq!['.']);
        }
        String::from_str("$").concat(path.as_str())
    } else {
        proof {
            reveal_strlit("$.");
            assert("$."@ =~= seq!['$', '.']);
            assert(path@ != seq!['.']);
        }
        String::from_str("$.").concat(path.as_str())
    }
}

} // verus!
