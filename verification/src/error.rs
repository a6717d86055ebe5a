//! The failures that an operation can report.

use vstd::prelude::*;
use vstd::string::StringExecFns;

verus! {

/// What went wrong.
#[derive(Clone, Copy, Debug, PartialEq, Eq, Structural)]
pub enum ErrorKind {
    /// The payload is malformed.
    Parse,
    /// The path is malformed, or matches nothing where a match is needed.
    Path,
    /// The value at the path has the wrong type.
    TypeMismatch,
    /// An index lies outside the array.
    Range,
    /// A number came out that is not finite.
    Arithmetic,
    /// The key holds no document.
    Key,
    /// Several matches of one path failed.
    Compound,
}

/// A failure: its kind and the text that is sent to the client.
#[derive(Debug)]
pub struct Error {
    pub kind: ErrorKind,
    pub msg: String,
}

/// What an `Error` stands for.
pub ghost struct Failure {
    pub kind: ErrorKind,
    pub msg: Seq<char>,
}

impl View for Error {
    type V = Failure;

    open spec fn view(&self) -> Failure {
        Failure { kind: self.kind, msg: self.msg@ }
    }
}

impl Error {
    /// A failure of the given kind with the given text.
    pub fn new(kind: ErrorKind, msg: &str) -> (e: Error)
        ensures
            e.kind == kind,
            e.msg@ == msg@,
    {
        Error { kind, msg: String::from_str(msg) }
    }

    /// The text of the failure.
    pub fn to_string(&self) -> (s: String)
        ensures
            s@ == self.msg@,
    {
        self.msg.clone()
    }
}

impl Clone for Error {
    fn clone(&self) -> (e: Self)
        ensures
            e.kind == self.kind,
            e.msg@ == self.msg@,
    {
        Error { kind: self.kind, msg: self.msg.clone() }
    }
}

/// The text of a type mismatch.
pub open spec fn mismatch_text(expected: Seq<char>, found: Seq<char>) -> Seq<char> {
    "ERR wrong type of path value - expected "@ + expected + " but found "@ + found
}

/// The failure for a value of type `found` where `expected` is needed.
pub open spec fn mismatch(expected: Seq<char>, found: Seq<char>) -> Failure {
    Failure { kind: ErrorKind::TypeMismatch, msg: mismatch_text(expected, found) }
}

/// The failure for an index outside the array.
pub open spec fn out_of_bounds() -> Failure {
    Failure { kind: ErrorKind::Range, msg: "ERR index out of bounds"@ }
}

/// The failure for a number that is not finite.
pub open spec fn not_finite() -> Failure {
    Failure { kind: ErrorKind::Arithmetic, msg: "ERR cannot represent result as Number"@ }
}

/// The failure for a path that matches nothing.
pub open spec fn no_match() -> Failure {
    Failure { kind: ErrorKind::Path, msg: "ERR path does not exist"@ }
}

/// The failure reported where a value of one type stands in place of another.
pub fn type_mismatch(expected: &str, found: &str) -> (e: Error)
    ensures
        e@ == mismatch(expected@, found@),
{
    let msg = String::from_str("ERR wrong type of path value - expected ").concat(expected).concat(
        " but found ",
    ).concat(found);
    Error { kind: ErrorKind::TypeMismatch, msg }
}

} // verus!
