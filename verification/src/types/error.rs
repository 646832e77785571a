use vstd::prelude::*;
use crate::text::{owned, join_text, chars_of};

verus! {

/// Errors of the engine: a system error (a file that cannot be read) with
/// its message and the message of the underlying error, or a runtime error.
#[derive(Debug)]
pub enum EvalAltResult {
    ErrorSystem(String, String),
    ErrorRuntime(String, String),
}

impl EvalAltResult {
    /// Whether a script could catch this error: runtime errors, not system
    /// errors.
    pub fn is_catchable(&self) -> (b: bool)
        ensures
            b == (self is ErrorRuntime),
    {
        match self {
            EvalAltResult::ErrorSystem(..) => false,
            EvalAltResult::ErrorRuntime(..) => true,
        }
    }

    /// A runtime error whose two parts are both the message.
    pub fn from_message(err: &str) -> (e: Self)
        ensures
            e matches EvalAltResult::ErrorRuntime(a, b) && a@ == err@ && b@ == err@,
    {
        EvalAltResult::ErrorRuntime(owned(err), owned(err))
    }
}

/// How an error reads: the message, `: ` and the underlying error; a
/// system error with no message reads as the underlying error alone.
pub open spec fn error_text(e: EvalAltResult) -> Seq<char> {
    match e {
        EvalAltResult::ErrorSystem(s, err) => if s@.len() == 0 { err@ } else { s@ + ": "@ + err@ },
        EvalAltResult::ErrorRuntime(s, err) => s@ + ": "@ + err@,
    }
}

impl EvalAltResult {
    /// The error as it reads; see `error_text`.
    pub fn to_string(&self) -> (t: String)
        ensures
            t@ == error_text(*self),
    {
        match self {
            EvalAltResult::ErrorSystem(s, err) => {
                if chars_of(s.as_str()).len() == 0 {
                    owned(err.as_str())
                } else {
                    let a = join_text(s.as_str(), ": ");
                    join_text(a.as_str(), err.as_str())
                }
            },
            EvalAltResult::ErrorRuntime(s, err) => {
                let a = join_text(s.as_str(), ": ");
                join_text(a.as_str(), err.as_str())
            },
        }
    }
}

} // verus!
