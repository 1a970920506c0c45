//! Errors that the library reports.
use vstd::prelude::*;
use crate::text::{append_str, string_of};

verus! {

/// Why a module could not be translated.
#[derive(Debug)]
pub enum RcppError {
    /// One of the fixed rewrite patterns of the syntax translation was
    /// rejected by the pattern engine.
    RewriteRejected,
    /// An `extern mod` declaration names no path, neither inline nor on the
    /// command line.
    ExternWithoutPath { name: String },
}

/// The message that reports an error.
pub open spec fn error_message(e: RcppError) -> Seq<char> {
    match e {
        RcppError::RewriteRejected => "a syntax rewrite pattern was rejected"@,
        RcppError::ExternWithoutPath { name } => "Extern module '"@ + name@
            + "' has no path. Provide via inline \"path\" or CLI -e "@ + name@ + ",<path>"@,
    }
}

impl RcppError {
    /// The message that reports this error.
    pub fn message(&self) -> (r: String)
        ensures
            r@ == error_message(*self),
    {
        let mut out: Vec<char> = Vec::new();
        match self {
            RcppError::RewriteRejected => {
                append_str(&mut out, "a syntax rewrite pattern was rejected");
            },
            RcppError::ExternWithoutPath { name } => {
                append_str(&mut out, "Extern module '");
                append_str(&mut out, name.as_str());
                append_str(&mut out, "' has no path. Provide via inline \"path\" or CLI -e ");
                append_str(&mut out, name.as_str());
                append_str(&mut out, ",<path>");
            },
        }
        string_of(&out)
    }
}

} // verus!
