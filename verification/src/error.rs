//! Error taxonomy: parse-time responses (including the two internal
//! control-flow sentinels `NotPossible` and `Done`) and build/run errors.

use vstd::prelude::*;

verus! {

/// The diagnostic line of a parse response: `Line <n>: <message>` for the
/// hard errors, nothing for the two internal sentinels.
pub open spec fn parse_response_text(e: ParseResponse) -> Seq<char> {
    match e {
        ParseResponse::Int(l) => "Line "@ + crate::text::dec_rep(l as nat)
            + ": Expected an unsigned number"@,
        ParseResponse::EOL(l) => "Line "@ + crate::text::dec_rep(l as nat)
            + ": Expected end of line"@,
        ParseResponse::Ident(l) => "Line "@ + crate::text::dec_rep(l as nat)
            + ": Expected an identifier"@,
        ParseResponse::Unexpected(l) => "Line "@ + crate::text::dec_rep(l as nat)
            + ": Unexpected character(s)"@,
        ParseResponse::NotPossible => Seq::empty(),
        ParseResponse::Done => Seq::empty(),
    }
}

/// The diagnostic text of a build or runtime error. A failed parse renders
/// its parse error followed by the offending line's text.
pub open spec fn compiler_error_text(e: CompilerError) -> Seq<char> {
    match e {
        CompilerError::Failed(p, t) => parse_response_text(p) + t@,
        CompilerError::NoMain => "File contains no main function"@,
        CompilerError::NoFunc(s) => "function '"@ + s@ + "' doesn't exist"@,
        CompilerError::GlobalPropertyMissing(s) => "Global property '"@ + s@
            + "' is missing, but is required"@,
        CompilerError::RecursionLimitExceeded => "Maximum goto call depth exceeded"@,
    }
}

/// Outcome signals of the grammar layer.
///
/// `NotPossible` means "this rule does not match here, the cursor was
/// restored"; `Done` means "input exhausted, nothing left to parse". Both are
/// internal control-flow sentinels between the grammar rules and the
/// dispatcher, never user-facing errors. The other variants are hard errors;
/// each carries the line number (counted from zero) it was raised on.
#[derive(Debug, PartialEq, Eq, Clone)]
pub enum ParseResponse {
    /// An unsigned integer was expected but missing or out of range.
    Int(usize),
    /// A statement terminator (newline or `;`) was expected.
    EOL(usize),
    /// An identifier was expected, for example after `@`.
    Ident(usize),
    /// No grammar rule matches the remaining input.
    Unexpected(usize),
    /// Internal: the rule does not apply at this position.
    NotPossible,
    /// Internal: the input is exhausted.
    Done,
}

/// Errors of the build phase and of the instruction interpreter.
#[derive(Debug, PartialEq, Eq, Clone)]
pub enum CompilerError {
    /// Parsing failed; carries the parse error and the text of the offending
    /// source line.
    Failed(ParseResponse, String),
    /// The program holds no `@main` label.
    NoMain,
    /// A pair instruction names an unknown verb.
    NoFunc(String),
    /// A chord instruction needs a global variable that was never declared.
    GlobalPropertyMissing(String),
    /// The maximum `goto` call depth was exceeded.
    RecursionLimitExceeded,
}

impl ParseResponse {
    /// Renders the diagnostic line of the response.
    pub fn describe(&self) -> (r: String)
        ensures
            r@ == parse_response_text(*self),
    {
        let mut s = String::new();
        match self {
            ParseResponse::Int(l) => {
                crate::text::push_str(&mut s, "Line ");
                crate::text::append_u64(&mut s, *l as u64);
                crate::text::push_str(&mut s, ": Expected an unsigned number");
            },
            ParseResponse::EOL(l) => {
                crate::text::push_str(&mut s, "Line ");
                crate::text::append_u64(&mut s, *l as u64);
                crate::text::push_str(&mut s, ": Expected end of line");
            },
            ParseResponse::Ident(l) => {
                crate::text::push_str(&mut s, "Line ");
                crate::text::append_u64(&mut s, *l as u64);
                crate::text::push_str(&mut s, ": Expected an identifier");
            },
            ParseResponse::Unexpected(l) => {
                crate::text::push_str(&mut s, "Line ");
                crate::text::append_u64(&mut s, *l as u64);
                crate::text::push_str(&mut s, ": Unexpected character(s)");
            },
            ParseResponse::NotPossible => {},
            ParseResponse::Done => {},
        }
        proof {
            assert(s@ =~= parse_response_text(*self));
        }
        s
    }
}

impl CompilerError {
    /// Renders the diagnostic text of the error.
    pub fn describe(&self) -> (r: String)
        ensures
            r@ == compiler_error_text(*self),
    {
        let mut s = String::new();
        match self {
            CompilerError::Failed(p, t) => {
                let head = p.describe();
                crate::text::push_str(&mut s, head.as_str());
                crate::text::push_str(&mut s, t.as_str());
            },
            CompilerError::NoMain => {
                crate::text::push_str(&mut s, "File contains no main function");
            },
            CompilerError::NoFunc(n) => {
                crate::text::push_str(&mut s, "function '");
                crate::text::push_str(&mut s, n.as_str());
                crate::text::push_str(&mut s, "' doesn't exist");
            },
            CompilerError::GlobalPropertyMissing(n) => {
                crate::text::push_str(&mut s, "Global property '");
                crate::text::push_str(&mut s, n.as_str());
                crate::text::push_str(&mut s, "' is missing, but is required");
            },
            CompilerError::RecursionLimitExceeded => {
                crate::text::push_str(&mut s, "Maximum goto call depth exceeded");
            },
        }
        proof {
            assert(s@ =~= compiler_error_text(*self));
        }
        s
    }
}

} // verus!
