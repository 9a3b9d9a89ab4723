//! Shared data types: rules, capture reports, and errors.

use vstd::prelude::*;

verus! {

/// Placeholder substituted for redacted content when no custom one is given.
pub const REDACT_PLACEHOLDER: &'static str = "[TEXT_REDACTED]";

/// The outside type `regex::Regex`, carried opaquely inside [`Pattern`].
#[verifier::external_type_specification]
#[verifier::external_body]
pub struct ExRegex(regex::Regex);

/// Whether `regex::Regex::new` accepts an expression. Compilation of a
/// pattern string either succeeds or fails deterministically, so the
/// outcome is a function of the expression alone.
pub uninterp spec fn regex_ok(expr: Seq<char>) -> bool;

/// Describe redaction by pattern: a match expression together with the
/// index of the capture group whose text is the redaction target.
#[derive(Debug)]
pub struct Pattern {
    /// compiled expression; always the compilation of `expr`
    pub(crate) test: regex::Regex,
    /// the expression `test` was compiled from
    pub(crate) expr: String,
    /// capture group to redact
    pub group: usize,
}

impl View for Pattern {
    type V = (Seq<char>, int);

    closed spec fn view(&self) -> (Seq<char>, int) {
        (self.expr@, self.group as int)
    }
}

impl Pattern {
    /// Relies on `regex::Regex::new`: it returns `Ok` exactly when the
    /// expression is a valid pattern not exceeding the default size
    /// limit, which is deterministic in the expression. The compiled
    /// regex is stored beside its source so that every later use of
    /// `test` is a use of the compilation of `expr`.
    #[verifier::external_body]
    fn compile(expr: &str, group: usize) -> (r: Option<Pattern>)
        ensures
            r is Some <==> regex_ok(expr@),
            r matches Some(p) ==> p@ == (expr@, group as int),
    {
        match regex::Regex::new(expr) {
            Ok(test) => Some(Pattern { test, expr: expr.to_string(), group }),
            Err(_) => None,
        }
    }

    /// Compile an expression into a rule targeting the given capture group.
    pub fn new(expr: &str, group: usize) -> (r: Result<Pattern, RedactError>)
        ensures
            r is Ok <==> regex_ok(expr@),
            r matches Ok(p) ==> p@ == (expr@, group as int),
            r matches Err(e) ==> (e matches RedactError::InvalidPattern { values }
                && values.deep_view() == seq![expr@]),
    {
        match Self::compile(expr, group) {
            Some(p) => Ok(p),
            None => {
                let mut values: Vec<String> = Vec::new();
                values.push(String::from_str(expr));
                assert(values.deep_view() =~= seq![expr@]);
                Err(RedactError::InvalidPattern { values })
            },
        }
    }

    /// The expression this rule was compiled from.
    pub fn expression(&self) -> (r: &str)
        ensures
            r@ == self@.0,
    {
        self.expr.as_str()
    }

}

/// Redact information: the rewritten text and the captures that drove it.
#[derive(Debug, Clone, PartialEq, Eq)]
pub struct Info {
    /// redacted string
    pub string: String,
    /// captures information
    pub captures: Vec<Captures>,
}

/// Capture details: one matched substring, with optional position data.
#[derive(Debug, Clone, PartialEq, Eq)]
pub struct Captures {
    /// the captured text
    pub text: String,
    /// position details, present when they were requested
    pub position: Option<Position>,
}

/// Where a match sat in the original input.
#[derive(Debug, Clone, PartialEq, Eq)]
pub struct Position {
    /// 1-based line of the match start, counted by line-feed bytes
    pub line: usize,
    /// byte offset of the match start in the original input
    pub start_offset: usize,
    /// byte offset one past the match end in the original input
    pub end_offset: usize,
}

/// Everything that can go wrong at the edges of redaction. The engines
/// themselves are total once configured.
#[derive(Debug, Clone, PartialEq, Eq)]
pub enum RedactError {
    /// one or more literal values could not be turned into patterns
    InvalidPattern { values: Vec<String> },
    /// input bytes are not valid UTF-8
    EncodingError,
    /// input text is not a JSON document
    ParseError { message: String },
    /// a reader failed before any text arrived
    IoError { message: String },
}

} // verus!
