//! The boundary to the `regex` crate: compiling a pattern and testing a
//! string against it.  The two calls stand behind trusted declarations; what
//! a pattern matches is named, never restated.

use crate::errors::ShiftError;
use vstd::prelude::*;

verus! {

#[verifier::external_type_specification]
#[verifier::external_body]
pub struct ExRegex(regex::Regex);

/// Whether the `regex` crate accepts `pat` as a pattern within its size
/// limit: `regex::Regex::new` succeeds on exactly these patterns, and the
/// outcome depends on the pattern alone.
pub uninterp spec fn regex_compiles(pat: Seq<char>) -> bool;

/// Whether compiling `pat` fails because the compiled automaton would exceed
/// the configured size limit: on exactly these patterns `regex::Regex::new`'s
/// error is the too-big kind rather than the syntax kind, and the outcome
/// depends on the pattern alone.
pub uninterp spec fn regex_too_big(pat: Seq<char>) -> bool;

/// Whether the regular expression `pat` matches anywhere in `text`: the
/// outcome depends on the two strings alone.
pub uninterp spec fn regex_match(pat: Seq<char>, text: Seq<char>) -> bool;

/// A compiled regular expression, remembering the pattern it came from.
pub struct CompiledRegex {
    regex: regex::Regex,
    pattern: String,
}

impl CompiledRegex {
    /// The pattern this expression was compiled from.
    pub closed spec fn pattern_view(self) -> Seq<char> {
        self.pattern@
    }

    /// Relies on regex::Regex::new: it returns Ok exactly when the pattern is
    /// well-formed and compiles within the size limit, and its error
    /// otherwise distinguishes a syntax fault from an oversize automaton,
    /// the latter carrying the configured size limit.
    #[verifier::external_body]
    pub fn compile(pat: &str) -> (r: Result<CompiledRegex, ShiftError>)
        ensures
            r is Ok <==> regex_compiles(pat@),
            r matches Ok(c) ==> c.pattern_view() == pat@,
            r matches Err(e) ==> ({
                if regex_too_big(pat@) {
                    e matches ShiftError::RegexCompiledTooBig { pattern, .. } && pattern@ == pat@
                } else {
                    e matches ShiftError::RegexSyntax { pattern } && pattern@ == pat@
                }
            }),
    {
        match regex::Regex::new(pat) {
            Ok(re) => Ok(CompiledRegex { regex: re, pattern: pat.to_string() }),
            Err(regex::Error::CompiledTooBig(n)) => Err(
                ShiftError::RegexCompiledTooBig { pattern: pat.to_string(), size: n },
            ),
            Err(_) => Err(ShiftError::RegexSyntax { pattern: pat.to_string() }),
        }
    }

    /// Relies on regex::Regex::is_match: whether the expression matches
    /// anywhere in `text`.
    #[verifier::external_body]
    pub fn is_match(&self, text: &str) -> (r: bool)
        ensures
            r == regex_match(self.pattern_view(), text@),
    {
        self.regex.is_match(text)
    }
}

} // verus!
