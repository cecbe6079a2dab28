use vstd::prelude::*;

use crate::errors::ConfigError;

verus! {

#[verifier::external_type_specification]
#[verifier::external_body]
pub struct ExPcre2Regex(pcre2::bytes::Regex);

/// Whether `pcre2::bytes::Regex::new` accepts the pattern text; compilation
/// succeeds or fails on that text alone.
pub uninterp spec fn pattern_compiles(pattern: Seq<char>) -> bool;

/// Whether the pattern matches somewhere in the subject, as
/// `pcre2::bytes::Regex::is_match` decides it; for a fixed pattern the
/// outcome depends on the subject alone.
pub uninterp spec fn pattern_accepts(pattern: Seq<char>, subject: Seq<u8>) -> bool;

/// A path pattern compiled once at configuration-load time and then only
/// queried; never recompiled per request.
#[derive(Debug)]
pub struct CompiledPattern {
    source: String,
    regex: pcre2::bytes::Regex,
}

impl CompiledPattern {
    /// The pattern text this value was compiled from.
    pub closed spec fn pat(&self) -> Seq<char> {
        self.source@
    }

    /// Relies on pcre2::bytes::Regex::new: it compiles the pattern text or
    /// reports an error, deciding on the text alone; the value returned here
    /// keeps that text beside the compiled form.
    #[verifier::external_body]
    fn pcre_compile(pattern: &str) -> (r: Option<CompiledPattern>)
        ensures
            r is Some <==> pattern_compiles(pattern@),
            r matches Some(p) ==> p.pat() == pattern@,
    {
        match pcre2::bytes::Regex::new(pattern) {
            Ok(regex) => Some(CompiledPattern { source: pattern.to_owned(), regex }),
            Err(_) => None,
        }
    }

    /// Compiles a pattern, or rejects the configuration text with
    /// `InvalidPattern`; succeeds exactly on patterns the engine accepts.
    pub fn compile(pattern: &str) -> (r: Result<CompiledPattern, ConfigError>)
        ensures
            r is Ok <==> pattern_compiles(pattern@),
            r matches Ok(p) ==> p.pat() == pattern@,
            r matches Err(e) ==> e == ConfigError::InvalidPattern,
    {
        match Self::pcre_compile(pattern) {
            Some(p) => Ok(p),
            None => Err(ConfigError::InvalidPattern),
        }
    }

    /// Relies on pcre2::bytes::Regex::is_match: for a fixed pattern and
    /// subject the outcome depends on those alone; a match-time engine error
    /// counts as no match.
    #[verifier::external_body]
    pub(crate) fn is_match(&self, subject: &[u8]) -> (r: bool)
        ensures
            r == pattern_accepts(self.pat(), subject@),
    {
        self.regex.is_match(subject).unwrap_or(false)
    }
}

} // verus!
