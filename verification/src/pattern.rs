//! Regular expressions over bytes.  Compiling and matching are the regex
//! crate's; a compiled expression is kept together with the pattern it was
//! compiled from.
use vstd::prelude::*;
use crate::text::copy_bytes;

verus! {

#[verifier::external_type_specification]
#[verifier::external_body]
pub struct ExRegex(regex::bytes::Regex);

/// `true` when `pattern` is UTF-8 and a regular expression that the regex
/// crate accepts under its default limits.
pub uninterp spec fn pattern_compiles(pattern: Seq<u8>) -> bool;

/// `true` when the regular expression `pattern` matches somewhere in `text`.
pub uninterp spec fn pattern_matches(pattern: Seq<u8>, text: Seq<u8>) -> bool;

/// A compiled regular expression.  Its view is the pattern.
///
/// The only way to make one is `QueryRegex::new`, so the compiled form is
/// always that of the pattern beside it.
#[derive(Debug)]
pub struct QueryRegex {
    pattern: Vec<u8>,
    compiled: regex::bytes::Regex,
}

impl View for QueryRegex {
    type V = Seq<u8>;

    closed spec fn view(&self) -> Seq<u8> {
        self.pattern@
    }
}

/// `regex::bytes::Regex::new`: whether it accepts a pattern is a function of
/// the pattern alone, named `pattern_compiles`.  A pattern that is not UTF-8
/// is not accepted.
#[verifier::external_body]
fn compile(pattern: &[u8]) -> (r: Option<regex::bytes::Regex>)
    ensures
        r is Some == pattern_compiles(pattern@),
{
    regex::bytes::Regex::new(std::str::from_utf8(pattern).ok()?).ok()
}

/// `regex::bytes::Regex::is_match` on the compiled form of `re`, which
/// `QueryRegex::new` made from the pattern of `re`: whether the expression
/// matches somewhere in `text` is a function of the pattern and the text
/// alone, named `pattern_matches`.
#[verifier::external_body]
fn search(re: &QueryRegex, text: &[u8]) -> (found: bool)
    ensures
        found == pattern_matches(re@, text@),
{
    re.compiled.is_match(text)
}

impl QueryRegex {
    /// Compiles `pattern`; `None` when it is not a regular expression.
    pub fn new(pattern: &[u8]) -> (r: Option<QueryRegex>)
        ensures
            r is Some == pattern_compiles(pattern@),
            r matches Some(re) ==> re@ == pattern@,
    {
        match compile(pattern) {
            Some(compiled) => Some(QueryRegex { pattern: copy_bytes(pattern), compiled }),
            None => None,
        }
    }

    /// The pattern this expression was compiled from.
    pub fn pattern(&self) -> (p: &Vec<u8>)
        ensures
            p@ == self@,
    {
        &self.pattern
    }

    /// `true` when the expression matches somewhere in `text`.
    pub fn is_match(&self, text: &[u8]) -> (found: bool)
        ensures
            found == pattern_matches(self@, text@),
    {
        search(self, text)
    }
}

} // verus!
