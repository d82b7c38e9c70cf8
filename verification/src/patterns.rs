//! Regular expressions, compiled and run by the `regex` crate.

use vstd::prelude::*;

verus! {

#[verifier::external_type_specification]
#[verifier::external_body]
pub struct ExRegex(regex::Regex);

/// Whether `regex::Regex::new` accepts `pattern`.
pub uninterp spec fn regex_compiles(pattern: Seq<char>) -> bool;

/// What `regex::Regex::is_match` answers for the compiled `pattern` on `haystack`.
pub uninterp spec fn regex_matches(pattern: Seq<char>, haystack: Seq<char>) -> bool;

/// What `regex::Regex::captures` followed by `Captures::get(group)` gives for
/// the compiled `pattern` on `haystack`: `None` when there is no match,
/// `Some(None)` when the group took no part in it, and otherwise the text of
/// the group.
pub uninterp spec fn regex_group(pattern: Seq<char>, haystack: Seq<char>, group: nat) -> Option<
    Option<Seq<char>>,
>;

/// A regular expression together with the source it was compiled from.
pub struct Pattern {
    source: String,
    compiled: regex::Regex,
}

impl Pattern {
    /// The source text of the expression.
    pub closed spec fn source(&self) -> Seq<char> {
        self.source@
    }

    /// Compiles `source` with `regex::Regex::new`; `None` where it is refused.
    #[verifier::external_body]
    pub(crate) fn compile(source: &str) -> (r: Option<Pattern>)
        ensures
            r is Some <==> regex_compiles(source@),
            r matches Some(p) ==> p.source() == source@,
    {
        match regex::Regex::new(source) {
            Ok(compiled) => Some(Pattern { source: source.to_string(), compiled }),
            Err(_) => None,
        }
    }

    /// `regex::Regex::is_match`, taken as `regex_matches` of the source.
    #[verifier::external_body]
    pub(crate) fn is_match(&self, haystack: &str) -> (r: bool)
        ensures
            r == regex_matches(self.source(), haystack@),
    {
        self.compiled.is_match(haystack)
    }

    /// `regex::Regex::captures` and `Captures::get(group)`, taken as
    /// `regex_group` of the source.
    #[verifier::external_body]
    pub(crate) fn capture_group(&self, haystack: &str, group: usize) -> (r: Option<Option<String>>)
        ensures
            match r {
                Some(Some(t)) => regex_group(self.source(), haystack@, group as nat) == Some(
                    Some(t@),
                ),
                Some(None) => regex_group(self.source(), haystack@, group as nat) == Some(
                    None::<Seq<char>>,
                ),
                None => regex_group(self.source(), haystack@, group as nat) is None,
            },
    {
        match self.compiled.captures(haystack) {
            Some(caps) => match caps.get(group) {
                Some(m) => Some(Some(m.as_str().to_string())),
                None => Some(None),
            },
            None => None,
        }
    }
}

} // verus!
