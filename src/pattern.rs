//! A compiled regular expression, together with the text it was compiled from.
use vstd::prelude::*;

verus! {

#[verifier::external_type_specification]
#[verifier::external_body]
pub struct ExRegex(regex::Regex);

/// Whether `pattern` is a regular expression that `regex::Regex::new` accepts.
pub uninterp spec fn regex_compiles(pattern: Seq<char>) -> bool;

/// Whether the regular expression `pattern` matches somewhere in `haystack`.
pub uninterp spec fn regex_finds(pattern: Seq<char>, haystack: Seq<char>) -> bool;

/// A regular expression; only `compile` builds one, so `re` is always the
/// expression compiled from `source`.
pub struct Pattern {
    re: regex::Regex,
    source: String,
}

impl Pattern {
    /// The text the expression was compiled from.
    pub closed spec fn source(&self) -> Seq<char> {
        self.source@
    }

    /// Relies on regex::Regex::new: it accepts exactly the valid expressions.
    #[verifier::external_body]
    pub(crate) fn compile(p: &str) -> (r: Option<Pattern>)
        ensures
            r is Some <==> regex_compiles(p@),
            r matches Some(pat) ==> pat.source() == p@,
    {
        match regex::Regex::new(p) {
            Ok(re) => Some(Pattern { re, source: p.to_owned() }),
            Err(_) => None,
        }
    }

    /// Relies on regex::Regex::is_match: whether the expression occurs in `s`.
    #[verifier::external_body]
    pub(crate) fn finds(&self, s: &str) -> (r: bool)
        ensures
            r == regex_finds(self.source(), s@),
    {
        self.re.is_match(s)
    }
}

} // verus!
