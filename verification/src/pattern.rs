//! Regular expressions, compiled with the `regex` crate.

use vstd::prelude::*;

verus! {

#[verifier::external_type_specification]
#[verifier::external_body]
pub struct ExRegex(regex::Regex);

/// Whether the regular expression `pattern` matches somewhere in `hay`, as
/// `regex::Regex::is_match` decides it.
pub uninterp spec fn regex_finds(pattern: Seq<char>, hay: Seq<char>) -> bool;

/// A regular expression with the text it was compiled from.
pub struct Pattern {
    source: String,
    compiled: regex::Regex,
}

/// `regex::Regex::new`: the compiled expression, or `None` where the text is
/// refused. Nothing is stated of when it is refused: besides a text that is
/// not a regular expression, `regex` refuses one whose compiled form passes a
/// size limit, and that size depends on the machine.
#[verifier::external_body]
fn compile(source: &str) -> (res: Option<regex::Regex>) {
    regex::Regex::new(source).ok()
}

/// `regex::Regex::is_match` on the compiled expression of `p`. Its result
/// depends on the text the expression was compiled from and on `hay` alone;
/// `Pattern::new` is the only way to make a `Pattern`, so `p.compiled` is
/// always compiled from `p.source`.
#[verifier::external_body]
fn matches_in(p: &Pattern, hay: &str) -> (r: bool)
    ensures
        r == regex_finds(p.source(), hay@),
{
    p.compiled.is_match(hay)
}

impl Pattern {
    /// The text of the regular expression.
    pub closed spec fn source(&self) -> Seq<char> {
        self.source@
    }

    /// Compiles `source`; `None` where `regex` refuses it (a text that is not
    /// a regular expression, or one too large to compile).
    pub fn new(source: &str) -> (res: Option<Pattern>)
        ensures
            res matches Some(p) ==> p.source() == source@,
    {
        match compile(source) {
            Some(re) => Some(Pattern { source: source.to_owned(), compiled: re }),
            None => None,
        }
    }

    /// Whether the expression matches somewhere in `hay`.
    pub fn is_match(&self, hay: &str) -> (r: bool)
        ensures
            r == regex_finds(self.source(), hay@),
    {
        matches_in(self, hay)
    }
}

} // verus!
