//! Regular expressions: the trusted calls into the `regex` crate, and rewrite rules on top of
//! them.
use vstd::prelude::*;

verus! {

/// A compiled regular expression of the `regex` crate.
#[verifier::external_type_specification]
#[verifier::external_body]
pub struct ExRegex(regex::Regex);

/// The reason for which the `regex` crate refuses a pattern.
#[verifier::external_type_specification]
#[verifier::external_body]
pub struct ExRegexError(regex::Error);

/// Whether `regex::Regex::new` compiles the pattern.
pub uninterp spec fn regex_accepts(pattern: Seq<char>) -> bool;

/// The pattern that the expression was compiled from, as `regex::Regex::as_str` gives it.
pub uninterp spec fn regex_source(re: regex::Regex) -> Seq<char>;

/// What `regex::Regex::replace_all` makes of `text` for the expression compiled from `pattern`.
pub uninterp spec fn regex_replaced(
    pattern: Seq<char>,
    text: Seq<char>,
    replacement: Seq<char>,
) -> Seq<char>;

/// `regex::Regex::new`: whether the pattern compiles depends on its characters alone, and the
/// expression remembers the pattern.
#[verifier::external_body]
fn compile(pattern: &str) -> (r: Result<regex::Regex, regex::Error>)
    ensures
        r is Ok <==> regex_accepts(pattern@),
        r matches Ok(re) ==> regex_source(re) == pattern@,
{
    regex::Regex::new(pattern)
}

/// `regex::Regex::replace_all`: the result depends on the pattern, the text and the replacement
/// alone, and each of its characters comes from the text or from the replacement. Which parts of
/// the text match is not stated.
#[verifier::external_body]
fn substitute(re: &regex::Regex, text: &str, replacement: &str) -> (r: String)
    ensures
        r@ == regex_replaced(regex_source(*re), text@, replacement@),
        forall|i: int|
            0 <= i < r@.len() ==> text@.contains(#[trigger] r@[i]) || replacement@.contains(r@[i]),
{
    re.replace_all(text, replacement).into_owned()
}

/// What a rule with this pattern makes of `text`: each match is replaced. A pattern that does not
/// compile changes nothing.
pub open spec fn rewritten(
    pattern: Seq<char>,
    replacement: Seq<char>,
    text: Seq<char>,
) -> Seq<char> {
    if regex_accepts(pattern) {
        regex_replaced(pattern, text, replacement)
    } else {
        text
    }
}

/// A regular expression, compiled once and applied to many texts.
#[derive(Debug)]
pub struct Rule {
    source: String,
    compiled: Option<regex::Regex>,
}

impl Rule {
    /// The pattern of the rule.
    pub closed spec fn pattern(&self) -> Seq<char> {
        self.source@
    }

    #[verifier::type_invariant]
    spec fn matches_source(&self) -> bool {
        match self.compiled {
            Some(re) => regex_accepts(self.source@) && regex_source(re) == self.source@,
            None => !regex_accepts(self.source@),
        }
    }

    /// The rule with the given pattern.
    pub fn new(pattern: &str) -> (r: Rule)
        ensures
            r.pattern() == pattern@,
    {
        let compiled = match compile(pattern) {
            Ok(re) => Some(re),
            Err(_) => None,
        };
        Rule { source: pattern.to_owned(), compiled }
    }

    /// The text with each match of the rule replaced.
    pub fn apply(&self, text: &str, replacement: &str) -> (r: String)
        ensures
            r@ == rewritten(self.pattern(), replacement@, text@),
            forall|i: int|
                0 <= i < r@.len() ==> text@.contains(#[trigger] r@[i]) || replacement@.contains(
                    r@[i],
                ),
    {
        proof {
            use_type_invariant(self);
        }
        match &self.compiled {
            Some(re) => substitute(re, text, replacement),
            None => text.to_owned(),
        }
    }
}

impl Clone for Rule {
    fn clone(&self) -> (r: Self)
        ensures
            r.pattern() == self.pattern(),
    {
        Rule::new(self.source.as_str())
    }
}

}
