//! Trusted interface to the regular-expression engine.
//!
//! Patterns are compiled once and used for matching and capturing. What
//! a pattern matches is named, not spelled out: the names below stand
//! for the results of the engine's functions, which depend on the
//! pattern and the text alone.

use vstd::prelude::*;

verus! {

#[verifier::external_type_specification]
#[verifier::external_body]
pub struct ExRegex(regex::Regex);

/// Whether `pattern` is a well-formed regular expression, as decided by
/// `regex::Regex::new`.
pub uninterp spec fn regex_valid(pattern: Seq<char>) -> bool;

/// Whether `pattern` matches somewhere in `text`, as decided by
/// `regex::Regex::is_match`.
pub uninterp spec fn regex_is_match(pattern: Seq<char>, text: Seq<char>) -> bool;

/// The text of capture group `group` in the first match of `pattern` in
/// `text`, as returned by `regex::Regex::captures`.
pub uninterp spec fn regex_first_capture(
    pattern: Seq<char>,
    group: int,
    text: Seq<char>,
) -> Option<Seq<char>>;

/// For each successive match of `pattern` in `text`, the text of
/// capture group `group` if the group participated in that match, as
/// walked by `regex::Regex::captures_iter`.
pub uninterp spec fn regex_all_captures(
    pattern: Seq<char>,
    group: int,
    text: Seq<char>,
) -> Seq<Option<Seq<char>>>;

/// A compiled regular expression, kept with the pattern it was built
/// from.
#[derive(Debug)]
pub struct CompiledRegex {
    /// The pattern the engine value below was compiled from. Both
    /// fields are private so no value can hold a pattern other than
    /// the one its engine was built from.
    pattern: String,
    re: regex::Regex,
}

impl CompiledRegex {
    /// The pattern this value was compiled from.
    pub closed spec fn pattern_view(&self) -> Seq<char> {
        self.pattern@
    }

    /// Relies on `regex::Regex::new`: it succeeds exactly on well-formed
    /// patterns, and the value it returns matches according to that
    /// pattern.
    #[verifier::external_body]
    pub fn compile(pattern: &str) -> (r: Option<CompiledRegex>)
        ensures
            r is Some <==> regex_valid(pattern@),
            r is Some ==> r->0.pattern_view() == pattern@,
    {
        match regex::Regex::new(pattern) {
            Ok(re) => Some(CompiledRegex { pattern: pattern.to_string(), re }),
            Err(_) => None,
        }
    }

    /// Relies on `regex::Regex::is_match` applied to the expression this
    /// value was compiled from.
    #[verifier::external_body]
    pub fn is_match(&self, text: &str) -> (r: bool)
        ensures
            r == regex_is_match(self.pattern_view(), text@),
    {
        self.re.is_match(text)
    }

    /// Relies on `regex::Regex::captures` applied to the expression this
    /// value was compiled from: the capture of `group` in the first
    /// match, if any.
    #[verifier::external_body]
    pub fn first_capture(&self, group: usize, text: &str) -> (r: Option<String>)
        ensures
            match r {
                Some(s) => regex_first_capture(self.pattern_view(), group as int, text@) == Some(s@),
                None => regex_first_capture(self.pattern_view(), group as int, text@) is None,
            },
    {
        self.re.captures(text).and_then(|c| c.get(group)).map(|m| m.as_str().to_string())
    }

    /// Relies on `regex::Regex::captures_iter` applied to the expression
    /// this value was compiled from: for each match in order, the
    /// capture of `group` if it participated in that match.
    #[verifier::external_body]
    pub fn all_captures(&self, group: usize, text: &str) -> (r: Vec<Option<String>>)
        ensures
            r.deep_view() == regex_all_captures(self.pattern_view(), group as int, text@),
    {
        self.re.captures_iter(text).map(
            |c| c.get(group).map(|m| m.as_str().to_string()),
        ).collect()
    }
}

} // verus!
