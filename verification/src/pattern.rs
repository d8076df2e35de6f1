//! Regular expressions, compiled and run by the `regex` crate.
use vstd::prelude::*;

verus! {

#[verifier::external_type_specification]
#[verifier::external_body]
pub struct ExRegex(regex::Regex);

/// A compiled regular expression together with the text it was compiled from.
#[derive(Debug)]
pub struct Pattern {
    source: String,
    regex: regex::Regex,
}

impl Pattern {
    /// The text the expression was compiled from.
    pub closed spec fn source(&self) -> Seq<char> {
        self.source@
    }
}

/// The message of the error that `regex::Regex::new` reports for a pattern,
/// or `None` where the pattern compiles.
pub uninterp spec fn regex_error(pattern: Seq<char>) -> Option<Seq<char>>;

/// Whether `regex::Regex::is_match` finds the pattern in a text.
pub uninterp spec fn regex_is_match(pattern: Seq<char>, hay: Seq<char>) -> bool;

/// What `regex::Regex::captures` gives for a text: `None` where the pattern
/// does not match, else the groups in order (group 0 the whole match), each
/// the matched text or `None` where the group did not take part.
pub uninterp spec fn regex_captures(pattern: Seq<char>, hay: Seq<char>) -> Option<Seq<Option<Seq<char>>>>;

/// Views of captured groups.
pub open spec fn groups_view(g: Seq<Option<String>>) -> Seq<Option<Seq<char>>> {
    g.map_values(|o: Option<String>| match o {
        Some(s) => Some(s@),
        None => None,
    })
}

/// Compiles a pattern with `regex::Regex::new`; an error is returned as the
/// text of the `regex::Error` it gave.
#[verifier::external_body]
pub(crate) fn compile_pattern(source: &str) -> (r: Result<Pattern, String>)
    ensures
        match r {
            Ok(p) => p.source() == source@ && regex_error(source@) is None,
            Err(m) => regex_error(source@) == Some(m@),
        },
{
    match regex::Regex::new(source) {
        Ok(regex) => Ok(Pattern { source: source.to_owned(), regex }),
        Err(error) => Err(error.to_string()),
    }
}

/// Whether the pattern matches somewhere in `hay` (`regex::Regex::is_match`).
#[verifier::external_body]
pub(crate) fn pattern_is_match(p: &Pattern, hay: &str) -> (r: bool)
    ensures
        r == regex_is_match(p.source(), hay@),
{
    p.regex.is_match(hay)
}

/// The groups of the first match in `hay` (`regex::Regex::captures`).
#[verifier::external_body]
pub(crate) fn pattern_captures(p: &Pattern, hay: &str) -> (r: Option<Vec<Option<String>>>)
    ensures
        match r {
            Some(g) => regex_captures(p.source(), hay@) == Some(groups_view(g@)),
            None => regex_captures(p.source(), hay@) is None,
        },
{
    let caps = p.regex.captures(hay)?;
    Some(caps.iter().map(|m| m.map(|m| m.as_str().to_owned())).collect())
}

} // verus!
