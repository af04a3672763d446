//! Compiled regular expressions, kept together with their source text.
use vstd::prelude::*;

verus! {

#[verifier::external_type_specification]
#[verifier::external_body]
pub struct ExRegex(regex::Regex);

/// Name for whether `regex::Regex::new` accepts the pattern `source`.
pub uninterp spec fn regex_compiles(source: Seq<char>) -> bool;

/// Name for what `Regex::find` returns for the regex compiled from `source`
/// on `haystack`: the byte offsets of the leftmost-first match and its text.
pub uninterp spec fn regex_find(source: Seq<char>, haystack: Seq<char>) -> Option<(usize, usize, Seq<char>)>;

/// Name for what `Regex::captures` returns for the regex compiled from
/// `source` on `haystack`: per group, the text it captured, if it took part.
pub uninterp spec fn regex_captures(source: Seq<char>, haystack: Seq<char>) -> Option<Seq<Option<Seq<char>>>>;

/// Name for what `Regex::captures_iter` yields for the regex compiled from
/// `source` on `haystack`, reduced to capture group `group` of each match.
pub uninterp spec fn regex_group_all(source: Seq<char>, haystack: Seq<char>, group: usize) -> Seq<Option<Seq<char>>>;

/// A regular expression and the text it was compiled from.
pub struct Pattern {
    source: String,
    regex: regex::Regex,
}

impl View for Pattern {
    type V = Seq<char>;

    /// A pattern is seen as its source text.
    closed spec fn view(&self) -> Seq<char> {
        self.source@
    }
}

/// Compiles `source` with `regex::Regex::new`; the pattern keeps `source`,
/// so every later query on it is a query on the regex compiled from its view.
/// The contract claims only that compilation succeeds exactly when the crate
/// accepts the text, a fact named by `regex_compiles`.
#[verifier::external_body]
pub(crate) fn compile_pattern(source: &str) -> (r: Option<Pattern>)
    ensures
        r is Some <==> regex_compiles(source@),
        r matches Some(p) ==> p@ == source@,
{
    match regex::Regex::new(source) {
        Ok(regex) => Some(Pattern { source: source.to_string(), regex }),
        Err(_) => None,
    }
}

/// `Regex::find` with `Match::start`, `Match::end` and `Match::as_str`: the
/// leftmost-first match of the pattern in `haystack`, as the name
/// `regex_find` of the pattern's source and the haystack.
#[verifier::external_body]
pub(crate) fn pattern_find(p: &Pattern, haystack: &str) -> (r: Option<(usize, usize, String)>)
    ensures
        r is None <==> regex_find(p@, haystack@) is None,
        r matches Some(m) ==> regex_find(p@, haystack@) == Some((m.0, m.1, m.2@)),
{
    p.regex.find(haystack).map(|m| (m.start(), m.end(), m.as_str().to_string()))
}

/// `Regex::captures` with `Captures::iter`: for the first match, each
/// capture group's text (group 0 first), `None` for a group that took no
/// part; the whole is the name `regex_captures` of source and haystack.
#[verifier::external_body]
pub(crate) fn pattern_captures(p: &Pattern, haystack: &str) -> (r: Option<Vec<Option<String>>>)
    ensures
        r is None <==> regex_captures(p@, haystack@) is None,
        r matches Some(gs) ==> regex_captures(p@, haystack@) matches Some(spec_gs) && gs@.len()
            == spec_gs.len() && forall|i: int|
            0 <= i < gs@.len() ==> (#[trigger] gs@[i] is Some <==> spec_gs[i] is Some) && (
            gs@[i] matches Some(g) ==> spec_gs[i] == Some(g@)),
{
    p.regex.captures(haystack).map(|c| c.iter().map(|g| g.map(|g| g.as_str().to_string())).collect())
}

/// `Regex::captures_iter` with `Captures::get(group)`: for each successive
/// non-overlapping match, the text of capture group `group`, if it took
/// part; the whole is the name `regex_group_all` of source, haystack, group.
#[verifier::external_body]
pub(crate) fn pattern_group_all(p: &Pattern, haystack: &str, group: usize) -> (r: Vec<Option<String>>)
    ensures
        r@.len() == regex_group_all(p@, haystack@, group).len(),
        forall|i: int|
            0 <= i < r@.len() ==> (#[trigger] r@[i] is Some <==> regex_group_all(
                p@,
                haystack@,
                group,
            )[i] is Some) && (r@[i] matches Some(g) ==> regex_group_all(p@, haystack@, group)[i]
                == Some(g@)),
{
    p.regex.captures_iter(haystack).map(|c| c.get(group).map(|g| g.as_str().to_string())).collect()
}

} // verus!
