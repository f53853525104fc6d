//! Regular-expression matching, through the `regex` crate.
//!
//! The patterns are the library's own and are written at the call sites; what
//! a pattern matches is the `regex` crate's business, named here and nowhere
//! restated.

use vstd::prelude::*;

verus! {

/// One match of a pattern: where it starts (as a character index into the
/// haystack) and the text of each capture group, group 0 being the whole match.
pub struct RegexMatch {
    pub start: usize,
    pub groups: Vec<Option<String>>,
}

/// The text of an optional group.
pub open spec fn group_view(g: Option<String>) -> Option<Seq<char>> {
    match g {
        Some(s) => Some(s@),
        None => None,
    }
}

/// A match as plain values: its start and its groups.
pub open spec fn match_view(m: RegexMatch) -> (int, Seq<Option<Seq<char>>>) {
    (m.start as int, m.groups@.map_values(|g: Option<String>| group_view(g)))
}

/// All matches, as plain values.
pub open spec fn matches_view(v: Seq<RegexMatch>) -> Seq<(int, Seq<Option<Seq<char>>>)> {
    v.map_values(|m: RegexMatch| match_view(m))
}

/// What `Regex::new(pattern)` followed by `captures_iter(text)` yields: `None`
/// when the pattern does not compile, otherwise every successive
/// non-overlapping match, leftmost first, with its start and its groups.
pub uninterp spec fn regex_captures(pattern: Seq<char>, text: Seq<char>) -> Option<
    Seq<(int, Seq<Option<Seq<char>>>)>,
>;

/// A match sits where it says: group 0 is present and is the text found at
/// `start`.
pub open spec fn well_placed(m: (int, Seq<Option<Seq<char>>>), text: Seq<char>) -> bool {
    &&& m.1.len() >= 1
    &&& m.1[0] is Some
    &&& 0 <= m.0
    &&& m.0 + m.1[0]->0.len() <= text.len()
    &&& text.subrange(m.0, m.0 + m.1[0]->0.len()) == m.1[0]->0
}

/// The text of group `k` of a match, or the empty string where the group did
/// not take part in the match.
pub open spec fn group_text(m: (int, Seq<Option<Seq<char>>>), k: int) -> Seq<char> {
    if 0 <= k < m.1.len() && m.1[k] is Some {
        m.1[k]->0
    } else {
        Seq::empty()
    }
}

/// Every match of `pattern` in `text`, or `None` when the pattern does not compile.
///
/// Trusted: calls `regex::Regex::new` and `Regex::captures_iter`. The contract
/// names the result `regex_captures` and adds only what the crate documents of
/// every match: group 0 always participates and is the haystack's text between
/// the match's start and end. The start is converted from a byte offset to a
/// character index; nothing else is changed.
#[verifier::external_body]
pub(crate) fn captures(pattern: &str, text: &str) -> (r: Option<Vec<RegexMatch>>)
    ensures
        r is None <==> regex_captures(pattern@, text@) is None,
        r matches Some(v) ==> regex_captures(pattern@, text@) == Some(matches_view(v@)),
        r matches Some(v) ==> forall|k: int|
            0 <= k < v.len() ==> well_placed(#[trigger] match_view(v[k]), text@),
{
    regex::Regex::new(pattern).ok().map(
        |re|
            re.captures_iter(text).map(
                |c|
                    RegexMatch {
                        start: text[..c.get(0).map_or(0, |m| m.start())].chars().count(),
                        groups: c.iter().map(|g| g.map(|m| m.as_str().to_string())).collect(),
                    },
            ).collect(),
    )
}

/// The text of group `k` of `m`, or the empty string where it is absent.
pub(crate) fn group(m: &RegexMatch, k: usize) -> (r: Vec<char>)
    ensures
        r@ == group_text(match_view(*m), k as int),
{
    if k < m.groups.len() {
        match &m.groups[k] {
            Some(s) => crate::text::chars_of(s.as_str()),
            None => Vec::new(),
        }
    } else {
        Vec::new()
    }
}

} // verus!
