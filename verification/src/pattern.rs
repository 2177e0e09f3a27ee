//! The regular-expression engine, as the library sees it.
//!
//! The engine is the `regex` crate.  Nothing of it is verified here: two
//! functions call it and hand back plain values, and the spec functions
//! without a body name what it answers.  A name stands for the engine's
//! answer and says nothing of what the answer is.
//!
//! Every pattern of a target goes to the engine in multi-line mode, when the
//! configuration is checked as when output is matched.

use crate::text::{chars_of, push_all, string_of};
use vstd::prelude::*;

verus! {

/// One capture group of a match: the group's name, if it has one, and the
/// text it captured, if it took part in the match.
#[derive(Clone, Debug, PartialEq, Eq)]
pub struct CaptureGroup {
    pub name: Option<String>,
    pub text: Option<String>,
}

/// A capture group as plain text: name and captured text.
pub type Group = (Option<Seq<char>>, Option<Seq<char>>);

/// The text of an optional string.
pub open spec fn text_view(s: Option<String>) -> Option<Seq<char>> {
    match s {
        Some(t) => Some(t@),
        None => None,
    }
}

/// The capture groups of a match as plain text.
pub open spec fn groups_view(groups: Seq<CaptureGroup>) -> Seq<Group> {
    Seq::new(groups.len(), |i: int| (text_view(groups[i].name), text_view(groups[i].text)))
}

/// The names of capture groups as plain text.
pub open spec fn names_view(names: Seq<Option<String>>) -> Seq<Option<Seq<char>>> {
    Seq::new(names.len(), |i: int| text_view(names[i]))
}

/// The prefix that turns on multi-line mode.
pub open spec fn multiline_prefix() -> Seq<char> {
    seq!['(', '?', 'm', ')']
}

/// `regex` in multi-line mode.
pub open spec fn multiline(regex: Seq<char>) -> Seq<char> {
    multiline_prefix() + regex
}

/// Whether `regex::Regex::new` accepts `pattern`.
pub uninterp spec fn compiles(pattern: Seq<char>) -> bool;

/// What `regex::Regex::capture_names` gives for the expression compiled from
/// `pattern`: for each capture group, in the order of the opening
/// parentheses and the whole match first, its name if it has one.
pub uninterp spec fn group_names(pattern: Seq<char>) -> Seq<Option<Seq<char>>>;

/// What `regex::Regex::captures` finds in `haystack` for the expression
/// compiled from `pattern`: nothing, or the capture groups of the leftmost
/// match, in the order of their opening parentheses, the whole match first.
pub uninterp spec fn first_match(pattern: Seq<char>, haystack: Seq<char>) -> Option<Seq<Group>>;

/// Compiles `pattern` with `regex::Regex::new` and reads the names of its
/// capture groups with `Regex::capture_names`.  Returns the engine's error
/// message where it refuses the pattern, and else one entry per capture
/// group, in the order in which `capture_names` yields them.
#[verifier::external_body]
pub(crate) fn capture_names(pattern: &str) -> (res: Result<Vec<Option<String>>, String>)
    ensures
        res is Ok <==> compiles(pattern@),
        res matches Ok(names) ==> names_view(names@) == group_names(pattern@),
{
    let re = regex::Regex::new(pattern).map_err(|e| e.to_string())?;
    Ok(re.capture_names().map(|name| name.map(|n| n.to_string())).collect())
}

/// Compiles `pattern` with `regex::Regex::new` and searches `haystack` with
/// `Regex::captures`.  Returns the engine's error message where it refuses
/// the pattern.  Otherwise returns `None` where nothing matches, and for the
/// leftmost match one entry per capture group, in the order of
/// `Regex::capture_names`: the name that `capture_names` gives and the text
/// that `Captures::get` gives for the group's index.
#[verifier::external_body]
pub(crate) fn search(pattern: &str, haystack: &str) -> (res: Result<
    Option<Vec<CaptureGroup>>,
    String,
>)
    ensures
        res is Ok <==> compiles(pattern@),
        res matches Ok(Some(groups)) ==> first_match(pattern@, haystack@) == Some(
            groups_view(groups@),
        ),
        res matches Ok(None) ==> first_match(pattern@, haystack@) is None,
{
    let re = regex::Regex::new(pattern).map_err(|e| e.to_string())?;
    Ok(
        re.captures(haystack).map(
            |found|
                re.capture_names().enumerate().map(
                    |(i, name)|
                        CaptureGroup {
                            name: name.map(|n| n.to_string()),
                            text: found.get(i).map(|m| m.as_str().to_string()),
                        },
                ).collect(),
        ),
    )
}

/// The pattern that is handed to the engine for `regex`.
pub fn multiline_pattern(regex: &str) -> (res: String)
    ensures
        res@ == multiline(regex@),
{
    let mut out: Vec<char> = Vec::new();
    out.push('(');
    out.push('?');
    out.push('m');
    out.push(')');
    let rest = chars_of(regex);
    push_all(&mut out, &rest);
    assert(out@ =~= multiline(regex@));
    string_of(&out)
}

} // verus!
