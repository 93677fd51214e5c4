//! Regular-expression searches, done by the `regex` crate.
//!
//! Each search compiles its pattern and runs one `regex` method. What the
//! method returns is named by a function of the pattern and the text alone;
//! the library states its own logic over those names.

use vstd::prelude::*;
use crate::text::opt_view;

verus! {

/// The capture groups of the first match of `pattern` in `text`, group 0
/// being the whole match: what `Regex::captures` returns, each group as its
/// text; `None` when nothing matches.
pub uninterp spec fn regex_captures_of(pattern: Seq<char>, text: Seq<char>) -> Option<
    Seq<Option<Seq<char>>>,
>;

/// The first match of `pattern` in `text` and the text after it: what
/// `Regex::find` returns.
pub uninterp spec fn regex_find_of(pattern: Seq<char>, text: Seq<char>) -> Option<
    (Seq<char>, Seq<char>),
>;

/// How many non-overlapping matches of `pattern` `text` holds: what
/// `Regex::find_iter(..).count()` returns.
pub uninterp spec fn regex_count_of(pattern: Seq<char>, text: Seq<char>) -> nat;

/// `text` with every non-overlapping match of `pattern` replaced by `rep`:
/// what `Regex::replace_all` returns.
pub uninterp spec fn regex_replace_all_of(pattern: Seq<char>, text: Seq<char>, rep: Seq<char>) -> Seq<char>;

/// The groups of a match, as plain values.
pub open spec fn groups_view(g: Seq<Option<String>>) -> Seq<Option<Seq<char>>> {
    g.map_values(|x: Option<String>| opt_view(x))
}

pub open spec fn opt_groups_view(o: Option<Vec<Option<String>>>) -> Option<Seq<Option<Seq<char>>>> {
    match o {
        Some(g) => Some(groups_view(g@)),
        None => None,
    }
}

/// Group `i` of a match, when it took part in the match.
pub open spec fn group(g: Seq<Option<Seq<char>>>, i: int) -> Option<Seq<char>> {
    if 0 <= i < g.len() {
        g[i]
    } else {
        None
    }
}

/// `Regex::new(pattern)` and `Regex::captures(text)`: the result is named
/// `regex_captures_of`. A pattern that does not compile gives `None`.
#[verifier::external_body]
pub fn regex_captures(pattern: &str, text: &str) -> (r: Option<Vec<Option<String>>>)
    ensures
        opt_groups_view(r) == regex_captures_of(pattern@, text@),
{
    let re = match regex::Regex::new(pattern) {
        Ok(re) => re,
        Err(_) => return None,
    };
    re.captures(text).map(|c| c.iter().map(|m| m.map(|m| m.as_str().to_string())).collect())
}

/// `Regex::new(pattern)` and `Regex::find(text)`, with the text after the
/// match: the result is named `regex_find_of`. A pattern that does not
/// compile gives `None`.
#[verifier::external_body]
pub fn regex_find(pattern: &str, text: &str) -> (r: Option<(String, String)>)
    ensures
        match r {
            Some(p) => regex_find_of(pattern@, text@) == Some((p.0@, p.1@)),
            None => regex_find_of(pattern@, text@) is None,
        },
{
    let re = match regex::Regex::new(pattern) {
        Ok(re) => re,
        Err(_) => return None,
    };
    re.find(text).map(|m| (m.as_str().to_string(), text[m.end()..].to_string()))
}

/// `Regex::new(pattern)` and `Regex::find_iter(text).count()`: the result
/// is named `regex_count_of`. A pattern that does not compile gives 0.
#[verifier::external_body]
pub fn regex_count(pattern: &str, text: &str) -> (r: usize)
    ensures
        r == regex_count_of(pattern@, text@),
{
    match regex::Regex::new(pattern) {
        Ok(re) => re.find_iter(text).count(),
        Err(_) => 0,
    }
}

/// `Regex::new(pattern)` and `Regex::replace_all(text, rep)`: the result is
/// named `regex_replace_all_of`. A pattern that does not compile leaves the
/// text as it is.
#[verifier::external_body]
pub fn regex_replace_all(pattern: &str, text: &str, rep: &str) -> (r: String)
    ensures
        r@ == regex_replace_all_of(pattern@, text@, rep@),
{
    match regex::Regex::new(pattern) {
        Ok(re) => re.replace_all(text, rep).to_string(),
        Err(_) => text.to_string(),
    }
}

/// Group `i` of a match, or the empty text when it did not take part.
pub fn group_or_empty(g: &Vec<Option<String>>, i: usize) -> (r: String)
    ensures
        r@ == match group(groups_view(g@), i as int) {
            Some(t) => t,
            None => Seq::empty(),
        },
{
    if i < g.len() {
        match &g[i] {
            Some(t) => t.clone(),
            None => String::new(),
        }
    } else {
        String::new()
    }
}

/// Group `i` of a match, when it took part.
pub fn group_opt(g: &Vec<Option<String>>, i: usize) -> (r: Option<String>)
    ensures
        opt_view(r) == group(groups_view(g@), i as int),
{
    if i < g.len() {
        match &g[i] {
            Some(t) => Some(t.clone()),
            None => None,
        }
    } else {
        None
    }
}

} // verus!
