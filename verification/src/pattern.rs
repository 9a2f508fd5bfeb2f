//! Regular-expression matching through the `regex` crate.
//!
//! The matching rules of the `regex` crate take pages to state; the results are named by the
//! uninterpreted functions below, each applied to the pattern text and the haystack.
use vstd::prelude::*;

verus! {

/// Whether `regex::Regex::new(pattern)` compiles and its `is_match(text)` holds.
pub uninterp spec fn regex_match(pattern: Seq<char>, text: Seq<char>) -> bool;

/// The text of the leftmost-first match of `pattern` in `text` (`Regex::find`), if any.
pub uninterp spec fn regex_first(pattern: Seq<char>, text: Seq<char>) -> Option<Seq<char>>;

/// The capture groups of the first match of `pattern` in `text` (`Regex::captures`);
/// group `i` is `None` where it did not participate.
pub uninterp spec fn regex_groups(pattern: Seq<char>, text: Seq<char>) -> Option<Seq<Option<Seq<char>>>>;

/// The texts of all successive non-overlapping matches (`Regex::find_iter`).
pub uninterp spec fn regex_all(pattern: Seq<char>, text: Seq<char>) -> Seq<Seq<char>>;

/// `regex::Regex::is_match`; a pattern that does not compile matches nothing.
#[verifier::external_body]
pub(crate) fn re_is_match(pattern: &str, text: &str) -> (r: bool)
    ensures
        r == regex_match(pattern@, text@),
{
    match regex::Regex::new(pattern) {
        Ok(re) => re.is_match(text),
        Err(_) => false,
    }
}

/// `regex::Regex::find`: the matched text of the first match.
#[verifier::external_body]
pub(crate) fn re_find(pattern: &str, text: &str) -> (r: Option<String>)
    ensures
        r matches Some(m) ==> regex_first(pattern@, text@) == Some(m@),
        r is None ==> regex_first(pattern@, text@) is None,
{
    match regex::Regex::new(pattern) {
        Ok(re) => re.find(text).map(|m| m.as_str().to_string()),
        Err(_) => None,
    }
}

/// `regex::Regex::captures`: every group of the first match, in group order.
#[verifier::external_body]
pub(crate) fn re_captures(pattern: &str, text: &str) -> (r: Option<Vec<Option<String>>>)
    ensures
        r is None ==> regex_groups(pattern@, text@) is None,
        r matches Some(g) ==> regex_groups(pattern@, text@) matches Some(sg) && sg.len() == g@.len()
            && forall|i: int|
            0 <= i < g@.len() ==> match #[trigger] g@[i] {
                Some(t) => sg[i] == Some(t@),
                None => sg[i] is None,
            },
{
    match regex::Regex::new(pattern) {
        Ok(re) => re.captures(text).map(
            |c| c.iter().map(|m| m.map(|m| m.as_str().to_string())).collect(),
        ),
        Err(_) => None,
    }
}

/// `regex::Regex::find_iter`: the texts of all matches, in order.
#[verifier::external_body]
pub(crate) fn re_find_all(pattern: &str, text: &str) -> (r: Vec<String>)
    ensures
        r@.len() == regex_all(pattern@, text@).len(),
        forall|i: int| 0 <= i < r@.len() ==> #[trigger] r@[i]@ == regex_all(pattern@, text@)[i],
{
    match regex::Regex::new(pattern) {
        Ok(re) => re.find_iter(text).map(|m| m.as_str().to_string()).collect(),
        Err(_) => Vec::new(),
    }
}

/// Group 1 of each successive non-overlapping match (`Regex::captures_iter`), `None` where
/// the group did not take part in that match.
pub uninterp spec fn regex_group1_all(pattern: Seq<char>, text: Seq<char>) -> Seq<Option<Seq<char>>>;

/// `regex::Regex::captures_iter`, keeping group 1 of each match, in order.
#[verifier::external_body]
pub(crate) fn re_group1_all(pattern: &str, text: &str) -> (r: Vec<Option<String>>)
    ensures
        r@.len() == regex_group1_all(pattern@, text@).len(),
        forall|i: int|
            0 <= i < r@.len() ==> match #[trigger] r@[i] {
                Some(t) => regex_group1_all(pattern@, text@)[i] == Some(t@),
                None => regex_group1_all(pattern@, text@)[i] is None,
            },
{
    match regex::Regex::new(pattern) {
        Ok(re) => re.captures_iter(text).map(|c| c.get(1).map(|m| m.as_str().to_string())).collect(),
        Err(_) => Vec::new(),
    }
}

} // verus!
