//! Regular expressions: the groups that a pattern captures.
use vstd::prelude::*;

verus! {

/// The texts of captured groups; a group that took no part in the match has none.
pub open spec fn group_views(groups: Option<Vec<Option<String>>>) -> Option<
    Seq<Option<Seq<char>>>,
> {
    match groups {
        Some(v) => Some(
            v@.map_values(
                |g: Option<String>|
                    match g {
                        Some(s) => Some(s@),
                        None => None,
                    },
            ),
        ),
        None => None,
    }
}

/// The groups that the pattern captures at its first match in the text, the whole match in
/// front; nothing where it does not match.
pub uninterp spec fn regex_captures(pattern: Seq<char>, text: Seq<char>) -> Option<
    Seq<Option<Seq<char>>>,
>;

/// `regex::Regex::new` and `regex::Regex::captures`: the captured groups are a function of the
/// pattern and of the text, and are named [`regex_captures`]. A pattern that is none captures
/// nothing.
#[verifier::external_body]
pub(crate) fn captures(pattern: &str, text: &str) -> (r: Option<Vec<Option<String>>>)
    ensures
        group_views(r) == regex_captures(pattern@, text@),
{
    let regex = regex::Regex::new(pattern).ok()?;
    let groups = regex.captures(text)?;
    Some(groups.iter().map(|g| g.map(|m| m.as_str().to_owned())).collect())
}

/// The text of a group, empty where the group took no part in the match.
pub open spec fn group_text(groups: Seq<Option<Seq<char>>>, k: int) -> Seq<char> {
    if 0 <= k < groups.len() && groups[k].is_some() {
        groups[k].unwrap()
    } else {
        Seq::empty()
    }
}

/// The text of a group, empty where the group took no part in the match.
pub fn group(groups: &Vec<Option<String>>, k: usize) -> (r: String)
    ensures
        r@ == group_text(group_views(Some(*groups)).unwrap(), k as int),
{
    if k < groups.len() {
        match &groups[k] {
            Some(s) => s.clone(),
            None => String::new(),
        }
    } else {
        String::new()
    }
}

/// A group that took part in a match has its text, and one that did not, or that there is none of,
/// has the empty text.
pub proof fn law_group_text(groups: Seq<Option<Seq<char>>>, k: int)
    ensures
        0 <= k < groups.len() && groups[k].is_some() ==> group_text(groups, k)
            == groups[k].unwrap(),
        0 <= k < groups.len() && groups[k].is_none() ==> group_text(groups, k).len() == 0,
        k < 0 || k >= groups.len() ==> group_text(groups, k).len() == 0,
{
}

/// The captured groups stand for their texts, one by one.
pub proof fn law_group_views(groups: Vec<Option<String>>, k: int)
    requires
        0 <= k < groups@.len(),
    ensures
        group_views(None).is_none(),
        group_views(Some(groups)) matches Some(texts) && {
            &&& texts.len() == groups@.len()
            &&& groups@[k] matches Some(s) ==> texts[k] == Some(s@)
            &&& groups@[k].is_none() ==> texts[k].is_none()
        },
{
}

} // verus!
