//! Trusted wrappers around the two regular expressions that the filter
//! predicates rely on: user references (mentions and raw ids) and invite
//! links.  Their results are named; everything done with them is verified.

use vstd::prelude::*;

verus! {

/// The runs captured by the user-reference pattern in `s`, in match order.
pub uninterp spec fn user_ref_captures(s: Seq<char>) -> Seq<Seq<char>>;

/// Whether `s` contains an invite link.
pub uninterp spec fn invite_match(s: Seq<char>) -> bool;

/// Relies on `regex::Regex::captures_iter` with the user-reference pattern
/// `(<@!?(\d+)>)|(\d{16,20})`: the captured runs depend on the text alone,
/// and both capture groups match one or more characters.  (`\d` is
/// Unicode-aware here, so a capture may hold non-ASCII digits; the verified
/// decimal parser rejects those runs itself.)
#[verifier::external_body]
pub(crate) fn user_refs(content: &[char]) -> (res: Vec<Vec<char>>)
    ensures
        res@.map_values(|t: Vec<char>| t@) == user_ref_captures(content@),
        forall|i: int| 0 <= i < res@.len() ==> res@[i]@.len() > 0,
{
    let text: String = content.iter().collect();
    let re = regex::Regex::new(r"(<@!?(\d+)>)|(\d{16,20})").unwrap();
    let mut out: Vec<Vec<char>> = Vec::new();
    for caps in re.captures_iter(&text) {
        if let Some(m) = caps.get(2).or_else(|| caps.get(3)) {
            out.push(m.as_str().chars().collect());
        }
    }
    out
}

/// Relies on `regex::Regex::is_match` with the invite-link pattern
/// `(discord\.gg|discord(app)?\.com/invite)/[0-9A-Za-z-]+`: the result
/// depends on the text alone.
#[verifier::external_body]
pub(crate) fn is_invite(content: &[char]) -> (res: bool)
    ensures
        res == invite_match(content@),
{
    let text: String = content.iter().collect();
    let re = regex::Regex::new(r"(discord\.gg|discord(app)?\.com/invite)/[0-9A-Za-z-]+").unwrap();
    re.is_match(&text)
}

} // verus!
