//! The values that a status and a priority may take.

use vstd::prelude::*;

use crate::text::{from_chars, join, join_chars, push_all, push_str, str_eq, texts, to_chars};

verus! {

/// The allowed status values, in the order in which messages list them.
pub open spec fn allowed_statuses() -> Seq<Seq<char>> {
    seq!["draft"@, "planned"@, "in-progress"@, "complete"@, "archived"@]
}

/// The allowed priority values, in the order in which messages list them.
pub open spec fn allowed_priorities() -> Seq<Seq<char>> {
    seq!["critical"@, "high"@, "medium"@, "low"@]
}

/// Whether `s` is an allowed status.
pub open spec fn is_allowed_status(s: Seq<char>) -> bool {
    s == "draft"@ || s == "planned"@ || s == "in-progress"@ || s == "complete"@ || s
        == "archived"@
}

/// Whether `s` is an allowed priority.
pub open spec fn is_allowed_priority(s: Seq<char>) -> bool {
    s == "critical"@ || s == "high"@ || s == "medium"@ || s == "low"@
}

/// Whether a spec with status `s` counts as active: not yet complete or
/// archived.
pub open spec fn is_active_status(s: Seq<char>) -> bool {
    s == "draft"@ || s == "planned"@ || s == "in-progress"@
}

/// Tests whether `s` is an allowed status.
pub fn is_valid_status(s: &str) -> (r: bool)
    ensures
        r == is_allowed_status(s@),
{
    str_eq(s, "draft") || str_eq(s, "planned") || str_eq(s, "in-progress") || str_eq(s, "complete")
        || str_eq(s, "archived")
}

/// Tests whether `s` is an allowed priority.
pub fn is_valid_priority(s: &str) -> (r: bool)
    ensures
        r == is_allowed_priority(s@),
{
    str_eq(s, "critical") || str_eq(s, "high") || str_eq(s, "medium") || str_eq(s, "low")
}

/// The allowed status values.
pub fn valid_statuses() -> (r: Vec<Vec<char>>)
    ensures
        texts(r@) == allowed_statuses(),
{
    let mut r: Vec<Vec<char>> = Vec::new();
    r.push(to_chars("draft"));
    r.push(to_chars("planned"));
    r.push(to_chars("in-progress"));
    r.push(to_chars("complete"));
    r.push(to_chars("archived"));
    assert(texts(r@) =~= allowed_statuses());
    r
}

/// The allowed priority values.
pub fn valid_priorities() -> (r: Vec<Vec<char>>)
    ensures
        texts(r@) == allowed_priorities(),
{
    let mut r: Vec<Vec<char>> = Vec::new();
    r.push(to_chars("critical"));
    r.push(to_chars("high"));
    r.push(to_chars("medium"));
    r.push(to_chars("low"));
    assert(texts(r@) =~= allowed_priorities());
    r
}

/// What is said of a status that is not allowed.
pub open spec fn invalid_status_message(status: Seq<char>) -> Seq<char> {
    "Invalid status '"@ + status + "'. Must be one of: "@ + join(allowed_statuses(), ", "@)
}

/// What is said of a priority that is not allowed.
pub open spec fn invalid_priority_message(priority: Seq<char>) -> Seq<char> {
    "Invalid priority '"@ + priority + "'. Recommended: "@ + join(allowed_priorities(), ", "@)
}

/// Says of a status that it is not allowed, and which are.
pub fn invalid_status_text(status: &str) -> (r: String)
    ensures
        r@ == invalid_status_message(status@),
{
    let mut text: Vec<char> = Vec::new();
    push_str(&mut text, "Invalid status '");
    push_str(&mut text, status);
    push_str(&mut text, "'. Must be one of: ");
    let list = join_chars(&valid_statuses(), &to_chars(", "));
    push_all(&mut text, &list);
    assert(text@ =~= invalid_status_message(status@));
    from_chars(&text)
}

/// Says of a priority that it is not allowed, and which are recommended.
pub fn invalid_priority_text(priority: &str) -> (r: String)
    ensures
        r@ == invalid_priority_message(priority@),
{
    let mut text: Vec<char> = Vec::new();
    push_str(&mut text, "Invalid priority '");
    push_str(&mut text, priority);
    push_str(&mut text, "'. Recommended: ");
    let list = join_chars(&valid_priorities(), &to_chars(", "));
    push_all(&mut text, &list);
    assert(text@ =~= invalid_priority_message(priority@));
    from_chars(&text)
}

} // verus!
