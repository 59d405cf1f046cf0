//! Changing the status of a spec: the rules that admit a change, and the
//! rewrite of the document.
//!
//! The document is rewritten as text, one frontmatter line at a time, so that
//! everything else in it stays as it was written. Only values that fill a
//! single line are found; the file itself is read and written by the caller.

use vstd::prelude::*;

use crate::constants::{invalid_status_message, invalid_status_text, is_allowed_status, is_valid_status};
use crate::frontmatter::{
    block_bounds, block_rest, block_yaml, delimiter_line_at, find_block, is_delimiter_line,
};
use crate::reader::Spec;
use crate::text::{
    from_chars, join, join_chars, lines, push_all, push_str, skip_ws, split_lines, starts_with,
    starts_with_chars, str_eq, sub_chars, texts, to_chars, trim_bounds,
};
use crate::timestamp::{format_rfc3339, rfc3339_text, Timestamp};

verus! {

// ---------------------------------------------------------------------------
// Rewriting one field
// ---------------------------------------------------------------------------

/// Whether a line sets `field`: after its leading white space it begins with
/// the field name and a colon.
pub open spec fn sets_field(line: Seq<char>, field: Seq<char>) -> bool {
    starts_with(line.subrange(skip_ws(line, 0), line.len() as int), field + seq![':'])
}

/// The position of the first line at or after `i` that sets `field`.
pub open spec fn first_setting(ls: Seq<Seq<char>>, field: Seq<char>, i: int) -> Option<int>
    decreases ls.len() - i,
{
    if i < 0 || i >= ls.len() {
        None
    } else if sets_field(ls[i], field) {
        Some(i)
    } else {
        first_setting(ls, field, i + 1)
    }
}

/// The line that sets `field` to `value`.
pub open spec fn field_line(field: Seq<char>, value: Seq<char>) -> Seq<char> {
    field + seq![':', ' '] + value
}

/// A block of YAML text with `field` set to `value`: the first line that sets
/// the field is replaced, and the lines are joined by line feeds; where no
/// line sets it, a line that does is added to the text as it stands.
pub open spec fn updated_yaml(yaml: Seq<char>, field: Seq<char>, value: Seq<char>) -> Seq<char> {
    let ls = lines(yaml);
    match first_setting(ls, field, 0) {
        Some(i) => join(ls.update(i, field_line(field, value)), seq!['\n']),
        None => yaml + seq!['\n'] + field_line(field, value),
    }
}

/// A document with `field` set to `value` in its frontmatter, or what is
/// wrong with the document: it has no frontmatter where it does not begin
/// with a delimiter line, and a malformed one where no later delimiter line
/// closes the block. What follows the closing delimiter is kept as it is.
pub open spec fn updated_document(s: Seq<char>, field: Seq<char>, value: Seq<char>) -> Result<
    Seq<char>,
    Seq<char>,
> {
    if !delimiter_line_at(s, 0) {
        Err("No frontmatter found"@)
    } else {
        match block_bounds(s) {
            None => Err("Malformed frontmatter"@),
            Some(b) => Ok(
                "---\n"@ + updated_yaml(block_yaml(s, b), field, value) + "\n---"@ + block_rest(
                    s,
                    b,
                ),
            ),
        }
    }
}

/// The model of a result that holds texts.
pub open spec fn result_view(r: Result<String, String>) -> Result<Seq<char>, Seq<char>> {
    match r {
        Ok(t) => Ok(t@),
        Err(e) => Err(e@),
    }
}

/// Tests whether a line sets a field, given the field name with its colon.
fn line_sets(line: &Vec<char>, pattern: &Vec<char>) -> (r: bool)
    ensures
        r == starts_with(line@.subrange(skip_ws(line@, 0), line@.len() as int), pattern@),
{
    let (a, _b) = trim_bounds(line);
    let rest = sub_chars(line, a, line.len());
    starts_with_chars(&rest, pattern)
}

/// Sets `field` to `value` in a block of YAML text.
fn update_yaml(yaml: &Vec<char>, field: &Vec<char>, value: &Vec<char>) -> (r: Vec<char>)
    ensures
        r@ == updated_yaml(yaml@, field@, value@),
{
    let mut pattern: Vec<char> = Vec::new();
    push_all(&mut pattern, field);
    pattern.push(':');
    assert(pattern@ =~= field@ + seq![':']);
    let mut new_line: Vec<char> = Vec::new();
    push_all(&mut new_line, field);
    new_line.push(':');
    new_line.push(' ');
    push_all(&mut new_line, value);
    assert(new_line@ =~= field_line(field@, value@));
    let mut ls = split_lines(yaml);
    let mut newline: Vec<char> = Vec::new();
    newline.push('\n');
    assert(newline@ =~= seq!['\n']);
    let mut i: usize = 0;
    while i < ls.len()
        invariant
            i <= ls.len(),
            texts(ls@) == lines(yaml@),
            pattern@ == field@ + seq![':'],
            new_line@ == field_line(field@, value@),
            newline@ == seq!['\n'],
            first_setting(lines(yaml@), field@, 0) == first_setting(
                lines(yaml@),
                field@,
                i as int,
            ),
        decreases ls.len() - i,
    {
        assert(texts(ls@)[i as int] == ls@[i as int]@);
        if line_sets(&ls[i], &pattern) {
            ls.set(i, new_line);
            assert(texts(ls@) =~= lines(yaml@).update(i as int, field_line(field@, value@)));
            return join_chars(&ls, &newline);
        }
        i += 1;
    }
    let mut r: Vec<char> = Vec::new();
    push_all(&mut r, yaml);
    r.push('\n');
    push_all(&mut r, &new_line);
    assert(r@ =~= yaml@ + seq!['\n'] + field_line(field@, value@));
    r
}

/// Sets `field` to `value` in a document held as characters.
fn update_field(content: &Vec<char>, field: &Vec<char>, value: &Vec<char>) -> (r: Result<
    Vec<char>,
    String,
>)
    ensures
        match r {
            Ok(t) => updated_document(content@, field@, value@) == Ok::<Seq<char>, Seq<char>>(t@),
            Err(e) => updated_document(content@, field@, value@) == Err::<Seq<char>, Seq<char>>(
                e@,
            ),
        },
{
    if !is_delimiter_line(content, 0) {
        return Err("No frontmatter found".to_owned());
    }
    match find_block(content) {
        None => Err("Malformed frontmatter".to_owned()),
        Some((start, end, close)) => {
            let yaml = sub_chars(content, start, end);
            let new_yaml = update_yaml(&yaml, field, value);
            let rest = sub_chars(content, close + 3, content.len());
            let mut r: Vec<char> = Vec::new();
            push_str(&mut r, "---\n");
            push_all(&mut r, &new_yaml);
            push_str(&mut r, "\n---");
            push_all(&mut r, &rest);
            assert(r@ =~= "---\n"@ + new_yaml@ + "\n---"@ + rest@);
            Ok(r)
        },
    }
}

/// Sets a field in the frontmatter of a document, as text: the first line of
/// the block that begins with the field name and a colon is replaced by
/// `field: value`; where there is none, that line is added at the end of the
/// block. The error says that the document has no frontmatter, or a malformed
/// one.
pub fn update_frontmatter_field(content: &str, field: &str, value: &str) -> (r: Result<
    String,
    String,
>)
    ensures
        result_view(r) == updated_document(content@, field@, value@),
{
    match update_field(&to_chars(content), &to_chars(field), &to_chars(value)) {
        Ok(t) => Ok(from_chars(&t)),
        Err(e) => Err(e),
    }
}

// ---------------------------------------------------------------------------
// The rules of a status change
// ---------------------------------------------------------------------------

/// Whether a change of status skips the `planned` stage: from `draft`
/// straight to `in-progress` or `complete`.
pub open spec fn skips_planned(current: Seq<char>, new_status: Seq<char>) -> bool {
    current == "draft"@ && (new_status == "in-progress"@ || new_status == "complete"@)
}

/// Whether a change is forced.
pub open spec fn is_forced(force: Option<bool>) -> bool {
    force == Some(true)
}

/// What stands against a change of status, if anything: the new status is not
/// an allowed one, or the change skips the `planned` stage and is not forced.
pub open spec fn status_change_error(
    current: Seq<char>,
    new_status: Seq<char>,
    force: Option<bool>,
) -> Option<Seq<char>> {
    if !is_allowed_status(new_status) {
        Some(invalid_status_message(new_status))
    } else if skips_planned(current, new_status) && !is_forced(force) {
        Some("Cannot skip 'planned' stage. Use force to override."@)
    } else {
        None
    }
}

/// The value written for the time of the update: the text in single quotes.
pub open spec fn quoted(stamp: Seq<char>) -> Seq<char> {
    seq!['\''] + stamp + seq!['\'']
}

/// A document with its status set to `new_status` and its `updated_at` to
/// `stamp`.
pub open spec fn restamped_document(
    content: Seq<char>,
    new_status: Seq<char>,
    stamp: Seq<char>,
) -> Result<Seq<char>, Seq<char>> {
    match updated_document(content, "status"@, new_status) {
        Ok(t) => updated_document(t, "updated_at"@, quoted(stamp)),
        Err(e) => Err(e),
    }
}

/// What a change of status makes of a document: the error that stands
/// against the change, or else the document rewritten.
pub open spec fn status_update_of(
    current: Seq<char>,
    content: Seq<char>,
    new_status: Seq<char>,
    force: Option<bool>,
    stamp: Seq<char>,
) -> Result<Seq<char>, Seq<char>> {
    match status_change_error(current, new_status, force) {
        Some(e) => Err(e),
        None => restamped_document(content, new_status, stamp),
    }
}

/// Tests whether a status may be set at all.
pub fn check_new_status(new_status: &str) -> (r: Result<(), String>)
    ensures
        r is Ok <==> is_allowed_status(new_status@),
        r matches Err(e) ==> e@ == invalid_status_message(new_status@),
{
    if is_valid_status(new_status) {
        Ok(())
    } else {
        Err(invalid_status_text(new_status))
    }
}

/// Tests whether a spec with status `current` may change to `new_status`.
pub fn check_status_change(current: &str, new_status: &str, force: Option<bool>) -> (r: Result<
    (),
    String,
>)
    ensures
        match r {
            Ok(_) => status_change_error(current@, new_status@, force) is None,
            Err(e) => status_change_error(current@, new_status@, force) == Some(e@),
        },
{
    match check_new_status(new_status) {
        Err(e) => {
            return Err(e);
        },
        Ok(_) => {},
    }
    let forced = match force {
        Some(f) => f,
        None => false,
    };
    if str_eq(current, "draft") && (str_eq(new_status, "in-progress") || str_eq(
        new_status,
        "complete",
    )) && !forced {
        return Err("Cannot skip 'planned' stage. Use force to override.".to_owned());
    }
    Ok(())
}

/// Rewrites a document for a new status: sets `status`, then sets
/// `updated_at` to the quoted `stamp`.
pub fn rewrite_status(content: &str, new_status: &str, stamp: &str) -> (r: Result<String, String>)
    ensures
        result_view(r) == restamped_document(content@, new_status@, stamp@),
{
    let status_field = to_chars("status");
    let stamp_field = to_chars("updated_at");
    let mut value: Vec<char> = Vec::new();
    value.push('\'');
    push_str(&mut value, stamp);
    value.push('\'');
    assert(value@ =~= quoted(stamp@));
    match update_field(&to_chars(content), &status_field, &to_chars(new_status)) {
        Err(e) => Err(e),
        Ok(first) => match update_field(&first, &stamp_field, &value) {
            Ok(t) => Ok(from_chars(&t)),
            Err(e) => Err(e),
        },
    }
}

/// Changes the status of a spec whose document is `content`, with `stamp` as
/// the text of the time of the change: the error that stands against the
/// change, or the document to write back.
pub fn apply_status_update(
    spec: &Spec,
    content: &str,
    new_status: &str,
    force: Option<bool>,
    stamp: &str,
) -> (r: Result<String, String>)
    ensures
        result_view(r) == status_update_of(spec@.status, content@, new_status@, force, stamp@),
{
    match check_status_change(spec.status.as_str(), new_status, force) {
        Err(e) => Err(e),
        Ok(_) => rewrite_status(content, new_status, stamp),
    }
}

/// Changes the status of a spec whose document is `content`, at the instant
/// `now`.
///
/// A status outside the allowed set is rejected, and so is a change from
/// `draft` straight to `in-progress` or `complete` unless it is forced.
/// Otherwise the result is the document to write back, with `status` set and
/// `updated_at` set to the RFC 3339 text of `now` in single quotes. `None`
/// where no rule stands against the change but `now` has no such text.
pub fn update_spec_status(
    spec: &Spec,
    content: &str,
    new_status: &str,
    force: Option<bool>,
    now: Timestamp,
) -> (r: Option<Result<String, String>>)
    ensures
        match status_change_error(spec@.status, new_status@, force) {
            Some(e) => r matches Some(Err(t)) && t@ == e,
            None => match rfc3339_text(now.secs, now.nanos) {
                Some(stamp) => r matches Some(out) && result_view(out) == restamped_document(
                    content@,
                    new_status@,
                    stamp,
                ),
                None => r is None,
            },
        },
{
    match check_status_change(spec.status.as_str(), new_status, force) {
        Err(e) => Some(Err(e)),
        Ok(_) => match format_rfc3339(now) {
            Some(stamp) => Some(rewrite_status(content, new_status, stamp.as_str())),
            None => None,
        },
    }
}

} // verus!
