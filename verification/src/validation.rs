//! Structural and content rules for one spec or a whole set.
//!
//! Validation is advisory: it reports issues with a severity and never
//! rejects anything. A result is valid exactly when none of its issues is an
//! error.

use vstd::prelude::*;

use crate::constants::{
    invalid_priority_message, invalid_priority_text, invalid_status_message,
    invalid_status_text, is_allowed_priority, is_allowed_status, is_valid_priority,
    is_valid_status,
};
use crate::frontmatter::{
    empty_frontmatter, parse_document, parsed_body, parsed_frontmatter, Frontmatter,
    FrontmatterView,
};
use crate::numbers::{
    decimal, decimal_chars, padded_decimal_chars, signed_decimal, signed_decimal_chars,
};
use crate::reader::{answers_to, reference_number, reference_number_of, Spec, SpecView};
use crate::text::{
    char_is_whitespace, chars_eq, contains, contains_chars, from_chars, is_alnum,
    is_whitespace, lines, push_all, push_str, split_lines, to_chars, trim, trim_chars,
};

verus! {

/// How much an issue weighs.
#[derive(Clone, Copy, Debug, PartialEq, Eq, Structural)]
pub enum IssueSeverity {
    Error,
    Warning,
    Info,
}

/// One finding of validation.
#[derive(Clone, Debug)]
pub struct ValidationIssue {
    pub severity: IssueSeverity,
    pub code: String,
    pub message: String,
    pub line: Option<i32>,
}

/// The model of a [`ValidationIssue`].
pub struct IssueView {
    pub severity: IssueSeverity,
    pub code: Seq<char>,
    pub message: Seq<char>,
    pub line: Option<i32>,
}

impl View for ValidationIssue {
    type V = IssueView;

    open spec fn view(&self) -> IssueView {
        IssueView {
            severity: self.severity,
            code: self.code@,
            message: self.message@,
            line: self.line,
        }
    }
}

impl DeepView for ValidationIssue {
    type V = IssueView;

    open spec fn deep_view(&self) -> IssueView {
        self@
    }
}

/// What validation found in one spec.
#[derive(Clone, Debug)]
pub struct ValidationResult {
    pub spec_name: String,
    pub valid: bool,
    pub issues: Vec<ValidationIssue>,
}

/// The model of a [`ValidationResult`].
pub struct ResultView {
    pub spec_name: Seq<char>,
    pub valid: bool,
    pub issues: Seq<IssueView>,
}

impl View for ValidationResult {
    type V = ResultView;

    open spec fn view(&self) -> ResultView {
        ResultView {
            spec_name: self.spec_name@,
            valid: self.valid,
            issues: self.issues.deep_view(),
        }
    }
}

impl DeepView for ValidationResult {
    type V = ResultView;

    open spec fn deep_view(&self) -> ResultView {
        self@
    }
}

// ---------------------------------------------------------------------------
// Token estimate
// ---------------------------------------------------------------------------

/// Whether a word starts at position `i`: a character that is no white space,
/// at the start of the text or after white space.
pub open spec fn word_starts_at(s: Seq<char>, i: int) -> bool {
    0 <= i < s.len() && !is_whitespace(s[i]) && (i == 0 || is_whitespace(s[i - 1]))
}

/// The number of words in `s`: maximal runs of characters that are no white
/// space.
pub open spec fn word_count(s: Seq<char>) -> nat
    decreases s.len(),
{
    if s.len() == 0 {
        0
    } else {
        word_count(s.drop_last()) + if word_starts_at(s, s.len() - 1) {
            1nat
        } else {
            0nat
        }
    }
}

/// Whether `c` counts as a special character: neither alphanumeric nor white
/// space.
pub open spec fn is_special(c: char) -> bool {
    !is_alnum(c) && !is_whitespace(c)
}

/// The number of special characters in `s`.
pub open spec fn special_count(s: Seq<char>) -> nat
    decreases s.len(),
{
    if s.len() == 0 {
        0
    } else {
        special_count(s.drop_last()) + if is_special(s.last()) {
            1nat
        } else {
            0nat
        }
    }
}

/// The estimated number of tokens in `s`: 1.3 for each word and 0.5 for each
/// special character, rounded up; never more than `i32::MAX`.
pub open spec fn token_estimate(s: Seq<char>) -> int {
    let t = (13 * (word_count(s) as int) + 5 * (special_count(s) as int) + 9) / 10;
    if t > i32::MAX {
        i32::MAX as int
    } else {
        t
    }
}

/// Counting words and special characters of `s` up to `i + 1` adds what
/// position `i` contributes.
proof fn lemma_counts_step(s: Seq<char>, i: int)
    requires
        0 <= i < s.len(),
    ensures
        word_count(s.take(i + 1)) == word_count(s.take(i)) + if word_starts_at(s, i) {
            1nat
        } else {
            0nat
        },
        special_count(s.take(i + 1)) == special_count(s.take(i)) + if is_special(s[i]) {
            1nat
        } else {
            0nat
        },
{
    let t = s.take(i + 1);
    assert(t.drop_last() =~= s.take(i));
    assert(t.last() == s[i]);
    assert(word_starts_at(t, i) == word_starts_at(s, i)) by {
        if i > 0 {
            assert(t[i - 1] == s[i - 1]);
        }
    }
}

/// The number of words and of special characters in `v`.
fn count_tokens(v: &Vec<char>) -> (r: (usize, usize))
    ensures
        r.0 == word_count(v@),
        r.1 == special_count(v@),
{
    let mut words: usize = 0;
    let mut specials: usize = 0;
    let mut in_word: bool = false;
    let mut i: usize = 0;
    while i < v.len()
        invariant
            i <= v.len(),
            words <= i,
            specials <= i,
            words == word_count(v@.take(i as int)),
            specials == special_count(v@.take(i as int)),
            in_word == (i > 0 && !is_whitespace(v@[i - 1])),
        decreases v.len() - i,
    {
        proof {
            lemma_counts_step(v@, i as int);
        }
        let c = v[i];
        let ws = char_is_whitespace(c);
        if !ws && !in_word {
            words += 1;
        }
        if !ws && !c.is_alphanumeric() {
            specials += 1;
        }
        in_word = !ws;
        i += 1;
    }
    assert(v@.take(v.len() as int) =~= v@);
    (words, specials)
}

/// Estimates the number of tokens in a text: 1.3 for each word and 0.5 for
/// each character that is neither alphanumeric nor white space, rounded up.
pub fn estimate_tokens(content: &str) -> (r: i32)
    ensures
        r == token_estimate(content@),
{
    let v = to_chars(content);
    let (words, specials) = count_tokens(&v);
    let total: u128 = (13 * (words as u128) + 5 * (specials as u128) + 9) / 10;
    if total > 0x7fff_ffff {
        0x7fff_ffff
    } else {
        total as i32
    }
}

// ---------------------------------------------------------------------------
// The rules, as a model
// ---------------------------------------------------------------------------

/// An issue without a line number.
pub open spec fn issue(severity: IssueSeverity, code: Seq<char>, message: Seq<char>) -> IssueView {
    IssueView { severity, code, message, line: None }
}

/// A status must be declared, and must be an allowed one.
pub open spec fn status_issues(status: Option<Seq<char>>) -> Seq<IssueView> {
    match status {
        None => seq![
            issue(
                IssueSeverity::Error,
                "missing-status"@,
                "Spec must have a status field in frontmatter"@,
            ),
        ],
        Some(s) => if is_allowed_status(s) {
            Seq::empty()
        } else {
            seq![
                issue(
                    IssueSeverity::Error,
                    "invalid-status"@,
                    invalid_status_message(s),
                ),
            ]
        },
    }
}

/// A declared priority should be an allowed one.
pub open spec fn priority_issues(priority: Option<Seq<char>>) -> Seq<IssueView> {
    match priority {
        None => Seq::empty(),
        Some(p) => if is_allowed_priority(p) {
            Seq::empty()
        } else {
            seq![
                issue(
                    IssueSeverity::Warning,
                    "invalid-priority"@,
                    invalid_priority_message(p),
                ),
            ]
        },
    }
}

/// A spec should have a title.
pub open spec fn title_issues(title: Option<Seq<char>>) -> Seq<IssueView> {
    if title is None {
        seq![
            issue(
                IssueSeverity::Warning,
                "missing-title"@,
                "Spec should have a title (H1 heading)"@,
            ),
        ]
    } else {
        Seq::empty()
    }
}

/// The largest number of lines that a document should have.
pub open spec fn max_lines() -> nat {
    400
}

/// A document should not have more than [`max_lines`] lines.
pub open spec fn length_issues(content: Seq<char>) -> Seq<IssueView> {
    let n = lines(content).len();
    if n > max_lines() {
        seq![
            issue(
                IssueSeverity::Warning,
                "excessive-length"@,
                "Spec has "@ + decimal(n) + " lines, which exceeds recommended maximum of 400"@,
            ),
        ]
    } else {
        Seq::empty()
    }
}

/// Whether a body has an overview section.
pub open spec fn has_overview(body: Seq<char>) -> bool {
    contains(body, "## Overview"@) || contains(body, "## overview"@)
}

/// A body should have an overview section.
pub open spec fn overview_issues(body: Seq<char>) -> Seq<IssueView> {
    if has_overview(body) {
        Seq::empty()
    } else {
        seq![
            issue(
                IssueSeverity::Info,
                "missing-overview"@,
                "Consider adding an ## Overview section"@,
            ),
        ]
    }
}

/// One warning for each dependency reference that is empty once trimmed.
pub open spec fn empty_dependency_issues(deps: Seq<Seq<char>>) -> Seq<IssueView>
    decreases deps.len(),
{
    if deps.len() == 0 {
        Seq::empty()
    } else {
        let rest = empty_dependency_issues(deps.drop_last());
        if trim(deps.last()).len() == 0 {
            rest.push(
                issue(
                    IssueSeverity::Warning,
                    "empty-dependency"@,
                    "Empty dependency in depends_on list"@,
                ),
            )
        } else {
            rest
        }
    }
}

/// The estimate above which a document is large.
pub open spec fn high_tokens() -> int {
    5000
}

/// The estimate above which a document is getting large.
pub open spec fn moderate_tokens() -> int {
    3500
}

/// A warning for a large document, or else a note for one that is getting
/// large; never both.
pub open spec fn token_issues(content: Seq<char>) -> Seq<IssueView> {
    let t = token_estimate(content);
    if t > high_tokens() {
        seq![
            issue(
                IssueSeverity::Warning,
                "high-token-count"@,
                "Estimated "@ + signed_decimal(t) + " tokens. Consider splitting if over 5000."@,
            ),
        ]
    } else if t > moderate_tokens() {
        seq![
            issue(
                IssueSeverity::Info,
                "moderate-token-count"@,
                "Estimated "@ + signed_decimal(t)
                    + " tokens. Consider splitting if content grows."@,
            ),
        ]
    } else {
        Seq::empty()
    }
}

/// The issues of one spec, in the order of the rules: status, priority,
/// title, length, overview, empty dependencies, tokens.
pub open spec fn spec_issues(spec: SpecView, fm: FrontmatterView, body: Seq<char>) -> Seq<
    IssueView,
> {
    status_issues(fm.status) + priority_issues(fm.priority) + title_issues(spec.title)
        + length_issues(spec.content_md) + overview_issues(body) + empty_dependency_issues(
        fm.depends_on,
    ) + token_issues(spec.content_md)
}

/// Whether one of `issues` is an error.
pub open spec fn has_error(issues: Seq<IssueView>) -> bool {
    exists|i: int| 0 <= i < issues.len() && (#[trigger] issues[i]).severity == IssueSeverity::Error
}

/// What validating one spec yields. The frontmatter is parsed again from the
/// stored text of the spec, with `decoded` as the outcome of decoding its YAML.
pub open spec fn validation_of(spec: SpecView, decoded: Option<FrontmatterView>) -> ResultView {
    let fm = parsed_frontmatter(spec.content_md, decoded);
    let body = parsed_body(spec.content_md, decoded is Some);
    let issues = spec_issues(spec, fm, body);
    ResultView { spec_name: spec.spec_name, valid: !has_error(issues), issues }
}

// ---------------------------------------------------------------------------
// The rules, executable
// ---------------------------------------------------------------------------

/// Makes an issue without a line number.
fn make_issue(severity: IssueSeverity, code: &str, message: String) -> (r: ValidationIssue)
    ensures
        r@ == issue(severity, code@, message@),
{
    ValidationIssue { severity, code: code.to_owned(), message, line: None }
}

/// Appends an issue.
fn push_issue(issues: &mut Vec<ValidationIssue>, item: ValidationIssue)
    ensures
        final(issues).deep_view() == old(issues).deep_view().push(item@),
{
    issues.push(item);
    assert(issues.deep_view() =~= old(issues).deep_view().push(item@));
}

/// A text made of a prefix, a quoted part and a suffix.
fn framed(prefix: &str, middle: &Vec<char>, suffix: &str) -> (r: Vec<char>)
    ensures
        r@ == prefix@ + middle@ + suffix@,
{
    let mut r: Vec<char> = Vec::new();
    push_str(&mut r, prefix);
    push_all(&mut r, middle);
    push_str(&mut r, suffix);
    assert(r@ =~= prefix@ + middle@ + suffix@);
    r
}

/// Applies the rule on the status.
fn check_status(issues: &mut Vec<ValidationIssue>, status: Option<&String>)
    ensures
        final(issues).deep_view() == old(issues).deep_view() + status_issues(status.deep_view()),
{
    match status {
        None => {
            push_issue(
                issues,
                make_issue(
                    IssueSeverity::Error,
                    "missing-status",
                    "Spec must have a status field in frontmatter".to_owned(),
                ),
            );
        },
        Some(s) => {
            if !is_valid_status(s.as_str()) {
                push_issue(
                    issues,
                    make_issue(
                        IssueSeverity::Error,
                        "invalid-status",
                        invalid_status_text(s.as_str()),
                    ),
                );
            }
        },
    }
    assert(final(issues).deep_view() =~= old(issues).deep_view() + status_issues(
        status.deep_view(),
    ));
}

/// Applies the rule on the priority.
fn check_priority(issues: &mut Vec<ValidationIssue>, priority: Option<&String>)
    ensures
        final(issues).deep_view() == old(issues).deep_view() + priority_issues(
            priority.deep_view(),
        ),
{
    match priority {
        None => {},
        Some(p) => {
            if !is_valid_priority(p.as_str()) {
                push_issue(
                    issues,
                    make_issue(
                        IssueSeverity::Warning,
                        "invalid-priority",
                        invalid_priority_text(p.as_str()),
                    ),
                );
            }
        },
    }
    assert(final(issues).deep_view() =~= old(issues).deep_view() + priority_issues(
        priority.deep_view(),
    ));
}

/// Applies the rule on the title.
fn check_title(issues: &mut Vec<ValidationIssue>, title: &Option<String>)
    ensures
        final(issues).deep_view() == old(issues).deep_view() + title_issues(title.deep_view()),
{
    if title.is_none() {
        push_issue(
            issues,
            make_issue(
                IssueSeverity::Warning,
                "missing-title",
                "Spec should have a title (H1 heading)".to_owned(),
            ),
        );
    }
    assert(final(issues).deep_view() =~= old(issues).deep_view() + title_issues(
        title.deep_view(),
    ));
}

/// Applies the rule on the number of lines.
fn check_length(issues: &mut Vec<ValidationIssue>, content: &Vec<char>)
    ensures
        final(issues).deep_view() == old(issues).deep_view() + length_issues(content@),
{
    let count = split_lines(content).len();
    if count > 400 {
        let text = framed(
            "Spec has ",
            &decimal_chars(count as u64),
            " lines, which exceeds recommended maximum of 400",
        );
        push_issue(
            issues,
            make_issue(IssueSeverity::Warning, "excessive-length", from_chars(&text)),
        );
    }
    assert(final(issues).deep_view() =~= old(issues).deep_view() + length_issues(content@));
}

/// Applies the rule on the overview section.
fn check_overview(issues: &mut Vec<ValidationIssue>, body: &Vec<char>)
    ensures
        final(issues).deep_view() == old(issues).deep_view() + overview_issues(body@),
{
    let found = contains_chars(body, &to_chars("## Overview")) || contains_chars(
        body,
        &to_chars("## overview"),
    );
    if !found {
        push_issue(
            issues,
            make_issue(
                IssueSeverity::Info,
                "missing-overview",
                "Consider adding an ## Overview section".to_owned(),
            ),
        );
    }
    assert(final(issues).deep_view() =~= old(issues).deep_view() + overview_issues(body@));
}

/// Applies the rule on empty dependency references.
fn check_dependencies(issues: &mut Vec<ValidationIssue>, deps: &Vec<String>)
    ensures
        final(issues).deep_view() == old(issues).deep_view() + empty_dependency_issues(
            deps.deep_view(),
        ),
{
    let mut i: usize = 0;
    assert(deps.deep_view().take(0) =~= Seq::<Seq<char>>::empty());
    assert(issues.deep_view() =~= old(issues).deep_view() + empty_dependency_issues(
        deps.deep_view().take(0),
    ));
    while i < deps.len()
        invariant
            i <= deps.len(),
            issues.deep_view() == old(issues).deep_view() + empty_dependency_issues(
                deps.deep_view().take(i as int),
            ),
        decreases deps.len() - i,
    {
        let ghost before = issues.deep_view();
        let ghost next = deps.deep_view().take(i + 1);
        proof {
            assert(next.drop_last() =~= deps.deep_view().take(i as int));
            assert(next.last() == deps@[i as int]@);
        }
        let t = trim_chars(&to_chars(deps[i].as_str()));
        if t.len() == 0 {
            push_issue(
                issues,
                make_issue(
                    IssueSeverity::Warning,
                    "empty-dependency",
                    "Empty dependency in depends_on list".to_owned(),
                ),
            );
        }
        assert(issues.deep_view() =~= old(issues).deep_view() + empty_dependency_issues(next));
        i += 1;
    }
    assert(deps.deep_view().take(deps.len() as int) =~= deps.deep_view());
}

/// Applies the rule on the token estimate.
fn check_tokens(issues: &mut Vec<ValidationIssue>, content: &str)
    ensures
        final(issues).deep_view() == old(issues).deep_view() + token_issues(content@),
{
    let estimate = estimate_tokens(content);
    if estimate > 5000 {
        let text = framed(
            "Estimated ",
            &signed_decimal_chars(estimate),
            " tokens. Consider splitting if over 5000.",
        );
        push_issue(
            issues,
            make_issue(IssueSeverity::Warning, "high-token-count", from_chars(&text)),
        );
    } else if estimate > 3500 {
        let text = framed(
            "Estimated ",
            &signed_decimal_chars(estimate),
            " tokens. Consider splitting if content grows.",
        );
        push_issue(
            issues,
            make_issue(IssueSeverity::Info, "moderate-token-count", from_chars(&text)),
        );
    }
    assert(final(issues).deep_view() =~= old(issues).deep_view() + token_issues(content@));
}

/// Tests whether one of `issues` is an error.
fn any_error(issues: &Vec<ValidationIssue>) -> (r: bool)
    ensures
        r == has_error(issues.deep_view()),
{
    let mut i: usize = 0;
    while i < issues.len()
        invariant
            i <= issues.len(),
            forall|k: int|
                0 <= k < i ==> (#[trigger] issues.deep_view()[k]).severity
                    != IssueSeverity::Error,
        decreases issues.len() - i,
    {
        assert(issues.deep_view()[i as int] == issues@[i as int]@);
        if issues[i].severity == IssueSeverity::Error {
            return true;
        }
        i += 1;
    }
    false
}

/// The status that a parsed frontmatter declares.
fn declared_status<'a>(fm: Option<&'a Frontmatter>) -> (r: Option<&'a String>)
    ensures
        r.deep_view() == (match fm {
            Some(f) => f@.status,
            None => None,
        }),
{
    match fm {
        Some(f) => f.status.as_ref(),
        None => None,
    }
}

/// The priority that a parsed frontmatter declares.
fn declared_priority<'a>(fm: Option<&'a Frontmatter>) -> (r: Option<&'a String>)
    ensures
        r.deep_view() == (match fm {
            Some(f) => f@.priority,
            None => None,
        }),
{
    match fm {
        Some(f) => f.priority.as_ref(),
        None => None,
    }
}

/// Validates one spec.
///
/// The frontmatter is parsed again from the stored text of the spec;
/// `decoded` is what a YAML decoder made of the frontmatter block of that
/// text, `None` where it is malformed or where there is no block. The issues
/// come in the order of the rules, and the result is valid exactly when none
/// of them is an error.
pub fn validate_spec(spec: &Spec, decoded: Option<&Frontmatter>) -> (r: ValidationResult)
    ensures
        r@ == validation_of(spec@, decoded.deep_view()),
        r.valid == !has_error(r@.issues),
{
    let content = to_chars(spec.content_md.as_str());
    let (fm, body) = parse_document(&content, decoded);
    let ghost fmv = parsed_frontmatter(spec@.content_md, decoded.deep_view());
    let empty: Vec<String> = Vec::new();
    assert(empty.deep_view() =~= empty_frontmatter().depends_on);
    let deps: &Vec<String> = match fm {
        Some(f) => &f.depends_on,
        None => &empty,
    };
    let mut issues: Vec<ValidationIssue> = Vec::new();
    assert(issues.deep_view() =~= Seq::<IssueView>::empty());
    check_status(&mut issues, declared_status(fm));
    check_priority(&mut issues, declared_priority(fm));
    check_title(&mut issues, &spec.title);
    check_length(&mut issues, &content);
    check_overview(&mut issues, &body);
    check_dependencies(&mut issues, deps);
    check_tokens(&mut issues, spec.content_md.as_str());
    assert(issues.deep_view() =~= spec_issues(spec@, fmv, body@));
    let valid = !any_error(&issues);
    ValidationResult { spec_name: spec.spec_name.clone(), valid, issues }
}

// ---------------------------------------------------------------------------
// The whole set
// ---------------------------------------------------------------------------

/// Whether some spec of the set answers to `key`.
pub open spec fn name_known(specs: Seq<SpecView>, key: Seq<char>) -> bool {
    exists|i: int| 0 <= i < specs.len() && answers_to(#[trigger] specs[i], key)
}

/// Whether a dependency reference finds a spec in the set: some spec answers
/// to its trimmed text, or to the number that it names, written bare.
pub open spec fn reference_known(specs: Seq<SpecView>, dep: Seq<char>) -> bool {
    name_known(specs, trim(dep)) || match reference_number(dep) {
        Some(n) => name_known(specs, signed_decimal(n as int)),
        None => false,
    }
}

/// One warning for each dependency reference that is not empty once trimmed
/// and finds no spec in the set.
pub open spec fn broken_dependency_issues(specs: Seq<SpecView>, deps: Seq<Seq<char>>) -> Seq<
    IssueView,
>
    decreases deps.len(),
{
    if deps.len() == 0 {
        Seq::empty()
    } else {
        let rest = broken_dependency_issues(specs, deps.drop_last());
        let dep = deps.last();
        if trim(dep).len() > 0 && !reference_known(specs, dep) {
            rest.push(
                issue(
                    IssueSeverity::Warning,
                    "broken-dependency"@,
                    "Dependency '"@ + dep + "' not found"@,
                ),
            )
        } else {
            rest
        }
    }
}

/// The decoding outcome that belongs to the spec at position `i`: the entry
/// at that position, `None` where the list is too short.
pub open spec fn decoded_for(decoded: Seq<Option<FrontmatterView>>, i: int) -> Option<
    FrontmatterView,
> {
    if 0 <= i < decoded.len() {
        decoded[i]
    } else {
        None
    }
}

/// What validating the spec at position `i` within its set yields: the
/// result of validating it alone, with the broken dependencies of its
/// re-parsed frontmatter appended. Those are warnings: validity is that of
/// the spec alone.
pub open spec fn set_validation_of(
    specs: Seq<SpecView>,
    decoded: Seq<Option<FrontmatterView>>,
    i: int,
) -> ResultView {
    let d = decoded_for(decoded, i);
    let single = validation_of(specs[i], d);
    let fm = parsed_frontmatter(specs[i].content_md, d);
    ResultView {
        spec_name: single.spec_name,
        valid: single.valid,
        issues: single.issues + broken_dependency_issues(specs, fm.depends_on),
    }
}

/// Whether none of `issues` is an error.
pub open spec fn no_errors(issues: Seq<IssueView>) -> bool {
    forall|i: int| 0 <= i < issues.len() ==> (#[trigger] issues[i]).severity
        != IssueSeverity::Error
}

/// Broken dependencies are warned about, never more.
pub proof fn lemma_broken_dependencies_are_warnings(specs: Seq<SpecView>, deps: Seq<Seq<char>>)
    ensures
        no_errors(broken_dependency_issues(specs, deps)),
    decreases deps.len(),
{
    if deps.len() > 0 {
        lemma_broken_dependencies_are_warnings(specs, deps.drop_last());
    }
}

/// Issues that are no errors, put behind others, add no error.
pub proof fn lemma_warnings_add_no_error(issues: Seq<IssueView>, more: Seq<IssueView>)
    requires
        no_errors(more),
    ensures
        has_error(issues + more) == has_error(issues),
{
    let all = issues + more;
    if has_error(issues) {
        let i = choose|i: int|
            0 <= i < issues.len() && (#[trigger] issues[i]).severity == IssueSeverity::Error;
        assert(all[i] == issues[i]);
    }
    if has_error(all) {
        let i = choose|i: int|
            0 <= i < all.len() && (#[trigger] all[i]).severity == IssueSeverity::Error;
        if i < issues.len() {
            assert(all[i] == issues[i]);
        } else {
            assert(all[i] == more[i - issues.len()]);
        }
    }
}

/// Tests whether `spec` answers to `key`.
fn answers(spec: &Spec, key: &Vec<char>) -> (r: bool)
    ensures
        r == answers_to(spec@, key@),
{
    if chars_eq(&to_chars(spec.spec_name.as_str()), key) {
        return true;
    }
    match spec.spec_number {
        Some(n) => chars_eq(&padded_decimal_chars(n), key) || chars_eq(
            &signed_decimal_chars(n),
            key,
        ),
        None => false,
    }
}

/// Tests whether some spec of the set answers to `key`.
fn name_is_known(specs: &[Spec], key: &Vec<char>) -> (r: bool)
    ensures
        r == name_known(specs.deep_view(), key@),
{
    let mut i: usize = 0;
    while i < specs.len()
        invariant
            i <= specs.len(),
            forall|k: int| 0 <= k < i ==> !answers_to(#[trigger] specs.deep_view()[k], key@),
        decreases specs.len() - i,
    {
        assert(specs.deep_view()[i as int] == specs@[i as int]@);
        if answers(&specs[i], key) {
            return true;
        }
        i += 1;
    }
    false
}

/// Tests whether a dependency reference finds a spec in the set.
fn reference_is_known(specs: &[Spec], dep: &Vec<char>) -> (r: bool)
    ensures
        r == reference_known(specs.deep_view(), dep@),
{
    let t = trim_chars(dep);
    if name_is_known(specs, &t) {
        return true;
    }
    match reference_number_of(dep) {
        Some(n) => name_is_known(specs, &signed_decimal_chars(n)),
        None => false,
    }
}

/// Applies the rule on references that find no spec in the set.
fn check_references(issues: &mut Vec<ValidationIssue>, specs: &[Spec], deps: &Vec<String>)
    ensures
        final(issues).deep_view() == old(issues).deep_view() + broken_dependency_issues(
            specs.deep_view(),
            deps.deep_view(),
        ),
{
    let mut i: usize = 0;
    assert(deps.deep_view().take(0) =~= Seq::<Seq<char>>::empty());
    assert(issues.deep_view() =~= old(issues).deep_view() + broken_dependency_issues(
        specs.deep_view(),
        deps.deep_view().take(0),
    ));
    while i < deps.len()
        invariant
            i <= deps.len(),
            issues.deep_view() == old(issues).deep_view() + broken_dependency_issues(
                specs.deep_view(),
                deps.deep_view().take(i as int),
            ),
        decreases deps.len() - i,
    {
        let ghost next = deps.deep_view().take(i + 1);
        proof {
            assert(next.drop_last() =~= deps.deep_view().take(i as int));
            assert(next.last() == deps@[i as int]@);
        }
        let dep = to_chars(deps[i].as_str());
        let t = trim_chars(&dep);
        if t.len() > 0 && !reference_is_known(specs, &dep) {
            let text = framed("Dependency '", &dep, "' not found");
            push_issue(
                issues,
                make_issue(IssueSeverity::Warning, "broken-dependency", from_chars(&text)),
            );
        }
        assert(issues.deep_view() =~= old(issues).deep_view() + broken_dependency_issues(
            specs.deep_view(),
            next,
        ));
        i += 1;
    }
    assert(deps.deep_view().take(deps.len() as int) =~= deps.deep_view());
}

/// Validates the spec at position `i` within its set.
fn validate_in_set(specs: &[Spec], decoded: &[Option<Frontmatter>], i: usize) -> (r:
    ValidationResult)
    requires
        i < specs.len(),
    ensures
        r@ == set_validation_of(specs.deep_view(), decoded.deep_view(), i as int),
        r.valid == !has_error(r@.issues),
{
    proof {
        let views = specs.deep_view();
        let d = decoded_for(decoded.deep_view(), i as int);
        let fm = parsed_frontmatter(views[i as int].content_md, d);
        lemma_broken_dependencies_are_warnings(views, fm.depends_on);
        lemma_warnings_add_no_error(
            validation_of(views[i as int], d).issues,
            broken_dependency_issues(views, fm.depends_on),
        );
    }
    let d: Option<&Frontmatter> = if i < decoded.len() {
        decoded[i].as_ref()
    } else {
        None
    };
    assert(d.deep_view() == decoded_for(decoded.deep_view(), i as int)) by {
        if i < decoded.len() {
            assert(decoded.deep_view()[i as int] == decoded@[i as int].deep_view());
        }
    }
    assert(specs.deep_view()[i as int] == specs@[i as int]@);
    let spec = &specs[i];
    let single = validate_spec(spec, d);
    let content = to_chars(spec.content_md.as_str());
    let (fm, _body) = parse_document(&content, d);
    let empty: Vec<String> = Vec::new();
    assert(empty.deep_view() =~= empty_frontmatter().depends_on);
    let deps: &Vec<String> = match fm {
        Some(f) => &f.depends_on,
        None => &empty,
    };
    let ValidationResult { spec_name, valid, issues } = single;
    let mut issues = issues;
    check_references(&mut issues, specs, deps);
    ValidationResult { spec_name, valid, issues }
}

/// Validates every spec of a set, and checks each dependency reference
/// against the whole set.
///
/// `decoded[i]` is what a YAML decoder made of the frontmatter block of
/// `specs[i]`; a missing entry counts as `None`. The result has one entry for
/// each spec, in order. A dependency reference that finds no spec adds a
/// `broken-dependency` warning; being a warning, it leaves the validity of
/// the spec as validating it alone determines it.
pub fn validate_all_specs(specs: &[Spec], decoded: &[Option<Frontmatter>]) -> (r: Vec<
    ValidationResult,
>)
    ensures
        r.len() == specs.len(),
        forall|i: int| 0 <= i < r.len() ==> (#[trigger] r[i]).valid == !has_error(r[i]@.issues),
        forall|i: int|
            0 <= i < specs.len() ==> (#[trigger] r[i])@ == set_validation_of(
                specs.deep_view(),
                decoded.deep_view(),
                i,
            ),
        forall|i: int|
            0 <= i < specs.len() ==> (#[trigger] r[i]).valid == validation_of(
                specs.deep_view()[i],
                decoded_for(decoded.deep_view(), i),
            ).valid,
{
    let mut r: Vec<ValidationResult> = Vec::new();
    let mut i: usize = 0;
    while i < specs.len()
        invariant
            i <= specs.len(),
            r.len() == i,
            forall|k: int|
                0 <= k < i ==> (#[trigger] r[k])@ == set_validation_of(
                    specs.deep_view(),
                    decoded.deep_view(),
                    k,
                ),
            forall|k: int| 0 <= k < i ==> (#[trigger] r[k]).valid == !has_error(r[k]@.issues),
        decreases specs.len() - i,
    {
        let item = validate_in_set(specs, decoded, i);
        r.push(item);
        i += 1;
    }
    r
}

} // verus!
