//! Specification records and the loader that builds them from a snapshot of
//! a specs directory.

use vstd::prelude::*;

use crate::frontmatter::{
    created_text, extract_title, instant_of_text, parse_document, parse_optional_instant,
    parsed_body, parsed_frontmatter, title_of, Frontmatter, FrontmatterView,
};
use crate::numbers::{is_digit, padded_decimal, parse_i32, parse_i32_chars, signed_decimal};
use crate::order::{
    insertion_point, lemma_stable_sort, lemma_text_order_transitive, stable_sort, text_before,
    text_order,
};
use crate::text::{
    before_first, before_first_chars, chars_eq, contains, contains_chars, from_chars, lowercase,
    push_all, push_str, starts_with, starts_with_chars, str_eq, texts, to_chars, trim, trim_chars,
};
use crate::timestamp::Timestamp;

verus! {

/// One specification document, as one load pass found it.
#[derive(Clone, Debug)]
pub struct Spec {
    pub id: String,
    pub project_id: String,
    pub spec_number: Option<i32>,
    pub spec_name: String,
    pub title: Option<String>,
    pub status: String,
    pub priority: Option<String>,
    pub tags: Vec<String>,
    pub assignee: Option<String>,
    pub content_md: String,
    pub content_html: Option<String>,
    pub created_at: Option<Timestamp>,
    pub updated_at: Option<Timestamp>,
    pub completed_at: Option<Timestamp>,
    pub file_path: String,
    pub github_url: Option<String>,
    pub synced_at: Timestamp,
    /// The raw dependency references of the frontmatter.
    pub depends_on: Vec<String>,
    /// The names of the specs that depend on this one.
    pub required_by: Vec<String>,
}

/// The model of a [`Spec`].
pub struct SpecView {
    pub id: Seq<char>,
    pub project_id: Seq<char>,
    pub spec_number: Option<i32>,
    pub spec_name: Seq<char>,
    pub title: Option<Seq<char>>,
    pub status: Seq<char>,
    pub priority: Option<Seq<char>>,
    pub tags: Seq<Seq<char>>,
    pub assignee: Option<Seq<char>>,
    pub content_md: Seq<char>,
    pub content_html: Option<Seq<char>>,
    pub created_at: Option<Timestamp>,
    pub updated_at: Option<Timestamp>,
    pub completed_at: Option<Timestamp>,
    pub file_path: Seq<char>,
    pub github_url: Option<Seq<char>>,
    pub synced_at: Timestamp,
    pub depends_on: Seq<Seq<char>>,
    pub required_by: Seq<Seq<char>>,
}

impl View for Spec {
    type V = SpecView;

    open spec fn view(&self) -> SpecView {
        SpecView {
            id: self.id@,
            project_id: self.project_id@,
            spec_number: self.spec_number,
            spec_name: self.spec_name@,
            title: self.title.deep_view(),
            status: self.status@,
            priority: self.priority.deep_view(),
            tags: self.tags.deep_view(),
            assignee: self.assignee.deep_view(),
            content_md: self.content_md@,
            content_html: self.content_html.deep_view(),
            created_at: self.created_at,
            updated_at: self.updated_at,
            completed_at: self.completed_at,
            file_path: self.file_path@,
            github_url: self.github_url.deep_view(),
            synced_at: self.synced_at,
            depends_on: self.depends_on.deep_view(),
            required_by: self.required_by.deep_view(),
        }
    }
}

impl DeepView for Spec {
    type V = SpecView;

    open spec fn deep_view(&self) -> SpecView {
        self@
    }
}

/// A copy of an optional string.
pub fn copy_optional(s: &Option<String>) -> (r: Option<String>)
    ensures
        r.deep_view() == s.deep_view(),
{
    match s {
        Some(t) => Some(t.clone()),
        None => None,
    }
}

impl Spec {
    /// A copy of this record with another list of dependents.
    pub fn with_required_by(&self, required_by: Vec<String>) -> (r: Spec)
        ensures
            r@ == (SpecView { required_by: required_by.deep_view(), ..self@ }),
    {
        Spec {
            id: self.id.clone(),
            project_id: self.project_id.clone(),
            spec_number: self.spec_number,
            spec_name: self.spec_name.clone(),
            title: copy_optional(&self.title),
            status: self.status.clone(),
            priority: copy_optional(&self.priority),
            tags: self.tags.clone(),
            assignee: copy_optional(&self.assignee),
            content_md: self.content_md.clone(),
            content_html: copy_optional(&self.content_html),
            created_at: self.created_at,
            updated_at: self.updated_at,
            completed_at: self.completed_at,
            file_path: self.file_path.clone(),
            github_url: copy_optional(&self.github_url),
            synced_at: self.synced_at,
            depends_on: self.depends_on.clone(),
            required_by,
        }
    }

    /// A copy of this record.
    pub fn duplicate(&self) -> (r: Spec)
        ensures
            r@ == self@,
    {
        self.with_required_by(self.required_by.clone())
    }
}

/// A specification without its content, for list views.
#[derive(Clone, Debug)]
pub struct LightweightSpec {
    pub id: String,
    pub project_id: String,
    pub spec_number: Option<i32>,
    pub spec_name: String,
    pub title: Option<String>,
    pub status: String,
    pub priority: Option<String>,
    pub tags: Vec<String>,
    pub assignee: Option<String>,
    pub created_at: Option<Timestamp>,
    pub updated_at: Option<Timestamp>,
    pub completed_at: Option<Timestamp>,
    pub file_path: String,
    pub github_url: Option<String>,
    pub depends_on: Vec<String>,
    pub required_by: Vec<String>,
    pub sub_specs_count: i32,
}

/// The model of a [`LightweightSpec`].
pub struct LightweightSpecView {
    pub id: Seq<char>,
    pub project_id: Seq<char>,
    pub spec_number: Option<i32>,
    pub spec_name: Seq<char>,
    pub title: Option<Seq<char>>,
    pub status: Seq<char>,
    pub priority: Option<Seq<char>>,
    pub tags: Seq<Seq<char>>,
    pub assignee: Option<Seq<char>>,
    pub created_at: Option<Timestamp>,
    pub updated_at: Option<Timestamp>,
    pub completed_at: Option<Timestamp>,
    pub file_path: Seq<char>,
    pub github_url: Option<Seq<char>>,
    pub depends_on: Seq<Seq<char>>,
    pub required_by: Seq<Seq<char>>,
    pub sub_specs_count: i32,
}

impl View for LightweightSpec {
    type V = LightweightSpecView;

    open spec fn view(&self) -> LightweightSpecView {
        LightweightSpecView {
            id: self.id@,
            project_id: self.project_id@,
            spec_number: self.spec_number,
            spec_name: self.spec_name@,
            title: self.title.deep_view(),
            status: self.status@,
            priority: self.priority.deep_view(),
            tags: self.tags.deep_view(),
            assignee: self.assignee.deep_view(),
            created_at: self.created_at,
            updated_at: self.updated_at,
            completed_at: self.completed_at,
            file_path: self.file_path@,
            github_url: self.github_url.deep_view(),
            depends_on: self.depends_on.deep_view(),
            required_by: self.required_by.deep_view(),
            sub_specs_count: self.sub_specs_count,
        }
    }
}

/// The projection of a spec that a list view shows: every field but the
/// content, and no sub-specs counted.
pub open spec fn lightweight_of(spec: SpecView) -> LightweightSpecView {
    LightweightSpecView {
        id: spec.id,
        project_id: spec.project_id,
        spec_number: spec.spec_number,
        spec_name: spec.spec_name,
        title: spec.title,
        status: spec.status,
        priority: spec.priority,
        tags: spec.tags,
        assignee: spec.assignee,
        created_at: spec.created_at,
        updated_at: spec.updated_at,
        completed_at: spec.completed_at,
        file_path: spec.file_path,
        github_url: spec.github_url,
        depends_on: spec.depends_on,
        required_by: spec.required_by,
        sub_specs_count: 0,
    }
}

impl LightweightSpec {
    /// The projection of `spec` for list views.
    pub fn from_spec(spec: &Spec) -> (r: LightweightSpec)
        ensures
            r@ == lightweight_of(spec@),
    {
        LightweightSpec {
            id: spec.id.clone(),
            project_id: spec.project_id.clone(),
            spec_number: spec.spec_number,
            spec_name: spec.spec_name.clone(),
            title: copy_optional(&spec.title),
            status: spec.status.clone(),
            priority: copy_optional(&spec.priority),
            tags: spec.tags.clone(),
            assignee: copy_optional(&spec.assignee),
            created_at: spec.created_at,
            updated_at: spec.updated_at,
            completed_at: spec.completed_at,
            file_path: spec.file_path.clone(),
            github_url: copy_optional(&spec.github_url),
            depends_on: spec.depends_on.clone(),
            required_by: spec.required_by.clone(),
            sub_specs_count: 0,
        }
    }
}

// ---------------------------------------------------------------------------
// Matching a dependency reference against a spec
// ---------------------------------------------------------------------------

/// The number that a dependency reference names: its trimmed text up to the
/// first hyphen, read as a decimal numeral.
pub open spec fn reference_number(dep: Seq<char>) -> Option<i32> {
    parse_i32(before_first(trim(dep), '-'))
}

/// Whether a dependency reference names the spec with this name and number:
/// it is the name itself, or it names the number.
pub open spec fn reference_matches(dep: Seq<char>, name: Seq<char>, number: Option<i32>) -> bool {
    dep == name || (number is Some && reference_number(dep) == number)
}

/// Whether `spec` answers to `key`: by its name, or, where it has a number, by
/// that number written zero-padded or bare.
pub open spec fn answers_to(spec: SpecView, key: Seq<char>) -> bool {
    spec.spec_name == key || match spec.spec_number {
        Some(n) => padded_decimal(n as int) == key || signed_decimal(n as int) == key,
        None => false,
    }
}

/// Reads the number that a dependency reference names.
pub fn reference_number_of(dep: &Vec<char>) -> (r: Option<i32>)
    ensures
        r == reference_number(dep@),
{
    let t = trim_chars(dep);
    let head = before_first_chars(&t, '-');
    parse_i32_chars(&head)
}

/// Tests whether a dependency reference names the spec with this name and
/// number.
pub fn dependency_matches(dep: &str, spec_name: &str, spec_number: Option<i32>) -> (r: bool)
    ensures
        r == reference_matches(dep@, spec_name@, spec_number),
{
    let d = to_chars(dep);
    let n = to_chars(spec_name);
    if chars_eq(&d, &n) {
        return true;
    }
    match spec_number {
        Some(num) => match reference_number_of(&d) {
            Some(dep_num) => dep_num == num,
            None => false,
        },
        None => false,
    }
}

// ---------------------------------------------------------------------------
// Tags
// ---------------------------------------------------------------------------

/// Whether some spec of the set carries `tag`.
pub open spec fn has_tag(specs: Seq<SpecView>, tag: Seq<char>) -> bool {
    exists|i: int, j: int|
        0 <= i < specs.len() && 0 <= j < specs[i].tags.len() && #[trigger] specs[i].tags[j] == tag
}

/// Whether a tag occurs among the first `j` tags of spec `i` or among the tags
/// of the specs before it.
pub open spec fn has_tag_before(specs: Seq<SpecView>, i: int, j: int, tag: Seq<char>) -> bool {
    exists|a: int, b: int|
        0 <= a < specs.len() && 0 <= b < specs[a].tags.len() && (a < i || (a == i && b < j))
            && #[trigger] specs[a].tags[b] == tag
}

/// Whether each text comes strictly before the next in lexicographic order.
pub open spec fn strictly_ascending(s: Seq<Seq<char>>) -> bool {
    forall|i: int, j: int| 0 <= i < j < s.len() ==> text_before(#[trigger] s[i], #[trigger] s[j])
}

/// Puts `tag` into a strictly ascending list at its place, unless the list
/// holds it already.
fn insert_tag(acc: &mut Vec<Vec<char>>, tag: Vec<char>)
    requires
        strictly_ascending(texts(old(acc)@)),
    ensures
        strictly_ascending(texts(final(acc)@)),
        forall|t: Seq<char>|
            texts(final(acc)@).contains(t) <==> (texts(old(acc)@).contains(t) || t == tag@),
{
    let ghost before = texts(acc@);
    let mut p: usize = 0;
    let mut placed: bool = false;
    while p < acc.len() && !placed
        invariant
            p <= acc.len(),
            acc@ == old(acc)@,
            before == texts(acc@),
            strictly_ascending(before),
            forall|k: int| 0 <= k < p ==> text_before(#[trigger] before[k], tag@),
            placed ==> p < acc.len() && text_before(tag@, before[p as int]),
        decreases acc.len() - p + (if placed { 0int } else { 1int }),
    {
        let order = text_order(&acc[p], &tag);
        assert(before[p as int] == acc@[p as int]@);
        if order == 0 {
            proof {
                assert forall|t: Seq<char>| before.contains(t) <==> (before.contains(t) || t
                    == tag@) by {
                    if t == tag@ {
                        assert(before[p as int] == t);
                    }
                }
            }
            return ;
        }
        if order == 1 {
            placed = true;
        } else {
            p += 1;
        }
    }
    acc.insert(p, tag);
    proof {
        let after = texts(acc@);
        assert(after =~= before.insert(p as int, tag@));
        assert forall|i: int, j: int| 0 <= i < j < after.len() implies text_before(
            #[trigger] after[i],
            #[trigger] after[j],
        ) by {
            if j < p {
                assert(after[i] == before[i] && after[j] == before[j]);
            } else if j == p {
                assert(after[i] == before[i]);
            } else if i < p {
                // before[i] < tag < before[p] <= before[j - 1]
                assert(after[i] == before[i] && after[j] == before[j - 1]);
                assert(text_before(before[i], tag@));
                if j - 1 > p {
                    assert(text_before(before[p as int], before[j - 1]));
                    lemma_text_order_transitive(tag@, before[p as int], before[j - 1]);
                }
                lemma_text_order_transitive(before[i], tag@, before[j - 1]);
            } else if i == p {
                assert(after[j] == before[j - 1]);
                if j - 1 > p {
                    assert(text_before(before[p as int], before[j - 1]));
                    lemma_text_order_transitive(tag@, before[p as int], before[j - 1]);
                }
            } else {
                assert(after[i] == before[i - 1] && after[j] == before[j - 1]);
            }
        }
        assert forall|t: Seq<char>| after.contains(t) <==> (before.contains(t) || t == tag@) by {
            if after.contains(t) {
                let k = choose|k: int| 0 <= k < after.len() && after[k] == t;
                if k < p {
                    assert(before[k] == t);
                } else if k > p {
                    assert(before[k - 1] == t);
                }
            }
            if before.contains(t) {
                let k = choose|k: int| 0 <= k < before.len() && before[k] == t;
                if k < p {
                    assert(after[k] == t);
                } else {
                    assert(after[k + 1] == t);
                }
            }
            if t == tag@ {
                assert(after[p as int] == t);
            }
        }
    }
}

/// The distinct tags of a set of specs, in lexicographic order.
pub fn all_tags(specs: &[Spec]) -> (r: Vec<String>)
    ensures
        strictly_ascending(r.deep_view()),
        forall|t: Seq<char>| r.deep_view().contains(t) <==> has_tag(specs.deep_view(), t),
{
    let ghost views = specs.deep_view();
    let mut acc: Vec<Vec<char>> = Vec::new();
    let mut i: usize = 0;
    while i < specs.len()
        invariant
            i <= specs.len(),
            views == specs.deep_view(),
            strictly_ascending(texts(acc@)),
            forall|t: Seq<char>| texts(acc@).contains(t) <==> has_tag_before(views, i as int, 0, t),
        decreases specs.len() - i,
    {
        assert(views[i as int] == specs@[i as int]@);
        let tags = &specs[i].tags;
        let mut j: usize = 0;
        while j < tags.len()
            invariant
                i < specs.len(),
                j <= tags.len(),
                views == specs.deep_view(),
                views[i as int].tags == tags.deep_view(),
                strictly_ascending(texts(acc@)),
                forall|t: Seq<char>|
                    texts(acc@).contains(t) <==> has_tag_before(views, i as int, j as int, t),
            decreases tags.len() - j,
        {
            let ghost held = texts(acc@);
            let tag = to_chars(tags[j].as_str());
            assert(views[i as int].tags[j as int] == tag@);
            insert_tag(&mut acc, tag);
            proof {
                assert forall|t: Seq<char>| texts(acc@).contains(t) <==> has_tag_before(
                    views,
                    i as int,
                    j + 1,
                    t,
                ) by {
                    if has_tag_before(views, i as int, j + 1, t) {
                        let (a, b) = choose|a: int, b: int|
                            0 <= a < views.len() && 0 <= b < views[a].tags.len() && (a < i || (a
                                == i && b < j + 1)) && #[trigger] views[a].tags[b] == t;
                        if a == i && b == j {
                        } else {
                            assert(has_tag_before(views, i as int, j as int, t));
                        }
                    }
                    if held.contains(t) {
                        assert(has_tag_before(views, i as int, j as int, t));
                        let (a, b) = choose|a: int, b: int|
                            0 <= a < views.len() && 0 <= b < views[a].tags.len() && (a < i || (a
                                == i && b < j)) && #[trigger] views[a].tags[b] == t;
                        assert(views[a].tags[b] == t);
                    }
                    if t == tag@ {
                        assert(views[i as int].tags[j as int] == t);
                    }
                }
            }
            j += 1;
        }
        proof {
            assert forall|t: Seq<char>| texts(acc@).contains(t) <==> has_tag_before(
                views,
                i + 1,
                0,
                t,
            ) by {
                if has_tag_before(views, i + 1, 0, t) {
                    let (a, b) = choose|a: int, b: int|
                        0 <= a < views.len() && 0 <= b < views[a].tags.len() && (a < i + 1 || (a
                            == i + 1 && b < 0)) && #[trigger] views[a].tags[b] == t;
                    assert(views[a].tags[b] == t);
                    assert(has_tag_before(views, i as int, j as int, t));
                }
                if has_tag_before(views, i as int, j as int, t) {
                    let (a, b) = choose|a: int, b: int|
                        0 <= a < views.len() && 0 <= b < views[a].tags.len() && (a < i || (a == i
                            && b < j)) && #[trigger] views[a].tags[b] == t;
                    assert(views[a].tags[b] == t);
                }
            }
        }
        i += 1;
    }
    let mut r: Vec<String> = Vec::new();
    let mut k: usize = 0;
    while k < acc.len()
        invariant
            k <= acc.len(),
            r.len() == k,
            forall|m: int| 0 <= m < k ==> (#[trigger] r@[m])@ == acc@[m]@,
        decreases acc.len() - k,
    {
        r.push(from_chars(&acc[k]));
        k += 1;
    }
    proof {
        assert(r.deep_view() =~= texts(acc@));
        assert forall|t: Seq<char>| has_tag_before(views, specs.len() as int, 0, t) <==> has_tag(
            views,
            t,
        ) by {
            if has_tag(views, t) {
                let (a, b) = choose|a: int, b: int|
                    0 <= a < views.len() && 0 <= b < views[a].tags.len()
                        && #[trigger] views[a].tags[b] == t;
                assert(views[a].tags[b] == t);
            }
            if has_tag_before(views, specs.len() as int, 0, t) {
                let (a, b) = choose|a: int, b: int|
                    0 <= a < views.len() && 0 <= b < views[a].tags.len() && (a < specs.len() || (a
                        == specs.len() && b < 0)) && #[trigger] views[a].tags[b] == t;
                assert(views[a].tags[b] == t);
            }
        }
    }
    r
}

// ---------------------------------------------------------------------------
// What was read from disk
// ---------------------------------------------------------------------------

/// One entry of a specs directory, as it was read from disk.
#[derive(Clone, Debug)]
pub struct SpecDirectory {
    /// The name of the entry.
    pub name: String,
    /// Whether the entry is a directory.
    pub is_dir: bool,
    /// The text of the main document in it, where there is one to read.
    pub readme: Option<String>,
    /// What a YAML decoder made of the frontmatter block of that text; `None`
    /// where the block is malformed or missing.
    pub decoded: Option<Frontmatter>,
}

/// The model of a [`SpecDirectory`].
pub struct SpecDirectoryView {
    pub name: Seq<char>,
    pub is_dir: bool,
    pub readme: Option<Seq<char>>,
    pub decoded: Option<FrontmatterView>,
}

impl View for SpecDirectory {
    type V = SpecDirectoryView;

    open spec fn view(&self) -> SpecDirectoryView {
        SpecDirectoryView {
            name: self.name@,
            is_dir: self.is_dir,
            readme: self.readme.deep_view(),
            decoded: self.decoded.deep_view(),
        }
    }
}

impl DeepView for SpecDirectory {
    type V = SpecDirectoryView;

    open spec fn deep_view(&self) -> SpecDirectoryView {
        self@
    }
}

/// A specs root as it was read from disk: its entries, and those of the
/// `archived` directory in it. A directory that is missing or cannot be listed
/// has no entries.
#[derive(Clone, Debug)]
pub struct SpecTree {
    /// Whether the root exists.
    pub exists: bool,
    pub entries: Vec<SpecDirectory>,
    pub archived: Vec<SpecDirectory>,
}

/// The model of a [`SpecTree`].
pub struct SpecTreeView {
    pub exists: bool,
    pub entries: Seq<SpecDirectoryView>,
    pub archived: Seq<SpecDirectoryView>,
}

impl View for SpecTree {
    type V = SpecTreeView;

    open spec fn view(&self) -> SpecTreeView {
        SpecTreeView {
            exists: self.exists,
            entries: self.entries.deep_view(),
            archived: self.archived.deep_view(),
        }
    }
}

// ---------------------------------------------------------------------------
// Loading, as a model
// ---------------------------------------------------------------------------

/// Whether a directory entry is a candidate spec: a directory, other than the
/// `archived` directory of the root, whose name begins with a decimal digit.
pub open spec fn qualifies(entry: SpecDirectoryView, archived: bool) -> bool {
    entry.is_dir && !(entry.name == "archived"@ && !archived) && entry.name.len() > 0 && is_digit(
        entry.name[0],
    )
}

/// The sequence number of a directory name: the digits in front of its first
/// hyphen.
pub open spec fn number_of_name(name: Seq<char>) -> Option<i32> {
    parse_i32(before_first(name, '-'))
}

/// The path under which a spec is listed.
pub open spec fn listed_path(name: Seq<char>, archived: bool) -> Seq<char> {
    if archived {
        "specs/archived/"@ + name + "/README.md"@
    } else {
        "specs/"@ + name + "/README.md"@
    }
}

/// The spec that a document with a declared status makes.
pub open spec fn spec_from_document(
    project_id: Seq<char>,
    name: Seq<char>,
    content: Seq<char>,
    fm: FrontmatterView,
    body: Seq<char>,
    status: Seq<char>,
    archived: bool,
    now: Timestamp,
) -> SpecView {
    SpecView {
        id: "fs-"@ + name,
        project_id,
        spec_number: number_of_name(name),
        spec_name: name,
        title: title_of(body),
        status: if archived {
            "archived"@
        } else {
            status
        },
        priority: fm.priority,
        tags: fm.tags,
        assignee: fm.assignee,
        content_md: content,
        content_html: None,
        created_at: instant_of_text(created_text(fm)),
        updated_at: instant_of_text(fm.updated_at),
        completed_at: instant_of_text(fm.completed_at),
        file_path: listed_path(name, archived),
        github_url: None,
        synced_at: now,
        depends_on: fm.depends_on,
        required_by: Seq::empty(),
    }
}

/// The spec that a candidate directory holds: it must hold a main document
/// whose frontmatter declares a status.
pub open spec fn spec_in_directory(
    project_id: Seq<char>,
    entry: SpecDirectoryView,
    archived: bool,
    now: Timestamp,
) -> Option<SpecView> {
    match entry.readme {
        None => None,
        Some(content) => {
            let fm = parsed_frontmatter(content, entry.decoded);
            let body = parsed_body(content, entry.decoded is Some);
            match fm.status {
                None => None,
                Some(status) => Some(
                    spec_from_document(
                        project_id,
                        entry.name,
                        content,
                        fm,
                        body,
                        status,
                        archived,
                        now,
                    ),
                ),
            }
        },
    }
}

/// The spec that a directory entry yields, if any.
pub open spec fn loaded_spec(
    project_id: Seq<char>,
    entry: SpecDirectoryView,
    archived: bool,
    now: Timestamp,
) -> Option<SpecView> {
    if qualifies(entry, archived) {
        spec_in_directory(project_id, entry, archived, now)
    } else {
        None
    }
}

/// The specs that the entries of one directory yield, in the order of the
/// entries.
pub open spec fn loaded_from(
    project_id: Seq<char>,
    entries: Seq<SpecDirectoryView>,
    archived: bool,
    now: Timestamp,
) -> Seq<SpecView>
    decreases entries.len(),
{
    if entries.len() == 0 {
        Seq::empty()
    } else {
        let rest = loaded_from(project_id, entries.drop_last(), archived, now);
        match loaded_spec(project_id, entries.last(), archived, now) {
            Some(spec) => rest.push(spec),
            None => rest,
        }
    }
}

/// The specs of a tree before sorting: those of the root, then those of its
/// `archived` directory; none where the root does not exist.
pub open spec fn loaded_tree(project_id: Seq<char>, tree: SpecTreeView, now: Timestamp) -> Seq<
    SpecView,
> {
    if tree.exists {
        loaded_from(project_id, tree.entries, false, now) + loaded_from(
            project_id,
            tree.archived,
            true,
            now,
        )
    } else {
        Seq::empty()
    }
}

/// The key by which specs are sorted: the sequence number, a spec without one
/// before every spec with one.
pub open spec fn number_key(number: Option<i32>) -> int {
    match number {
        Some(n) => n as int,
        None => -0x8000_0001,
    }
}

/// The key function of the sort by sequence number.
pub open spec fn by_number() -> spec_fn(SpecView) -> int {
    |s: SpecView| number_key(s.spec_number)
}

/// Whether no later spec of the set has the name of the spec at `j`.
pub open spec fn is_last_of_name(specs: Seq<SpecView>, j: int) -> bool {
    forall|k: int| j < k < specs.len() ==> (#[trigger] specs[k]).spec_name != specs[j].spec_name
}

/// Whether one of `deps` names the spec with this name and number.
pub open spec fn names_target(deps: Seq<Seq<char>>, name: Seq<char>, number: Option<i32>) -> bool {
    exists|d: int| 0 <= d < deps.len() && reference_matches(#[trigger] deps[d], name, number)
}

/// Whether the spec at `j` counts as a dependent of `target`: it has another
/// name, one of its references names `target`, and it is the last spec of
/// its name (where several specs share a name, the last one speaks for it).
pub open spec fn is_dependent(specs: Seq<SpecView>, j: int, target: SpecView) -> bool {
    is_last_of_name(specs, j) && specs[j].spec_name != target.spec_name && names_target(
        specs[j].depends_on,
        target.spec_name,
        target.spec_number,
    )
}

/// The names of the dependents of `target` among the first `n` specs, in the
/// order of the specs.
pub open spec fn dependents(specs: Seq<SpecView>, target: SpecView, n: int) -> Seq<Seq<char>>
    decreases n,
{
    if n <= 0 {
        Seq::empty()
    } else {
        let rest = dependents(specs, target, n - 1);
        if is_dependent(specs, n - 1, target) {
            rest.push(specs[n - 1].spec_name)
        } else {
            rest
        }
    }
}

/// The set with `required_by` of every spec filled in.
pub open spec fn with_dependents(specs: Seq<SpecView>) -> Seq<SpecView> {
    Seq::new(
        specs.len(),
        |i: int| SpecView { required_by: dependents(specs, specs[i], specs.len() as int), ..specs[i] },
    )
}

/// What loading a tree yields: its specs sorted by sequence number, each
/// with its dependents.
pub open spec fn load_result(project_id: Seq<char>, tree: SpecTreeView, now: Timestamp) -> Seq<
    SpecView,
> {
    with_dependents(stable_sort(loaded_tree(project_id, tree, now), by_number()))
}

// ---------------------------------------------------------------------------
// Loading
// ---------------------------------------------------------------------------

/// Loads specs from a snapshot of a specs directory.
pub struct SpecReader {
    specs_dir: String,
    project_id: String,
}

/// A copy of a list of strings.
fn copy_strings(v: &Vec<String>) -> (r: Vec<String>)
    ensures
        r.deep_view() == v.deep_view(),
{
    v.clone()
}

/// Tests whether a directory entry is a candidate spec.
pub fn is_spec_directory(name: &str, is_dir: bool, is_archived: bool) -> (r: bool)
    ensures
        r == qualifies(
            SpecDirectoryView { name: name@, is_dir, readme: None, decoded: None },
            is_archived,
        ),
{
    if !is_dir {
        return false;
    }
    if str_eq(name, "archived") && !is_archived {
        return false;
    }
    let v = to_chars(name);
    v.len() > 0 && '0' <= v[0] && v[0] <= '9'
}

/// Tests whether the number `a` sorts behind the number `b`.
fn number_after(a: Option<i32>, b: Option<i32>) -> (r: bool)
    ensures
        r == (number_key(a) > number_key(b)),
{
    match a {
        None => false,
        Some(x) => match b {
            None => true,
            Some(y) => x > y,
        },
    }
}

/// Sorts specs by sequence number, specs of equal number staying in their
/// order and specs without a number coming first.
pub fn sort_by_number(specs: &mut Vec<Spec>)
    ensures
        final(specs).deep_view() == stable_sort(old(specs).deep_view(), by_number()),
{
    let ghost orig = specs.deep_view();
    let n = specs.len();
    let mut i: usize = 0;
    assert(specs.deep_view() =~= stable_sort(orig.take(0), by_number()) + orig.skip(0));
    while i < n
        invariant
            i <= n,
            specs.len() == n,
            orig.len() == n,
            specs.deep_view() == stable_sort(orig.take(i as int), by_number()) + orig.skip(
                i as int,
            ),
        decreases n - i,
    {
        let ghost sorted = stable_sort(orig.take(i as int), by_number());
        proof {
            lemma_stable_sort(orig.take(i as int), by_number());
            assert(orig.take(i + 1).drop_last() =~= orig.take(i as int));
            assert(orig.take(i + 1).last() == orig[i as int]);
        }
        let ghost cur = specs.deep_view();
        assert(cur[i as int] == specs@[i as int]@);
        let x = specs.remove(i);
        assert(x@ == orig[i as int]) by {
            assert((sorted + orig.skip(i as int))[i as int] == orig.skip(i as int)[0]);
        }
        assert forall|m: int| 0 <= m < i implies (#[trigger] specs@[m])@ == sorted[m] by {
            assert(cur[m] == (sorted + orig.skip(i as int))[m]);
            assert(cur[m] == specs@[m]@);
        }
        let ghost k = number_key(x.spec_number);
        let mut p: usize = i;
        assert(sorted.take(i as int) =~= sorted);
        while p > 0 && number_after(specs[p - 1].spec_number, x.spec_number)
            invariant
                p <= i,
                i < n,
                specs.len() == n - 1,
                sorted.len() == i,
                k == number_key(x.spec_number),
                k == by_number()(x@),
                forall|m: int| 0 <= m < i ==> (#[trigger] specs@[m])@ == sorted[m],
                insertion_point(sorted, by_number(), k) == insertion_point(
                    sorted.take(p as int),
                    by_number(),
                    k,
                ),
            decreases p,
        {
            assert(sorted.take(p as int).drop_last() =~= sorted.take(p - 1));
            assert(sorted.take(p as int).last() == sorted[p - 1]);
            assert(specs@[p - 1]@ == sorted[p - 1]);
            p -= 1;
        }
        proof {
            if p > 0 {
                assert(sorted.take(p as int).last() == sorted[p - 1]);
                assert(specs@[p - 1]@ == sorted[p - 1]);
            }
            assert(insertion_point(sorted, by_number(), k) == p);
        }
        let ghost mid = specs.deep_view();
        assert(mid =~= sorted + orig.skip(i + 1)) by {
            assert forall|m: int| 0 <= m < mid.len() implies mid[m] == (sorted + orig.skip(
                i + 1,
            ))[m] by {
                if m < i {
                    assert(specs@[m]@ == sorted[m]);
                } else {
                    assert(mid[m] == cur[m + 1]);
                    assert(cur[m + 1] == (sorted + orig.skip(i as int))[m + 1]);
                }
            }
        }
        specs.insert(p, x);
        assert(specs.deep_view() =~= stable_sort(orig.take(i + 1), by_number()) + orig.skip(
            i + 1,
        )) by {
            assert(specs.deep_view() =~= mid.insert(p as int, x@));
            assert(mid.insert(p as int, x@) =~= sorted.insert(p as int, x@) + orig.skip(i + 1));
        }
        i += 1;
    }
    assert(orig.take(n as int) =~= orig);
    assert(specs.deep_view() =~= stable_sort(orig, by_number())) by {
        assert(orig.skip(n as int) =~= Seq::<SpecView>::empty());
    }
}

/// Tests whether one of `deps` names the spec with this name and number.
fn any_reference_matches(deps: &Vec<String>, name: &str, number: Option<i32>) -> (r: bool)
    ensures
        r == names_target(deps.deep_view(), name@, number),
{
    let mut d: usize = 0;
    while d < deps.len()
        invariant
            d <= deps.len(),
            forall|k: int|
                0 <= k < d ==> !reference_matches(#[trigger] deps.deep_view()[k], name@, number),
        decreases deps.len() - d,
    {
        assert(deps.deep_view()[d as int] == deps@[d as int]@);
        if dependency_matches(deps[d].as_str(), name, number) {
            return true;
        }
        d += 1;
    }
    false
}

/// Tests whether no later spec has the name of the spec at `j`.
fn last_of_name(specs: &Vec<Spec>, j: usize) -> (r: bool)
    requires
        j < specs.len(),
    ensures
        r == is_last_of_name(specs.deep_view(), j as int),
{
    let mut k: usize = j + 1;
    while k < specs.len()
        invariant
            j < k <= specs.len(),
            forall|m: int|
                j < m < k ==> (#[trigger] specs.deep_view()[m]).spec_name
                    != specs.deep_view()[j as int].spec_name,
        decreases specs.len() - k,
    {
        assert(specs.deep_view()[k as int] == specs@[k as int]@);
        assert(specs.deep_view()[j as int] == specs@[j as int]@);
        if str_eq(specs[k].spec_name.as_str(), specs[j].spec_name.as_str()) {
            return false;
        }
        k += 1;
    }
    true
}

/// The names of the dependents of the spec at `i`.
fn dependents_of(specs: &Vec<Spec>, i: usize) -> (r: Vec<String>)
    requires
        i < specs.len(),
    ensures
        r.deep_view() == dependents(
            specs.deep_view(),
            specs.deep_view()[i as int],
            specs.len() as int,
        ),
{
    let ghost views = specs.deep_view();
    assert(views[i as int] == specs@[i as int]@);
    let target = &specs[i];
    let mut r: Vec<String> = Vec::new();
    let mut j: usize = 0;
    assert(r.deep_view() =~= dependents(views, views[i as int], 0));
    while j < specs.len()
        invariant
            j <= specs.len(),
            i < specs.len(),
            views == specs.deep_view(),
            target@ == views[i as int],
            r.deep_view() == dependents(views, views[i as int], j as int),
        decreases specs.len() - j,
    {
        assert(views[j as int] == specs@[j as int]@);
        let other = &specs[j];
        let ghost before = r.deep_view();
        if last_of_name(specs, j) && !str_eq(other.spec_name.as_str(), target.spec_name.as_str())
            && any_reference_matches(
            &other.depends_on,
            target.spec_name.as_str(),
            target.spec_number,
        ) {
            r.push(other.spec_name.clone());
            assert(r.deep_view() =~= before.push(other.spec_name@));
        }
        j += 1;
    }
    r
}

/// Fills in `required_by` of every spec: the names of the specs that depend
/// on it.
pub fn build_required_by(specs: Vec<Spec>) -> (r: Vec<Spec>)
    ensures
        r.deep_view() == with_dependents(specs.deep_view()),
{
    let ghost views = specs.deep_view();
    let mut r: Vec<Spec> = Vec::new();
    let mut i: usize = 0;
    while i < specs.len()
        invariant
            i <= specs.len(),
            r.len() == i,
            views == specs.deep_view(),
            forall|m: int| 0 <= m < i ==> (#[trigger] r@[m])@ == with_dependents(views)[m],
        decreases specs.len() - i,
    {
        assert(views[i as int] == specs@[i as int]@);
        let names = dependents_of(&specs, i);
        let item = specs[i].with_required_by(names);
        r.push(item);
        i += 1;
    }
    assert(r.deep_view() =~= with_dependents(views));
    r
}

impl SpecReader {
    /// A reader for the specs directory of one project.
    pub fn new(specs_dir: &str, project_id: &str) -> (r: SpecReader)
        ensures
            r.specs_dir_view() == specs_dir@,
            r.project_id_view() == project_id@,
    {
        SpecReader { specs_dir: specs_dir.to_owned(), project_id: project_id.to_owned() }
    }

    /// The directory that this reader loads from, as a model.
    pub closed spec fn specs_dir_view(&self) -> Seq<char> {
        self.specs_dir@
    }

    /// The project that this reader loads for, as a model.
    pub closed spec fn project_id_view(&self) -> Seq<char> {
        self.project_id@
    }

    /// The directory that this reader loads from.
    pub fn specs_dir(&self) -> (r: &str)
        ensures
            r@ == self.specs_dir_view(),
    {
        self.specs_dir.as_str()
    }

    /// The project that this reader loads for.
    pub fn project_id(&self) -> (r: &str)
        ensures
            r@ == self.project_id_view(),
    {
        self.project_id.as_str()
    }

    /// Loads the spec of one candidate directory: `None` where it holds no
    /// main document, or one whose frontmatter declares no status.
    pub fn load_spec_from_dir(&self, entry: &SpecDirectory, is_archived: bool, now: Timestamp) -> (r:
        Option<Spec>)
        ensures
            r.deep_view() == spec_in_directory(self.project_id_view(), entry@, is_archived, now),
    {
        let content = match &entry.readme {
            Some(c) => c,
            None => {
                return None;
            },
        };
        let chars = to_chars(content.as_str());
        let (fm, body) = parse_document(&chars, entry.decoded.as_ref());
        let fm = match fm {
            Some(f) => f,
            None => {
                return None;
            },
        };
        let status = match &fm.status {
            Some(s) => s,
            None => {
                return None;
            },
        };
        let name = to_chars(entry.name.as_str());
        let spec_number = parse_i32_chars(&before_first_chars(&name, '-'));
        let title = extract_title(from_chars(&body).as_str());
        let mut id: Vec<char> = Vec::new();
        push_str(&mut id, "fs-");
        push_all(&mut id, &name);
        let mut path: Vec<char> = Vec::new();
        if is_archived {
            push_str(&mut path, "specs/archived/");
        } else {
            push_str(&mut path, "specs/");
        }
        push_all(&mut path, &name);
        push_str(&mut path, "/README.md");
        let status: String = if is_archived {
            "archived".to_owned()
        } else {
            status.clone()
        };
        let required_by: Vec<String> = Vec::new();
        assert(required_by.deep_view() =~= Seq::<Seq<char>>::empty());
        assert(id@ =~= "fs-"@ + name@);
        assert(path@ =~= listed_path(name@, is_archived));
        Some(
            Spec {
                id: from_chars(&id),
                project_id: self.project_id.clone(),
                spec_number,
                spec_name: entry.name.clone(),
                title,
                status,
                priority: copy_optional(&fm.priority),
                tags: copy_strings(&fm.tags),
                assignee: copy_optional(&fm.assignee),
                content_md: content.clone(),
                content_html: None,
                created_at: fm.get_created(),
                updated_at: fm.get_updated(),
                completed_at: parse_optional_instant(&fm.completed_at),
                file_path: from_chars(&path),
                github_url: None,
                synced_at: now,
                depends_on: copy_strings(&fm.depends_on),
                required_by,
            },
        )
    }

    /// Loads the specs of one directory and appends them to `specs`, in the
    /// order of the entries. Entries that are no candidates, and candidates
    /// that hold no spec, are passed over.
    pub fn load_specs_from_dir(
        &self,
        entries: &Vec<SpecDirectory>,
        is_archived: bool,
        now: Timestamp,
        specs: &mut Vec<Spec>,
    )
        ensures
            final(specs).deep_view() == old(specs).deep_view() + loaded_from(
                self.project_id_view(),
                entries.deep_view(),
                is_archived,
                now,
            ),
    {
        let ghost pid = self.project_id_view();
        let ghost views = entries.deep_view();
        let mut i: usize = 0;
        assert(views.take(0) =~= Seq::<SpecDirectoryView>::empty());
        assert(specs.deep_view() =~= old(specs).deep_view() + loaded_from(
            pid,
            views.take(0),
            is_archived,
            now,
        ));
        while i < entries.len()
            invariant
                i <= entries.len(),
                pid == self.project_id_view(),
                views == entries.deep_view(),
                specs.deep_view() == old(specs).deep_view() + loaded_from(
                    pid,
                    views.take(i as int),
                    is_archived,
                    now,
                ),
            decreases entries.len() - i,
        {
            let entry = &entries[i];
            let ghost before = specs.deep_view();
            proof {
                assert(views[i as int] == entries@[i as int]@);
                assert(views.take(i + 1).drop_last() =~= views.take(i as int));
                assert(views.take(i + 1).last() == entry@);
            }
            if is_spec_directory(entry.name.as_str(), entry.is_dir, is_archived) {
                match self.load_spec_from_dir(entry, is_archived, now) {
                    Some(spec) => {
                        specs.push(spec);
                        assert(specs.deep_view() =~= before.push(spec@));
                    },
                    None => {},
                }
            }
            assert(specs.deep_view() =~= old(specs).deep_view() + loaded_from(
                pid,
                views.take(i + 1),
                is_archived,
                now,
            ));
            i += 1;
        }
        assert(views.take(entries.len() as int) =~= views);
    }

    /// Loads all specs of a tree: those of the root and of its `archived`
    /// directory, sorted by sequence number (specs without a number first,
    /// specs of equal number in the order in which they were found), each
    /// with the names of its dependents in `required_by`.
    ///
    /// No tree is an error: a missing root yields no specs, and an entry that
    /// is no spec is passed over.
    pub fn load_all(&self, tree: &SpecTree, now: Timestamp) -> (r: Vec<Spec>)
        ensures
            r.deep_view() == load_result(self.project_id_view(), tree@, now),
    {
        let mut specs: Vec<Spec> = Vec::new();
        assert(specs.deep_view() =~= Seq::<SpecView>::empty());
        if tree.exists {
            self.load_specs_from_dir(&tree.entries, false, now, &mut specs);
            self.load_specs_from_dir(&tree.archived, true, now, &mut specs);
        }
        assert(specs.deep_view() =~= loaded_tree(self.project_id_view(), tree@, now));
        sort_by_number(&mut specs);
        build_required_by(specs)
    }
}

// ---------------------------------------------------------------------------
// Queries over a loaded set
// ---------------------------------------------------------------------------

/// One way in which an identifier can name a spec.
#[derive(Clone, Copy, Debug, PartialEq, Eq)]
pub enum Lookup {
    /// The identifier is the sequence number of the spec.
    Number(i32),
    /// The identifier is the name of the spec.
    Name,
    /// The name of the spec is the identifier with a hyphen and more.
    NamePrefix,
    /// The identifier is the stable identifier of the spec.
    Id,
    /// The stable identifier of the spec is `fs-` and the identifier.
    PrefixedId,
}

/// Whether `spec` is named by `key` in the way `how`.
pub open spec fn is_named(how: Lookup, key: Seq<char>, spec: SpecView) -> bool {
    match how {
        Lookup::Number(n) => spec.spec_number == Some(n),
        Lookup::Name => spec.spec_name == key,
        Lookup::NamePrefix => starts_with(spec.spec_name, key + seq!['-']),
        Lookup::Id => spec.id == key,
        Lookup::PrefixedId => spec.id == "fs-"@ + key,
    }
}

/// The position of the first spec at or after `i` that `key` names in the way
/// `how`.
pub open spec fn first_named(specs: Seq<SpecView>, how: Lookup, key: Seq<char>, i: int) -> Option<
    int,
>
    decreases specs.len() - i,
{
    if i < 0 || i >= specs.len() {
        None
    } else if is_named(how, key, specs[i]) {
        Some(i)
    } else {
        first_named(specs, how, key, i + 1)
    }
}

/// The first of two positions that is one.
pub open spec fn or_else(a: Option<int>, b: Option<int>) -> Option<int> {
    if a is Some {
        a
    } else {
        b
    }
}

/// The position of the spec that an identifier names. An identifier that is
/// a decimal numeral names the first spec with that sequence number and no
/// other. Any other identifier names the first spec with that name; failing
/// that, the first whose name is the identifier, a hyphen and more; failing
/// that, the first with that stable identifier; failing that, the first whose
/// stable identifier is `fs-` and the identifier.
pub open spec fn named_position(specs: Seq<SpecView>, key: Seq<char>) -> Option<int> {
    match parse_i32(key) {
        Some(n) => first_named(specs, Lookup::Number(n), key, 0),
        None => or_else(
            first_named(specs, Lookup::Name, key, 0),
            or_else(
                first_named(specs, Lookup::NamePrefix, key, 0),
                or_else(
                    first_named(specs, Lookup::Id, key, 0),
                    first_named(specs, Lookup::PrefixedId, key, 0),
                ),
            ),
        ),
    }
}

/// The spec that an identifier names, if any.
pub open spec fn named_spec(specs: Seq<SpecView>, key: Seq<char>) -> Option<SpecView> {
    match named_position(specs, key) {
        Some(i) => Some(specs[i]),
        None => None,
    }
}

/// Tests whether `spec` is named by `key` in the way `how`.
fn names(how: Lookup, key: &Vec<char>, spec: &Spec) -> (r: bool)
    ensures
        r == is_named(how, key@, spec@),
{
    match how {
        Lookup::Number(n) => match spec.spec_number {
            Some(m) => m == n,
            None => false,
        },
        Lookup::Name => chars_eq(&to_chars(spec.spec_name.as_str()), key),
        Lookup::NamePrefix => {
            let mut prefix: Vec<char> = Vec::new();
            push_all(&mut prefix, key);
            prefix.push('-');
            assert(prefix@ =~= key@ + seq!['-']);
            starts_with_chars(&to_chars(spec.spec_name.as_str()), &prefix)
        },
        Lookup::Id => chars_eq(&to_chars(spec.id.as_str()), key),
        Lookup::PrefixedId => {
            let mut full: Vec<char> = Vec::new();
            push_str(&mut full, "fs-");
            push_all(&mut full, key);
            assert(full@ =~= "fs-"@ + key@);
            chars_eq(&to_chars(spec.id.as_str()), &full)
        },
    }
}

/// The position of the first spec that `key` names in the way `how`.
fn first_position(specs: &[Spec], how: Lookup, key: &Vec<char>) -> (r: Option<usize>)
    ensures
        match r {
            Some(i) => i < specs.len() && first_named(specs.deep_view(), how, key@, 0) == Some(
                i as int,
            ),
            None => first_named(specs.deep_view(), how, key@, 0) is None,
        },
{
    let mut i: usize = 0;
    while i < specs.len()
        invariant
            i <= specs.len(),
            first_named(specs.deep_view(), how, key@, 0) == first_named(
                specs.deep_view(),
                how,
                key@,
                i as int,
            ),
        decreases specs.len() - i,
    {
        assert(specs.deep_view()[i as int] == specs@[i as int]@);
        if names(how, key, &specs[i]) {
            return Some(i);
        }
        i += 1;
    }
    None
}

/// The position of the spec that an identifier names.
fn position_named(specs: &[Spec], key: &Vec<char>) -> (r: Option<usize>)
    ensures
        match r {
            Some(i) => i < specs.len() && named_position(specs.deep_view(), key@) == Some(
                i as int,
            ),
            None => named_position(specs.deep_view(), key@) is None,
        },
{
    match parse_i32_chars(key) {
        Some(n) => first_position(specs, Lookup::Number(n), key),
        None => {
            let by_name = first_position(specs, Lookup::Name, key);
            if by_name.is_some() {
                return by_name;
            }
            let by_prefix = first_position(specs, Lookup::NamePrefix, key);
            if by_prefix.is_some() {
                return by_prefix;
            }
            let by_id = first_position(specs, Lookup::Id, key);
            if by_id.is_some() {
                return by_id;
            }
            first_position(specs, Lookup::PrefixedId, key)
        },
    }
}

/// Finds the spec that an identifier names: a sequence number, a name, the
/// part of a name in front of a hyphen, or a stable identifier with or
/// without its `fs-`.
pub fn find_spec(specs: &[Spec], spec_id: &str) -> (r: Option<Spec>)
    ensures
        r.deep_view() == named_spec(specs.deep_view(), spec_id@),
{
    let key = to_chars(spec_id);
    match position_named(specs, &key) {
        Some(i) => {
            assert(specs.deep_view()[i as int] == specs@[i as int]@);
            Some(specs[i].duplicate())
        },
        None => None,
    }
}

/// What is said of an identifier that names no spec.
pub open spec fn not_found_message(key: Seq<char>) -> Seq<char> {
    "Spec '"@ + key + "' not found"@
}

/// Says of an identifier that it names no spec.
pub fn not_found_text(spec_id: &str) -> (r: String)
    ensures
        r@ == not_found_message(spec_id@),
{
    let mut text: Vec<char> = Vec::new();
    push_str(&mut text, "Spec '");
    push_str(&mut text, spec_id);
    push_str(&mut text, "' not found");
    assert(text@ =~= not_found_message(spec_id@));
    from_chars(&text)
}

/// The spec that an identifier names, or the message that says that there is
/// none.
pub fn require_spec(specs: &[Spec], spec_id: &str) -> (r: Result<Spec, String>)
    ensures
        match r {
            Ok(spec) => named_spec(specs.deep_view(), spec_id@) == Some(spec@),
            Err(e) => named_spec(specs.deep_view(), spec_id@) is None && e@ == not_found_message(
                spec_id@,
            ),
        },
{
    match find_spec(specs, spec_id) {
        Some(spec) => Ok(spec),
        None => Err(not_found_text(spec_id)),
    }
}

/// Whether `spec` goes by exactly this name or stable identifier, the
/// identifier with or without its `fs-`.
pub open spec fn goes_by(spec: SpecView, key: Seq<char>) -> bool {
    is_named(Lookup::Name, key, spec) || is_named(Lookup::Id, key, spec) || is_named(
        Lookup::PrefixedId,
        key,
        spec,
    )
}

/// The position of the first spec at or after `i` that goes by `key`.
pub open spec fn first_going_by(specs: Seq<SpecView>, key: Seq<char>, i: int) -> Option<int>
    decreases specs.len() - i,
{
    if i < 0 || i >= specs.len() {
        None
    } else if goes_by(specs[i], key) {
        Some(i)
    } else {
        first_going_by(specs, key, i + 1)
    }
}

/// Finds the first spec that goes by exactly this name or stable identifier:
/// neither a sequence number nor the front part of a name will do.
pub fn position_by_name_or_id(specs: &[Spec], spec_id: &str) -> (r: Option<usize>)
    ensures
        match r {
            Some(i) => i < specs.len() && first_going_by(specs.deep_view(), spec_id@, 0) == Some(
                i as int,
            ),
            None => first_going_by(specs.deep_view(), spec_id@, 0) is None,
        },
{
    let key = to_chars(spec_id);
    let mut i: usize = 0;
    while i < specs.len()
        invariant
            i <= specs.len(),
            key@ == spec_id@,
            first_going_by(specs.deep_view(), spec_id@, 0) == first_going_by(
                specs.deep_view(),
                spec_id@,
                i as int,
            ),
        decreases specs.len() - i,
    {
        assert(specs.deep_view()[i as int] == specs@[i as int]@);
        let spec = &specs[i];
        if names(Lookup::Name, &key, spec) || names(Lookup::Id, &key, spec) || names(
            Lookup::PrefixedId,
            &key,
            spec,
        ) {
            return Some(i);
        }
        i += 1;
    }
    None
}

/// Whether a spec has this status.
pub open spec fn has_status(status: Seq<char>) -> spec_fn(SpecView) -> bool {
    |s: SpecView| s.status == status
}

/// The text in which a query is looked for where a spec has no title.
pub open spec fn title_text(title: Option<Seq<char>>) -> Seq<char> {
    match title {
        Some(t) => t,
        None => Seq::empty(),
    }
}

/// Whether one of `tags`, in lowercase, holds `needle`.
pub open spec fn some_tag_holds(tags: Seq<Seq<char>>, needle: Seq<char>) -> bool {
    exists|t: int| 0 <= t < tags.len() && contains(lowercase(#[trigger] tags[t]), needle)
}

/// Whether a query finds a spec: the query in lowercase occurs in the name,
/// the title, the document or a tag of the spec, each in lowercase.
pub open spec fn query_finds(spec: SpecView, query: Seq<char>) -> bool {
    let needle = lowercase(query);
    ||| contains(lowercase(spec.spec_name), needle)
    ||| contains(lowercase(title_text(spec.title)), needle)
    ||| contains(lowercase(spec.content_md), needle)
    ||| some_tag_holds(spec.tags, needle)
}

/// Whether a query finds a spec, as a function of the spec.
pub open spec fn found_by(query: Seq<char>) -> spec_fn(SpecView) -> bool {
    |s: SpecView| query_finds(s, query)
}

/// Tests whether `text`, in lowercase, holds `needle`.
fn lowercase_holds(text: &str, needle: &Vec<char>) -> (r: bool)
    ensures
        r == contains(lowercase(text@), needle@),
{
    let lower = text.to_lowercase();
    contains_chars(&to_chars(lower.as_str()), needle)
}

/// Tests whether a query, already in lowercase, finds a spec.
fn finds(spec: &Spec, needle: &Vec<char>) -> (r: bool)
    ensures
        r == (contains(lowercase(spec@.spec_name), needle@) || contains(
            lowercase(title_text(spec@.title)),
            needle@,
        ) || contains(lowercase(spec@.content_md), needle@) || some_tag_holds(
            spec@.tags,
            needle@,
        )),
{
    if lowercase_holds(spec.spec_name.as_str(), needle) {
        return true;
    }
    let in_title = match &spec.title {
        Some(t) => lowercase_holds(t.as_str(), needle),
        None => {
            let none = String::new();
            lowercase_holds(none.as_str(), needle)
        },
    };
    if in_title {
        return true;
    }
    if lowercase_holds(spec.content_md.as_str(), needle) {
        return true;
    }
    let mut t: usize = 0;
    while t < spec.tags.len()
        invariant
            t <= spec.tags.len(),
            forall|k: int|
                0 <= k < t ==> !contains(lowercase(#[trigger] spec@.tags[k]), needle@),
        decreases spec.tags.len() - t,
    {
        assert(spec@.tags[t as int] == spec.tags@[t as int]@);
        if lowercase_holds(spec.tags[t].as_str(), needle) {
            return true;
        }
        t += 1;
    }
    false
}

/// The specs with this status, in order.
pub fn filter_by_status(specs: &[Spec], status: &str) -> (r: Vec<Spec>)
    ensures
        r.deep_view() == specs.deep_view().filter(has_status(status@)),
{
    let ghost views = specs.deep_view();
    let ghost keep = has_status(status@);
    let mut r: Vec<Spec> = Vec::new();
    let mut i: usize = 0;
    proof {
        reveal(Seq::filter);
        assert(views.take(0) =~= Seq::<SpecView>::empty());
        assert(r.deep_view() =~= views.take(0).filter(keep));
    }
    while i < specs.len()
        invariant
            i <= specs.len(),
            views == specs.deep_view(),
            keep == has_status(status@),
            r.deep_view() == views.take(i as int).filter(keep),
        decreases specs.len() - i,
    {
        let ghost before = r.deep_view();
        proof {
            reveal(Seq::filter);
            assert(views[i as int] == specs@[i as int]@);
            assert(views.take(i + 1).drop_last() =~= views.take(i as int));
            assert(views.take(i + 1).last() == specs@[i as int]@);
        }
        if str_eq(specs[i].status.as_str(), status) {
            r.push(specs[i].duplicate());
            assert(r.deep_view() =~= before.push(specs@[i as int]@));
        }
        i += 1;
    }
    assert(views.take(specs.len() as int) =~= views);
    r
}

/// The specs that a query finds, in order. Case is ignored; the query is
/// looked for in the name, the title, the document and the tags.
pub fn search_specs(specs: &[Spec], query: &str) -> (r: Vec<Spec>)
    ensures
        r.deep_view() == specs.deep_view().filter(found_by(query@)),
{
    let ghost views = specs.deep_view();
    let ghost keep = found_by(query@);
    let needle = to_chars(query.to_lowercase().as_str());
    let mut r: Vec<Spec> = Vec::new();
    let mut i: usize = 0;
    proof {
        reveal(Seq::filter);
        assert(views.take(0) =~= Seq::<SpecView>::empty());
        assert(r.deep_view() =~= views.take(0).filter(keep));
    }
    while i < specs.len()
        invariant
            i <= specs.len(),
            views == specs.deep_view(),
            keep == found_by(query@),
            needle@ == lowercase(query@),
            r.deep_view() == views.take(i as int).filter(keep),
        decreases specs.len() - i,
    {
        let ghost before = r.deep_view();
        proof {
            reveal(Seq::filter);
            assert(views[i as int] == specs@[i as int]@);
            assert(views.take(i + 1).drop_last() =~= views.take(i as int));
            assert(views.take(i + 1).last() == specs@[i as int]@);
        }
        if finds(&specs[i], &needle) {
            r.push(specs[i].duplicate());
            assert(r.deep_view() =~= before.push(specs@[i as int]@));
        }
        i += 1;
    }
    assert(views.take(specs.len() as int) =~= views);
    r
}

impl SpecReader {
    /// Loads the tree and finds the spec that an identifier names.
    pub fn load_spec(&self, tree: &SpecTree, now: Timestamp, spec_id: &str) -> (r: Option<Spec>)
        ensures
            r.deep_view() == named_spec(
                load_result(self.project_id_view(), tree@, now),
                spec_id@,
            ),
    {
        let specs = self.load_all(tree, now);
        let all = specs.as_slice();
        assert(all.deep_view() =~= specs.deep_view());
        find_spec(all, spec_id)
    }

    /// Loads the tree and keeps the specs with this status.
    pub fn get_by_status(&self, tree: &SpecTree, now: Timestamp, status: &str) -> (r: Vec<Spec>)
        ensures
            r.deep_view() == load_result(self.project_id_view(), tree@, now).filter(
                has_status(status@),
            ),
    {
        let specs = self.load_all(tree, now);
        let all = specs.as_slice();
        assert(all.deep_view() =~= specs.deep_view());
        filter_by_status(all, status)
    }

    /// Loads the tree and keeps the specs that a query finds.
    pub fn search(&self, tree: &SpecTree, now: Timestamp, query: &str) -> (r: Vec<Spec>)
        ensures
            r.deep_view() == load_result(self.project_id_view(), tree@, now).filter(
                found_by(query@),
            ),
    {
        let specs = self.load_all(tree, now);
        let all = specs.as_slice();
        assert(all.deep_view() =~= specs.deep_view());
        search_specs(all, query)
    }

    /// Loads the tree and lists the distinct tags of its specs in
    /// lexicographic order.
    pub fn get_all_tags(&self, tree: &SpecTree, now: Timestamp) -> (r: Vec<String>)
        ensures
            strictly_ascending(r.deep_view()),
            forall|t: Seq<char>|
                r.deep_view().contains(t) <==> has_tag(
                    load_result(self.project_id_view(), tree@, now),
                    t,
                ),
    {
        let specs = self.load_all(tree, now);
        let all = specs.as_slice();
        assert(all.deep_view() =~= specs.deep_view());
        all_tags(all)
    }
}

} // verus!
