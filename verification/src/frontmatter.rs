//! The metadata block at the head of a specification document.
//!
//! A document may open with a block of YAML between two delimiter lines. This
//! module finds that block, hands back what a YAML decoder made of it together
//! with the body that follows, and reads the title out of a body. Decoding the
//! YAML text itself is the caller's part: the functions here take its outcome.

use std::collections::HashMap;
use vstd::prelude::*;

use crate::text::{
    from_chars, lines, split_lines, starts_with, starts_with_chars, string_of, sub_chars, texts,
    to_chars, trim, trim_chars,
};
use crate::timestamp::{instant_of, parse_rfc3339, rfc3339_instant, Timestamp};

verus! {

/// A YAML value of `serde_yaml`, carried through unread.
#[verifier::external_type_specification]
#[verifier::external_body]
pub struct ExYamlValue(serde_yaml::Value);

/// One recorded change of status.
#[derive(Clone, Debug)]
pub struct StatusTransition {
    pub from: String,
    pub to: String,
    pub at: String,
}

/// The model of a [`StatusTransition`].
pub struct StatusTransitionView {
    pub from: Seq<char>,
    pub to: Seq<char>,
    pub at: Seq<char>,
}

impl View for StatusTransition {
    type V = StatusTransitionView;

    open spec fn view(&self) -> StatusTransitionView {
        StatusTransitionView { from: self.from@, to: self.to@, at: self.at@ }
    }
}

impl DeepView for StatusTransition {
    type V = StatusTransitionView;

    open spec fn deep_view(&self) -> StatusTransitionView {
        self@
    }
}

/// The decoded metadata of a document. Every recognised field may be absent;
/// keys that are not recognised are kept in `extra`.
#[derive(Clone, Debug)]
pub struct Frontmatter {
    pub status: Option<String>,
    pub priority: Option<String>,
    pub tags: Vec<String>,
    pub assignee: Option<String>,
    pub created: Option<String>,
    pub created_at: Option<String>,
    pub updated_at: Option<String>,
    pub completed_at: Option<String>,
    pub depends_on: Vec<String>,
    pub transitions: Vec<StatusTransition>,
    pub extra: HashMap<String, serde_yaml::Value>,
}

/// The model of a [`Frontmatter`].
pub struct FrontmatterView {
    pub status: Option<Seq<char>>,
    pub priority: Option<Seq<char>>,
    pub tags: Seq<Seq<char>>,
    pub assignee: Option<Seq<char>>,
    pub created: Option<Seq<char>>,
    pub created_at: Option<Seq<char>>,
    pub updated_at: Option<Seq<char>>,
    pub completed_at: Option<Seq<char>>,
    pub depends_on: Seq<Seq<char>>,
    pub transitions: Seq<StatusTransitionView>,
    pub extra: Map<String, serde_yaml::Value>,
}

impl View for Frontmatter {
    type V = FrontmatterView;

    open spec fn view(&self) -> FrontmatterView {
        FrontmatterView {
            status: self.status.deep_view(),
            priority: self.priority.deep_view(),
            tags: self.tags.deep_view(),
            assignee: self.assignee.deep_view(),
            created: self.created.deep_view(),
            created_at: self.created_at.deep_view(),
            updated_at: self.updated_at.deep_view(),
            completed_at: self.completed_at.deep_view(),
            depends_on: self.depends_on.deep_view(),
            transitions: self.transitions.deep_view(),
            extra: self.extra@,
        }
    }
}

impl DeepView for Frontmatter {
    type V = FrontmatterView;

    open spec fn deep_view(&self) -> FrontmatterView {
        self@
    }
}

/// The frontmatter of a document that declares nothing.
pub open spec fn empty_frontmatter() -> FrontmatterView {
    FrontmatterView {
        status: None,
        priority: None,
        tags: Seq::empty(),
        assignee: None,
        created: None,
        created_at: None,
        updated_at: None,
        completed_at: None,
        depends_on: Seq::empty(),
        transitions: Seq::empty(),
        extra: Map::empty(),
    }
}

impl Default for Frontmatter {
    fn default() -> (r: Frontmatter)
        ensures
            r@ == empty_frontmatter(),
    {
        let r = Frontmatter {
            status: None,
            priority: None,
            tags: Vec::new(),
            assignee: None,
            created: None,
            created_at: None,
            updated_at: None,
            completed_at: None,
            depends_on: Vec::new(),
            transitions: Vec::new(),
            extra: HashMap::new(),
        };
        assert(r.tags.deep_view() =~= Seq::<Seq<char>>::empty());
        assert(r.depends_on.deep_view() =~= Seq::<Seq<char>>::empty());
        assert(r.transitions.deep_view() =~= Seq::<StatusTransitionView>::empty());
        assert(r.extra@ =~= Map::<String, serde_yaml::Value>::empty());
        r
    }
}

/// The text to read a creation time from: `created_at` where it is given,
/// else `created`.
pub open spec fn created_text(fm: FrontmatterView) -> Option<Seq<char>> {
    match fm.created_at {
        Some(t) => Some(t),
        None => fm.created,
    }
}

/// The instant that an optional text denotes.
pub open spec fn instant_of_text(text: Option<Seq<char>>) -> Option<Timestamp> {
    match text {
        Some(t) => instant_of(rfc3339_instant(t)),
        None => None,
    }
}

/// Reads an optional RFC 3339 text as an instant.
pub fn parse_optional_instant(text: &Option<String>) -> (r: Option<Timestamp>)
    ensures
        r == instant_of_text(text.deep_view()),
{
    match text {
        Some(t) => parse_rfc3339(t.as_str()),
        None => None,
    }
}

impl Frontmatter {
    /// The declared status, `planned` where none is declared.
    pub fn status_or_default(&self) -> (r: &str)
        ensures
            r@ == (match self@.status {
                Some(s) => s,
                None => "planned"@,
            }),
    {
        match &self.status {
            Some(s) => s.as_str(),
            None => "planned",
        }
    }

    /// The declared priority, `medium` where none is declared.
    pub fn priority_or_default(&self) -> (r: &str)
        ensures
            r@ == (match self@.priority {
                Some(s) => s,
                None => "medium"@,
            }),
    {
        match &self.priority {
            Some(s) => s.as_str(),
            None => "medium",
        }
    }

    /// The creation time: `created_at` where it is given, else `created`, read
    /// as an RFC 3339 date; `None` where the chosen text is missing or is no
    /// such date.
    pub fn get_created(&self) -> (r: Option<Timestamp>)
        ensures
            r == instant_of_text(created_text(self@)),
    {
        match &self.created_at {
            Some(t) => parse_rfc3339(t.as_str()),
            None => parse_optional_instant(&self.created),
        }
    }

    /// The time of the last update, read as an RFC 3339 date; `None` where
    /// `updated_at` is missing or is no such date.
    pub fn get_updated(&self) -> (r: Option<Timestamp>)
        ensures
            r == instant_of_text(self@.updated_at),
    {
        parse_optional_instant(&self.updated_at)
    }
}

// ---------------------------------------------------------------------------
// The block between the delimiter lines
// ---------------------------------------------------------------------------

/// Whether three dashes stand at position `i`.
pub open spec fn dashes_at(s: Seq<char>, i: int) -> bool {
    0 <= i && i + 3 <= s.len() && s[i] == '-' && s[i + 1] == '-' && s[i + 2] == '-'
}

/// Whether a line ends at position `i`: the text ends there, or a line feed
/// stands there, or a carriage return and a line feed.
pub open spec fn line_ends_at(s: Seq<char>, i: int) -> bool {
    ||| i == s.len()
    ||| (0 <= i < s.len() && s[i] == '\n')
    ||| (0 <= i && i + 1 < s.len() && s[i] == '\r' && s[i + 1] == '\n')
}

/// Whether the line that starts at `i` is a delimiter line: three dashes and
/// nothing else.
pub open spec fn delimiter_line_at(s: Seq<char>, i: int) -> bool {
    dashes_at(s, i) && line_ends_at(s, i + 3)
}

/// Whether a line starts at position `i` of a block that starts at `start`.
pub open spec fn line_starts_at(s: Seq<char>, start: int, i: int) -> bool {
    i == start || (start < i <= s.len() && s[i - 1] == '\n')
}

/// The start of the first delimiter line at or after `i`, in a block that
/// starts at `start`; `None` if there is none.
pub open spec fn closing_line(s: Seq<char>, start: int, i: int) -> Option<int>
    decreases s.len() - i,
{
    if i < 0 || i + 3 > s.len() {
        None
    } else if line_starts_at(s, start, i) && delimiter_line_at(s, i) {
        Some(i)
    } else {
        closing_line(s, start, i + 1)
    }
}

/// First position at or after `i` that holds neither a line feed nor a
/// carriage return.
pub open spec fn skip_line_breaks(s: Seq<char>, i: int) -> int
    decreases s.len() - i,
{
    if 0 <= i < s.len() && (s[i] == '\n' || s[i] == '\r') {
        skip_line_breaks(s, i + 1)
    } else {
        i
    }
}

/// Where the frontmatter block of a document lies.
pub struct BlockBounds {
    /// Start of the YAML text: just after the opening delimiter line.
    pub start: int,
    /// End of the YAML text: the line feed in front of the closing delimiter
    /// line is not part of it.
    pub end: int,
    /// Start of the closing delimiter line.
    pub close: int,
}

/// The frontmatter block of `s`: `s` must begin with a delimiter line that a
/// line feed ends, and a later line must be a delimiter line again; the first
/// such line closes the block.
pub open spec fn block_bounds(s: Seq<char>) -> Option<BlockBounds> {
    if delimiter_line_at(s, 0) && s.len() > 3 {
        let start = if s[3] == '\n' {
            4
        } else {
            5
        };
        match closing_line(s, start, start) {
            Some(close) => Some(
                BlockBounds {
                    start,
                    end: if close > start {
                        close - 1
                    } else {
                        close
                    },
                    close,
                },
            ),
            None => None,
        }
    } else {
        None
    }
}

/// The YAML text of a block.
pub open spec fn block_yaml(s: Seq<char>, b: BlockBounds) -> Seq<char> {
    s.subrange(b.start, b.end)
}

/// The body after a block: what follows the closing delimiter, without the
/// line breaks it begins with.
pub open spec fn block_body(s: Seq<char>, b: BlockBounds) -> Seq<char> {
    s.subrange(skip_line_breaks(s, b.close + 3), s.len() as int)
}

/// What follows the closing delimiter of a block, line breaks included.
pub open spec fn block_rest(s: Seq<char>, b: BlockBounds) -> Seq<char> {
    s.subrange(b.close + 3, s.len() as int)
}

/// Tests whether the line that starts at `i` is a delimiter line.
pub fn is_delimiter_line(v: &Vec<char>, i: usize) -> (r: bool)
    ensures
        r == delimiter_line_at(v@, i as int),
{
    if v.len() < 3 || i > v.len() - 3 {
        return false;
    }
    if v[i] != '-' || v[i + 1] != '-' || v[i + 2] != '-' {
        return false;
    }
    let e: usize = i + 3;
    e == v.len() || v[e] == '\n' || (e + 1 < v.len() && v[e] == '\r' && v[e + 1] == '\n')
}

/// The bounds of the frontmatter block of `v`: start and end of the YAML text
/// and the start of the closing delimiter line.
pub fn find_block(v: &Vec<char>) -> (r: Option<(usize, usize, usize)>)
    ensures
        match r {
            Some(b) => block_bounds(v@) == Some(
                BlockBounds { start: b.0 as int, end: b.1 as int, close: b.2 as int },
            ) && b.0 <= b.1 <= b.2 && b.2 + 3 <= v.len(),
            None => block_bounds(v@) is None,
        },
{
    if !is_delimiter_line(v, 0) || v.len() <= 3 {
        return None;
    }
    let start: usize = if v[3] == '\n' {
        4
    } else {
        5
    };
    if v.len() < 3 || start > v.len() - 3 {
        return None;
    }
    let last: usize = v.len() - 3;
    let mut i: usize = start;
    while i <= last
        invariant
            start <= i,
            last == v.len() - 3,
            v.len() > 3,
            delimiter_line_at(v@, 0),
            start == (if v@[3] == '\n' {
                4int
            } else {
                5int
            }),
            closing_line(v@, start as int, start as int) == closing_line(
                v@,
                start as int,
                i as int,
            ),
        decreases last + 1 - i,
    {
        if (i == start || v[i - 1] == '\n') && is_delimiter_line(v, i) {
            let end: usize = if i > start {
                i - 1
            } else {
                i
            };
            return Some((start, end, i));
        }
        i += 1;
    }
    None
}

/// First position at or after `from` that holds no line break.
pub fn after_line_breaks(v: &Vec<char>, from: usize) -> (r: usize)
    requires
        from <= v.len(),
    ensures
        r == skip_line_breaks(v@, from as int),
        from <= r <= v.len(),
{
    let mut i: usize = from;
    while i < v.len() && (v[i] == '\n' || v[i] == '\r')
        invariant
            from <= i <= v.len(),
            skip_line_breaks(v@, from as int) == skip_line_breaks(v@, i as int),
        decreases v.len() - i,
    {
        i += 1;
    }
    i
}

/// The YAML text and the body of a document, where it has a frontmatter block.
pub open spec fn split_document(s: Seq<char>) -> Option<(Seq<char>, Seq<char>)> {
    match block_bounds(s) {
        Some(b) => Some((block_yaml(s, b), block_body(s, b))),
        None => None,
    }
}

/// Splits a document into the YAML text of its frontmatter block and the body
/// after it. `None` for a document that does not begin with a delimiter line,
/// or whose block no later delimiter line closes.
pub fn frontmatter_block(content: &str) -> (r: Option<(String, String)>)
    ensures
        match r {
            Some(p) => split_document(content@) == Some((p.0@, p.1@)),
            None => split_document(content@) is None,
        },
{
    let v = to_chars(content);
    match find_block(&v) {
        Some((start, end, close)) => {
            let body_start = after_line_breaks(&v, close + 3);
            Some((string_of(&v, start, end), string_of(&v, body_start, v.len())))
        },
        None => None,
    }
}

/// What parsing makes of a document, given the outcome of decoding the YAML
/// text of its block (`None` for YAML that could not be decoded): the decoded
/// frontmatter and the body, or, where there is no block or no decoded
/// frontmatter, `None` for "nothing declared, the whole text is the body".
pub open spec fn parsed_body(s: Seq<char>, decoded_ok: bool) -> Seq<char> {
    match split_document(s) {
        Some(p) => if decoded_ok {
            p.1
        } else {
            s
        },
        None => s,
    }
}

/// Whether the decoded frontmatter of a document is used: the document has a
/// block and its YAML could be decoded.
pub open spec fn frontmatter_used(s: Seq<char>, decoded_ok: bool) -> bool {
    split_document(s) is Some && decoded_ok
}

/// The frontmatter that parsing a document yields, as a model.
pub open spec fn parsed_frontmatter(
    s: Seq<char>,
    decoded: Option<FrontmatterView>,
) -> FrontmatterView {
    match decoded {
        Some(fm) => if split_document(s) is Some {
            fm
        } else {
            empty_frontmatter()
        },
        None => empty_frontmatter(),
    }
}

/// Parses a document into its frontmatter and its body.
///
/// `decoded` is what a YAML decoder made of the text that
/// [`frontmatter_block`] returns for this document, `None` where that text is
/// malformed. A document without a block, or with a malformed one, declares
/// nothing and is all body; no input is an error.
pub fn parse_frontmatter(content: &str, decoded: Option<Frontmatter>) -> (r: (Frontmatter, String))
    ensures
        r.0@ == parsed_frontmatter(content@, decoded.deep_view()),
        r.1@ == parsed_body(content@, decoded is Some),
        frontmatter_used(content@, decoded is Some) ==> Some(r.0) == decoded,
{
    let v = to_chars(content);
    match find_block(&v) {
        Some((_start, _end, close)) => {
            match decoded {
                Some(fm) => {
                    let body_start = after_line_breaks(&v, close + 3);
                    (fm, string_of(&v, body_start, v.len()))
                },
                None => (Frontmatter::default(), from_chars(&v)),
            }
        },
        None => (Frontmatter::default(), from_chars(&v)),
    }
}

/// Parses a document as [`parse_frontmatter`] does, without taking the
/// decoded frontmatter over: `None` stands for a frontmatter that declares
/// nothing.
pub fn parse_document<'a>(content: &Vec<char>, decoded: Option<&'a Frontmatter>) -> (r: (
    Option<&'a Frontmatter>,
    Vec<char>,
))
    ensures
        r.1@ == parsed_body(content@, decoded is Some),
        match r.0 {
            Some(f) => f@ == parsed_frontmatter(content@, decoded.deep_view()),
            None => parsed_frontmatter(content@, decoded.deep_view()) == empty_frontmatter(),
        },
{
    match find_block(content) {
        Some((_start, _end, close)) => {
            match decoded {
                Some(fm) => {
                    let body_start = after_line_breaks(content, close + 3);
                    (Some(fm), sub_chars(content, body_start, content.len()))
                },
                None => {
                    let all = sub_chars(content, 0, content.len());
                    assert(all@ =~= content@);
                    (None, all)
                },
            }
        },
        None => {
            let all = sub_chars(content, 0, content.len());
            assert(all@ =~= content@);
            (None, all)
        },
    }
}

// ---------------------------------------------------------------------------
// Title
// ---------------------------------------------------------------------------

/// The mark of a level-one heading: a hash sign and a space.
pub open spec fn heading_mark() -> Seq<char> {
    seq!['#', ' ']
}

/// The title that a line gives: the text after the heading mark, trimmed, if
/// the trimmed line begins with the mark.
pub open spec fn line_title(line: Seq<char>) -> Option<Seq<char>> {
    let t = trim(line);
    if starts_with(t, heading_mark()) {
        Some(trim(t.skip(2)))
    } else {
        None
    }
}

/// The title of the first line from `i` on that gives one.
pub open spec fn first_title(ls: Seq<Seq<char>>, i: int) -> Option<Seq<char>>
    decreases ls.len() - i,
{
    if i < 0 || i >= ls.len() {
        None
    } else if line_title(ls[i]) is Some {
        line_title(ls[i])
    } else {
        first_title(ls, i + 1)
    }
}

/// The title of a body: that of its first level-one heading.
pub open spec fn title_of(body: Seq<char>) -> Option<Seq<char>> {
    first_title(lines(body), 0)
}

/// The title of a body: the trimmed text of the first line that, once
/// trimmed, begins with `# `; `None` if no line does.
pub fn extract_title(content: &str) -> (r: Option<String>)
    ensures
        r.deep_view() == title_of(content@),
{
    let v = to_chars(content);
    let ls = split_lines(&v);
    let mark: Vec<char> = vec!['#', ' '];
    assert(mark@ =~= heading_mark());
    let mut i: usize = 0;
    while i < ls.len()
        invariant
            i <= ls.len(),
            v@ == content@,
            mark@ == heading_mark(),
            texts(ls@) == lines(v@),
            first_title(lines(v@), 0) == first_title(lines(v@), i as int),
        decreases ls.len() - i,
    {
        assert(texts(ls@)[i as int] == ls@[i as int]@);
        let t = trim_chars(&ls[i]);
        if starts_with_chars(&t, &mark) {
            let rest = sub_chars(&t, 2, t.len());
            assert(rest@ == t@.skip(2));
            let title = trim_chars(&rest);
            return Some(from_chars(&title));
        }
        i += 1;
    }
    None
}

} // verus!
