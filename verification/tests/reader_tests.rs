use std::collections::HashMap;

use leanspec::frontmatter::{frontmatter_block, Frontmatter};
use leanspec::reader::{
    all_tags, build_required_by, dependency_matches, filter_by_status, find_spec,
    is_spec_directory, not_found_text, position_by_name_or_id, require_spec, search_specs,
    sort_by_number, LightweightSpec, Spec, SpecDirectory, SpecReader, SpecTree,
};
use leanspec::timestamp::Timestamp;

/// Decodes the YAML text of a frontmatter block.
fn decode(yaml: &str) -> Option<Frontmatter> {
    let value: serde_yaml::Value = serde_yaml::from_str(yaml).ok()?;
    let map = value.as_mapping()?;
    let text = |key: &str| map.get(key).and_then(|v| v.as_str()).map(String::from);
    let either = |a: &str, b: &str| text(a).or_else(|| text(b));
    let list = |key: &str| -> Option<Vec<String>> {
        map.get(key)
            .and_then(|v| v.as_sequence())
            .map(|items| items.iter().filter_map(|v| v.as_str().map(String::from)).collect())
    };
    Some(Frontmatter {
        status: text("status"),
        priority: text("priority"),
        tags: list("tags").unwrap_or_default(),
        assignee: text("assignee"),
        created: text("created"),
        created_at: either("createdAt", "created_at"),
        updated_at: either("updatedAt", "updated_at"),
        completed_at: either("completedAt", "completed_at"),
        depends_on: list("dependsOn").or_else(|| list("depends_on")).unwrap_or_default(),
        transitions: Vec::new(),
        extra: HashMap::new(),
    })
}

fn now() -> Timestamp {
    let now = chrono::Utc::now();
    Timestamp { secs: now.timestamp(), nanos: now.timestamp_subsec_nanos() }
}

/// A spec directory with a main document made of frontmatter and content.
fn create_test_spec(name: &str, frontmatter: &str, content: &str) -> SpecDirectory {
    let full_content = format!("---\n{}\n---\n\n{}", frontmatter, content);
    directory(name, &full_content)
}

/// A spec directory with this main document.
fn directory(name: &str, document: &str) -> SpecDirectory {
    let decoded = frontmatter_block(document).and_then(|(yaml, _)| decode(&yaml));
    SpecDirectory {
        name: name.to_string(),
        is_dir: true,
        readme: Some(document.to_string()),
        decoded,
    }
}

fn tree(entries: Vec<SpecDirectory>, archived: Vec<SpecDirectory>) -> SpecTree {
    SpecTree { exists: true, entries, archived }
}

fn spec(number: Option<i32>, name: &str, deps: Vec<&str>, tags: Vec<&str>) -> Spec {
    Spec {
        id: format!("fs-{}", name),
        project_id: "test".to_string(),
        spec_number: number,
        spec_name: name.to_string(),
        title: Some(format!("Title of {}", name)),
        status: "planned".to_string(),
        priority: None,
        tags: tags.into_iter().map(String::from).collect(),
        assignee: None,
        content_md: String::new(),
        content_html: None,
        created_at: None,
        updated_at: None,
        completed_at: None,
        file_path: format!("specs/{}/README.md", name),
        github_url: None,
        synced_at: Timestamp { secs: 0, nanos: 0 },
        depends_on: deps.into_iter().map(String::from).collect(),
        required_by: Vec::new(),
    }
}

fn names(specs: &[Spec]) -> Vec<&str> {
    specs.iter().map(|s| s.spec_name.as_str()).collect()
}

#[test]
fn test_load_specs() {
    let entries = vec![
        create_test_spec(
            "001-first-spec",
            "status: planned\npriority: high\ntags:\n  - test",
            "# First Spec\n\nContent here.",
        ),
        create_test_spec(
            "002-second-spec",
            "status: in-progress\ndepends_on:\n  - 001-first-spec",
            "# Second Spec\n\nMore content.",
        ),
    ];

    let reader = SpecReader::new("specs", "test-project");
    let specs = reader.load_all(&tree(entries, vec![]), now());

    assert_eq!(specs.len(), 2);
    assert_eq!(specs[0].spec_number, Some(1));
    assert_eq!(specs[0].status, "planned");
    assert_eq!(specs[0].title, Some("First Spec".to_string()));
    assert_eq!(specs[0].tags, vec!["test"]);

    assert_eq!(specs[1].spec_number, Some(2));
    assert_eq!(specs[1].status, "in-progress");
    assert_eq!(specs[1].depends_on, vec!["001-first-spec"]);

    // Check required_by is computed correctly
    assert!(specs[0].required_by.contains(&"002-second-spec".to_string()));
}

#[test]
fn test_search_specs() {
    let entries = vec![
        create_test_spec(
            "001-test-spec",
            "status: planned",
            "# Test Spec\n\nSearchable content about rust.",
        ),
        create_test_spec("002-other-spec", "status: complete", "# Other Spec\n\nDifferent content."),
    ];
    let snapshot = tree(entries, vec![]);
    let reader = SpecReader::new("specs", "test-project");

    let results = reader.search(&snapshot, now(), "rust");
    assert_eq!(results.len(), 1);
    assert_eq!(results[0].spec_name, "001-test-spec");

    let results = reader.search(&snapshot, now(), "content");
    assert_eq!(results.len(), 2);
}

#[test]
fn test_dependency_matches() {
    assert!(dependency_matches("001-first-spec", "001-first-spec", Some(1)));
    assert!(dependency_matches("001", "001-first-spec", Some(1)));
    assert!(dependency_matches("1", "001-first-spec", Some(1)));
    assert!(!dependency_matches("002", "001-first-spec", Some(1)));
}

#[test]
fn dependency_matches_by_name_or_number_prefix() {
    assert!(dependency_matches("  001-anything  ", "001-first-spec", Some(1)));
    assert!(dependency_matches("+1", "001-first-spec", Some(1)));
    assert!(dependency_matches("notes", "notes", None));
    assert!(!dependency_matches(" notes", "notes", None));
    assert!(!dependency_matches("001", "001-first-spec", None));
    assert!(!dependency_matches("first-001", "001-first-spec", Some(1)));
    assert!(!dependency_matches("-1", "x", Some(-1)));
    assert!(!dependency_matches("", "001-first-spec", Some(1)));
    assert!(!dependency_matches("99999999999", "x", Some(1)));
    assert!(dependency_matches("2147483647-max", "x", Some(i32::MAX)));
    assert!(!dependency_matches("2147483648-over", "x", Some(i32::MAX)));
}

#[test]
fn reader_keeps_directory_and_project() {
    let reader = SpecReader::new("/work/specs", "p-1");
    assert_eq!(reader.specs_dir(), "/work/specs");
    assert_eq!(reader.project_id(), "p-1");
}

#[test]
fn missing_root_yields_nothing() {
    let entries = vec![create_test_spec("001-a", "status: planned", "# A")];
    let snapshot = SpecTree { exists: false, entries, archived: vec![] };
    let reader = SpecReader::new("specs", "p");
    assert!(reader.load_all(&snapshot, now()).is_empty());
    assert!(reader.get_all_tags(&snapshot, now()).is_empty());
    assert!(reader.load_spec(&snapshot, now(), "1").is_none());
}

#[test]
fn only_directories_that_begin_with_a_digit_qualify() {
    assert!(is_spec_directory("001-a", true, false));
    assert!(is_spec_directory("9", true, false));
    assert!(is_spec_directory("1x", true, true));
    assert!(!is_spec_directory("001-a", false, false));
    assert!(!is_spec_directory("a001", true, false));
    assert!(!is_spec_directory("", true, false));
    assert!(!is_spec_directory("archived", true, false));
    assert!(!is_spec_directory("archived", true, true));
    assert!(!is_spec_directory("-1", true, false));
    assert!(!is_spec_directory("\u{0661}-arabic-digit", true, false));
}

#[test]
fn entries_that_are_no_specs_are_passed_over() {
    let mut file = create_test_spec("003-file", "status: planned", "# File");
    file.is_dir = false;
    let mut unreadable = create_test_spec("004-unreadable", "status: planned", "# U");
    unreadable.readme = None;
    let entries = vec![
        create_test_spec("notes", "status: planned", "# Notes"),
        file,
        unreadable,
        directory("005-no-frontmatter", "# Plain\n"),
        create_test_spec("006-no-status", "priority: high", "# No status"),
        create_test_spec("007-good", "status: planned", "# Good"),
    ];
    let reader = SpecReader::new("specs", "p");
    let specs = reader.load_all(&tree(entries, vec![]), now());
    assert_eq!(names(&specs), vec!["007-good"]);
}

#[test]
fn malformed_frontmatter_skips_the_directory() {
    let mut broken = directory("001-broken", "---\nstatus: [oops\n---\n# Broken\n");
    assert!(broken.decoded.is_none());
    let reader = SpecReader::new("specs", "p");
    let specs = reader.load_all(&tree(vec![broken.clone()], vec![]), now());
    assert!(specs.is_empty());
    // A decoding that does not belong to a block is not used either.
    broken.readme = Some("status: planned\n# Broken\n".to_string());
    broken.decoded = decode("status: planned");
    let specs = reader.load_all(&tree(vec![broken], vec![]), now());
    assert!(specs.is_empty());
}

#[test]
fn loaded_spec_carries_what_the_document_declares() {
    let document = "---\nstatus: complete\npriority: low\nassignee: kim\ntags: [a, b]\ncreated: '2020-05-06T07:08:09Z'\nupdatedAt: '2024-01-02T03:04:05Z'\ncompletedAt: not a date\ndependsOn: ['001']\n---\n\nintro\n#  The Title \n";
    let at = Timestamp { secs: 42, nanos: 7 };
    let reader = SpecReader::new("specs", "proj");
    let specs = reader.load_all(&tree(vec![directory("012-full", document)], vec![]), at);
    assert_eq!(specs.len(), 1);
    let s = &specs[0];
    assert_eq!(s.id, "fs-012-full");
    assert_eq!(s.project_id, "proj");
    assert_eq!(s.spec_number, Some(12));
    assert_eq!(s.spec_name, "012-full");
    assert_eq!(s.title, Some("The Title".to_string()));
    assert_eq!(s.status, "complete");
    assert_eq!(s.priority, Some("low".to_string()));
    assert_eq!(s.tags, vec!["a", "b"]);
    assert_eq!(s.assignee, Some("kim".to_string()));
    assert_eq!(s.content_md, document);
    assert_eq!(s.content_html, None);
    assert_eq!(s.created_at, Some(Timestamp { secs: 1588748889, nanos: 0 }));
    assert_eq!(s.updated_at, Some(Timestamp { secs: 1704164645, nanos: 0 }));
    assert_eq!(s.completed_at, None);
    assert_eq!(s.file_path, "specs/012-full/README.md");
    assert_eq!(s.github_url, None);
    assert_eq!(s.synced_at, at);
    assert_eq!(s.depends_on, vec!["001"]);
    assert!(s.required_by.is_empty());
}

#[test]
fn number_is_read_from_the_digits_before_the_first_hyphen() {
    let entries = vec![
        create_test_spec("7", "status: planned", "# Seven"),
        create_test_spec("1a-b", "status: planned", "# No number"),
        create_test_spec("0042-x-9", "status: planned", "# Forty-two"),
        create_test_spec("99999999999-big", "status: planned", "# Too big"),
    ];
    let reader = SpecReader::new("specs", "p");
    let specs = reader.load_all(&tree(entries, vec![]), now());
    let numbers: Vec<(Option<i32>, &str)> =
        specs.iter().map(|s| (s.spec_number, s.spec_name.as_str())).collect();
    assert_eq!(
        numbers,
        vec![(None, "1a-b"), (None, "99999999999-big"), (Some(7), "7"), (Some(42), "0042-x-9")]
    );
}

#[test]
fn archived_specs_are_archived_whatever_they_declare() {
    let entries = vec![
        create_test_spec("002-live", "status: planned", "# Live"),
        create_test_spec("archived", "status: planned", "# Not a spec"),
    ];
    let archived = vec![
        create_test_spec("001-old", "status: in-progress", "# Old"),
        create_test_spec("003-older", "status: complete", "# Older"),
    ];
    let reader = SpecReader::new("specs", "p");
    let specs = reader.load_all(&tree(entries, archived), now());
    assert_eq!(names(&specs), vec!["001-old", "002-live", "003-older"]);
    assert_eq!(specs[0].status, "archived");
    assert_eq!(specs[0].file_path, "specs/archived/001-old/README.md");
    assert_eq!(specs[1].status, "planned");
    assert_eq!(specs[1].file_path, "specs/002-live/README.md");
    assert_eq!(specs[2].status, "archived");
    assert_eq!(specs[2].file_path, "specs/archived/003-older/README.md");
}

#[test]
fn sort_is_stable_and_puts_missing_numbers_first() {
    let mut specs = vec![
        spec(Some(2), "002-b", vec![], vec![]),
        spec(None, "x-first", vec![], vec![]),
        spec(Some(1), "001-a", vec![], vec![]),
        spec(Some(2), "002-a", vec![], vec![]),
        spec(None, "x-second", vec![], vec![]),
        spec(Some(-3), "minus", vec![], vec![]),
    ];
    sort_by_number(&mut specs);
    assert_eq!(names(&specs), vec!["x-first", "x-second", "minus", "001-a", "002-b", "002-a"]);
}

#[test]
fn required_by_is_the_inverse_of_depends_on() {
    let specs = vec![
        spec(Some(1), "001-base", vec![], vec![]),
        spec(Some(2), "002-feature", vec!["001-base"], vec![]),
        spec(Some(3), "003-extension", vec!["002-feature", "001"], vec![]),
        spec(None, "notes", vec!["3", "notes", "999"], vec![]),
    ];
    let specs = build_required_by(specs);
    assert_eq!(specs[0].required_by, vec!["002-feature", "003-extension"]);
    assert_eq!(specs[1].required_by, vec!["003-extension"]);
    assert_eq!(specs[2].required_by, vec!["notes"]);
    assert!(specs[3].required_by.is_empty());
    for a in &specs {
        for b in &specs {
            if a.spec_name == b.spec_name {
                continue;
            }
            let depends = b
                .depends_on
                .iter()
                .any(|d| dependency_matches(d, &a.spec_name, a.spec_number));
            assert_eq!(a.required_by.contains(&b.spec_name), depends);
        }
    }
}

#[test]
fn a_spec_is_not_its_own_dependent() {
    let specs = build_required_by(vec![spec(Some(1), "001-self", vec!["001", "001-self"], vec![])]);
    assert!(specs[0].required_by.is_empty());
}

#[test]
fn a_dependent_is_listed_once() {
    let specs = build_required_by(vec![
        spec(Some(1), "001-base", vec![], vec![]),
        spec(Some(2), "002-twice", vec!["1", "001", "001-base"], vec![]),
    ]);
    assert_eq!(specs[0].required_by, vec!["002-twice"]);
}

#[test]
fn the_last_spec_of_a_name_speaks_for_it() {
    let specs = build_required_by(vec![
        spec(Some(1), "001-base", vec![], vec![]),
        spec(Some(2), "002-dup", vec!["001"], vec![]),
        spec(Some(2), "002-dup", vec![], vec![]),
    ]);
    assert!(specs[0].required_by.is_empty());
    let specs = build_required_by(vec![
        spec(Some(1), "001-base", vec![], vec![]),
        spec(Some(2), "002-dup", vec![], vec![]),
        spec(Some(2), "002-dup", vec!["001"], vec![]),
    ]);
    assert_eq!(specs[0].required_by, vec!["002-dup"]);
}

#[test]
fn lookup_by_number_name_prefix_and_id() {
    let specs = vec![
        spec(Some(35), "035-my-spec", vec![], vec![]),
        spec(Some(36), "036-other", vec![], vec![]),
        spec(None, "notes", vec![], vec![]),
    ];
    let found = |id: &str| find_spec(&specs, id).map(|s| s.spec_name);
    assert_eq!(found("35"), Some("035-my-spec".to_string()));
    assert_eq!(found("035"), Some("035-my-spec".to_string()));
    assert_eq!(found("036-other"), Some("036-other".to_string()));
    assert_eq!(found("036-ot"), None);
    assert_eq!(found("fs-036-other"), Some("036-other".to_string()));
    assert_eq!(found("notes"), Some("notes".to_string()));
    assert_eq!(found("fs-notes"), Some("notes".to_string()));
    assert_eq!(found("37"), None);
    assert_eq!(found(""), None);
    assert_eq!(found("missing"), None);
}

#[test]
fn lookup_prefers_the_exact_name() {
    let specs = vec![
        spec(Some(35), "035-a-b", vec![], vec![]),
        spec(Some(35), "035-a", vec![], vec![]),
    ];
    assert_eq!(find_spec(&specs, "035-a").map(|s| s.spec_name), Some("035-a".to_string()));
    assert_eq!(find_spec(&specs, "035").map(|s| s.spec_name), Some("035-a-b".to_string()));
}

#[test]
fn lookup_by_number_does_not_fall_back_to_names() {
    let specs = vec![spec(None, "7", vec![], vec![])];
    assert!(find_spec(&specs, "7").is_none());
    assert!(find_spec(&specs, "fs-7").is_some());
}

#[test]
fn status_filter_is_exact() {
    let mut a = spec(Some(1), "001-a", vec![], vec![]);
    a.status = "complete".to_string();
    let mut b = spec(Some(2), "002-b", vec![], vec![]);
    b.status = "Complete".to_string();
    let c = spec(Some(3), "003-c", vec![], vec![]);
    let specs = vec![a, b, c];
    assert_eq!(names(&filter_by_status(&specs, "complete")), vec!["001-a"]);
    assert_eq!(names(&filter_by_status(&specs, "planned")), vec!["003-c"]);
    assert!(filter_by_status(&specs, "").is_empty());
}

#[test]
fn search_ignores_case_and_looks_everywhere() {
    let mut a = spec(Some(1), "001-Alpha", vec![], vec!["Backend"]);
    a.content_md = "Talks about RUST.".to_string();
    let mut b = spec(Some(2), "002-beta", vec![], vec![]);
    b.title = None;
    let specs = vec![a, b];
    assert_eq!(names(&search_specs(&specs, "alpha")), vec!["001-Alpha"]);
    assert_eq!(names(&search_specs(&specs, "BETA")), vec!["002-beta"]);
    assert_eq!(names(&search_specs(&specs, "rust")), vec!["001-Alpha"]);
    assert_eq!(names(&search_specs(&specs, "backEND")), vec!["001-Alpha"]);
    assert_eq!(names(&search_specs(&specs, "title of")), vec!["001-Alpha"]);
    assert_eq!(names(&search_specs(&specs, "")), vec!["001-Alpha", "002-beta"]);
    assert!(search_specs(&specs, "nowhere").is_empty());
}

#[test]
fn tags_are_distinct_and_sorted() {
    let specs = vec![
        spec(Some(1), "001-a", vec![], vec!["ui", "api", "Zed"]),
        spec(Some(2), "002-b", vec![], vec!["api", "", "ui-kit", "\u{e9}t\u{e9}"]),
        spec(Some(3), "003-c", vec![], vec![]),
    ];
    assert_eq!(all_tags(&specs), vec!["", "Zed", "api", "ui", "ui-kit", "\u{e9}t\u{e9}"]);
    assert!(all_tags(&[]).is_empty());
}

#[test]
fn reader_queries_work_on_the_loaded_set() {
    let entries = vec![
        create_test_spec("002-b", "status: complete\ntags: [x, y]", "# B"),
        create_test_spec("001-a", "status: planned\ntags: [y, a]", "# A"),
    ];
    let snapshot = tree(entries, vec![]);
    let reader = SpecReader::new("specs", "p");
    assert_eq!(reader.get_all_tags(&snapshot, now()), vec!["a", "x", "y"]);
    assert_eq!(names(&reader.get_by_status(&snapshot, now(), "complete")), vec!["002-b"]);
    assert_eq!(
        reader.load_spec(&snapshot, now(), "2").map(|s| s.spec_name),
        Some("002-b".to_string())
    );
    assert_eq!(
        reader.load_spec(&snapshot, now(), "001").map(|s| s.spec_name),
        Some("001-a".to_string())
    );
}

#[test]
fn lightweight_spec_drops_only_the_content() {
    let mut full = spec(Some(4), "004-d", vec!["001"], vec!["t"]);
    full.content_md = "body".to_string();
    full.required_by = vec!["005-e".to_string()];
    full.created_at = Some(Timestamp { secs: 1, nanos: 2 });
    let light = LightweightSpec::from_spec(&full);
    assert_eq!(light.id, full.id);
    assert_eq!(light.project_id, full.project_id);
    assert_eq!(light.spec_number, full.spec_number);
    assert_eq!(light.spec_name, full.spec_name);
    assert_eq!(light.title, full.title);
    assert_eq!(light.status, full.status);
    assert_eq!(light.priority, full.priority);
    assert_eq!(light.tags, full.tags);
    assert_eq!(light.assignee, full.assignee);
    assert_eq!(light.created_at, full.created_at);
    assert_eq!(light.updated_at, full.updated_at);
    assert_eq!(light.completed_at, full.completed_at);
    assert_eq!(light.file_path, full.file_path);
    assert_eq!(light.github_url, full.github_url);
    assert_eq!(light.depends_on, full.depends_on);
    assert_eq!(light.required_by, full.required_by);
    assert_eq!(light.sub_specs_count, 0);
    let copy = full.duplicate();
    assert_eq!(copy.content_md, "body");
    assert_eq!(copy.required_by, full.required_by);
}

#[test]
fn unknown_spec_is_reported() {
    let specs = vec![
        spec(Some(35), "035-my-spec", vec![], vec![]),
        spec(Some(36), "036-other", vec![], vec![]),
    ];
    assert_eq!(require_spec(&specs, "36").map(|s| s.spec_name), Ok("036-other".to_string()));
    assert_eq!(
        require_spec(&specs, "37").map(|s| s.spec_name),
        Err("Spec '37' not found".to_string())
    );
    assert_eq!(not_found_text("a'b"), "Spec 'a'b' not found");
    assert_eq!(position_by_name_or_id(&specs, "036-other"), Some(1));
    assert_eq!(position_by_name_or_id(&specs, "fs-035-my-spec"), Some(0));
    assert_eq!(position_by_name_or_id(&specs, "035-my-spec"), Some(0));
    assert_eq!(position_by_name_or_id(&specs, "35"), None);
    assert_eq!(position_by_name_or_id(&specs, "035"), None);
    assert_eq!(position_by_name_or_id(&specs, "035-my"), None);
    assert_eq!(position_by_name_or_id(&[], ""), None);
}
