use leanspec::dependencies::{
    build_dependency_graph, get_spec_dependencies, resolve_dependency, NameIndex, NumberIndex,
};
use leanspec::reader::{build_required_by, Spec};
use leanspec::timestamp::Timestamp;

fn synced_at() -> Timestamp {
    let now = chrono::Utc::now();
    Timestamp { secs: now.timestamp(), nanos: now.timestamp_subsec_nanos() }
}

fn create_test_spec(num: i32, name: &str, deps: Vec<&str>) -> Spec {
    Spec {
        id: format!("fs-{}", name),
        project_id: "test".to_string(),
        spec_number: Some(num),
        spec_name: name.to_string(),
        title: Some(format!("Spec {}", num)),
        status: "planned".to_string(),
        priority: Some("medium".to_string()),
        tags: vec![],
        assignee: None,
        content_md: String::new(),
        content_html: None,
        created_at: None,
        updated_at: None,
        completed_at: None,
        file_path: format!("specs/{}/README.md", name),
        github_url: None,
        synced_at: synced_at(),
        depends_on: deps.into_iter().map(String::from).collect(),
        required_by: Vec::new(),
    }
}

fn unnumbered(name: &str, deps: Vec<&str>) -> Spec {
    let mut spec = create_test_spec(0, name, deps);
    spec.spec_number = None;
    spec
}

#[test]
fn test_build_dependency_graph() {
    let specs = vec![
        create_test_spec(1, "001-base", vec![]),
        create_test_spec(2, "002-feature", vec!["001-base"]),
        create_test_spec(3, "003-extension", vec!["002-feature", "001"]),
    ];

    let graph = build_dependency_graph(&specs);

    assert_eq!(graph.nodes.len(), 3);
    assert_eq!(graph.edges.len(), 3);

    // Check edges go from dependency to dependent
    let edge_pairs: Vec<(&str, &str)> =
        graph.edges.iter().map(|e| (e.source.as_str(), e.target.as_str())).collect();

    assert!(edge_pairs.contains(&("fs-001-base", "fs-002-feature")));
    assert!(edge_pairs.contains(&("fs-002-feature", "fs-003-extension")));
    assert!(edge_pairs.contains(&("fs-001-base", "fs-003-extension")));
}

#[test]
fn test_resolve_dependency() {
    let mut by_name = NameIndex::new();
    let mut by_number = NumberIndex::new();

    by_name.insert("001-base".to_string(), "id-1".to_string());
    by_name.insert("001".to_string(), "id-1".to_string());
    by_name.insert("1".to_string(), "id-1".to_string());
    by_number.insert(1, "id-1".to_string());

    assert_eq!(resolve_dependency("001-base", &by_name, &by_number), Some("id-1".to_string()));
    assert_eq!(resolve_dependency("001", &by_name, &by_number), Some("id-1".to_string()));
    assert_eq!(resolve_dependency("1", &by_name, &by_number), Some("id-1".to_string()));
    assert_eq!(resolve_dependency("999", &by_name, &by_number), None);
}

#[test]
fn resolution_trims_and_falls_back_to_the_number() {
    let mut by_name = NameIndex::new();
    let mut by_number = NumberIndex::new();
    by_name.insert("001-base".to_string(), "by-name".to_string());
    by_number.insert(1, "by-number".to_string());
    by_number.insert(7, "seven".to_string());

    assert_eq!(resolve_dependency("  001-base\n", &by_name, &by_number), Some("by-name".to_string()));
    assert_eq!(resolve_dependency("001-renamed", &by_name, &by_number), Some("by-number".to_string()));
    assert_eq!(resolve_dependency(" 0007 ", &by_name, &by_number), Some("seven".to_string()));
    assert_eq!(resolve_dependency("+7-x", &by_name, &by_number), Some("seven".to_string()));
    assert_eq!(resolve_dependency("7x", &by_name, &by_number), None);
    assert_eq!(resolve_dependency("base-001", &by_name, &by_number), None);
    assert_eq!(resolve_dependency("", &by_name, &by_number), None);
    assert_eq!(resolve_dependency("-7", &by_name, &by_number), None);
}

#[test]
fn later_index_entries_replace_earlier_ones() {
    let mut by_name = NameIndex::new();
    let mut by_number = NumberIndex::new();
    by_name.insert("k".to_string(), "first".to_string());
    by_name.insert("k".to_string(), "second".to_string());
    by_number.insert(3, "first".to_string());
    by_number.insert(3, "second".to_string());
    assert_eq!(by_name.get("k"), Some(&"second".to_string()));
    assert_eq!(by_name.get("other"), None);
    assert_eq!(by_number.get(3), Some(&"second".to_string()));
    assert_eq!(by_number.get(4), None);
    assert_eq!(resolve_dependency("k", &by_name, &by_number), Some("second".to_string()));
    assert_eq!(resolve_dependency("3", &by_name, &by_number), Some("second".to_string()));
}

#[test]
fn name_padded_number_and_bare_number_resolve_alike() {
    let specs = vec![
        create_test_spec(1, "001-base", vec![]),
        create_test_spec(2, "002-a", vec!["001-base"]),
        create_test_spec(3, "003-b", vec!["001"]),
        create_test_spec(4, "004-c", vec!["1"]),
        create_test_spec(1234, "1234-wide", vec!["1234", "01234"]),
    ];
    let graph = build_dependency_graph(&specs);
    let sources: Vec<(&str, &str)> =
        graph.edges.iter().map(|e| (e.source.as_str(), e.target.as_str())).collect();
    assert_eq!(
        sources,
        vec![
            ("fs-001-base", "fs-002-a"),
            ("fs-001-base", "fs-003-b"),
            ("fs-001-base", "fs-004-c"),
        ]
    );
}

#[test]
fn graph_has_no_loops_and_no_strangers() {
    let specs = vec![
        create_test_spec(1, "001-base", vec!["001", "001-base", "1", "999", "", "nonsense"]),
        unnumbered("notes", vec!["001"]),
        create_test_spec(2, "002-feature", vec!["notes", " 1 ", "2", "001-base"]),
    ];
    let graph = build_dependency_graph(&specs);
    let ids: Vec<&str> = graph.nodes.iter().map(|n| n.id.as_str()).collect();
    assert_eq!(ids, vec!["fs-001-base", "fs-002-feature"]);
    let pairs: Vec<(&str, &str, &str)> = graph
        .edges
        .iter()
        .map(|e| (e.source.as_str(), e.target.as_str(), e.edge_type.as_str()))
        .collect();
    assert_eq!(
        pairs,
        vec![
            ("fs-001-base", "fs-002-feature", "dependsOn"),
            ("fs-001-base", "fs-002-feature", "dependsOn"),
        ]
    );
    for e in &graph.edges {
        assert_ne!(e.source, e.target);
        assert!(ids.contains(&e.source.as_str()));
        assert!(ids.contains(&e.target.as_str()));
    }
}

#[test]
fn nodes_fall_back_to_number_and_medium_priority() {
    let mut plain = create_test_spec(7, "007-plain", vec![]);
    plain.title = None;
    plain.priority = None;
    plain.tags = vec!["x".to_string()];
    plain.status = "complete".to_string();
    let mut negative = create_test_spec(-12, "odd", vec![]);
    negative.title = None;
    negative.priority = Some("high".to_string());
    let graph = build_dependency_graph(&[plain, negative, unnumbered("notes", vec![])]);
    assert_eq!(graph.nodes.len(), 2);
    assert_eq!(graph.nodes[0].id, "fs-007-plain");
    assert_eq!(graph.nodes[0].name, "Spec 7");
    assert_eq!(graph.nodes[0].number, 7);
    assert_eq!(graph.nodes[0].status, "complete");
    assert_eq!(graph.nodes[0].priority, "medium");
    assert_eq!(graph.nodes[0].tags, vec!["x"]);
    assert_eq!(graph.nodes[1].name, "Spec -12");
    assert_eq!(graph.nodes[1].number, -12);
    assert_eq!(graph.nodes[1].priority, "high");
    assert!(graph.edges.is_empty());
}

#[test]
fn later_specs_take_over_shared_numbers() {
    let specs = vec![
        create_test_spec(1, "001-old", vec![]),
        create_test_spec(1, "001-new", vec![]),
        create_test_spec(2, "002-user", vec!["001", "1", "001-old"]),
    ];
    let graph = build_dependency_graph(&specs);
    let pairs: Vec<(&str, &str)> =
        graph.edges.iter().map(|e| (e.source.as_str(), e.target.as_str())).collect();
    assert_eq!(
        pairs,
        vec![
            ("fs-001-new", "fs-002-user"),
            ("fs-001-new", "fs-002-user"),
            ("fs-001-old", "fs-002-user"),
        ]
    );
}

#[test]
fn empty_set_has_an_empty_graph() {
    let graph = build_dependency_graph(&[]);
    assert!(graph.nodes.is_empty());
    assert!(graph.edges.is_empty());
}

#[test]
fn dependencies_of_one_spec() {
    let mut base = create_test_spec(1, "001-base", vec![]);
    base.title = None;
    base.status = "complete".to_string();
    let specs = build_required_by(vec![
        base,
        create_test_spec(2, "002-feature", vec!["001-base", "999", " 1 ", "notes", ""]),
        unnumbered("notes", vec!["2-anything"]),
    ]);
    let deps = get_spec_dependencies(&specs[1], &specs);
    let shown: Vec<(&str, Option<&str>, &str)> = deps
        .depends_on
        .iter()
        .map(|d| (d.spec_name.as_str(), d.title.as_deref(), d.status.as_str()))
        .collect();
    assert_eq!(
        shown,
        vec![
            ("001-base", None, "complete"),
            ("001-base", None, "complete"),
            ("notes", Some("Spec 0"), "planned"),
        ]
    );
    let dependents: Vec<&str> = deps.required_by.iter().map(|d| d.spec_name.as_str()).collect();
    assert_eq!(dependents, vec!["notes"]);

    let of_base = get_spec_dependencies(&specs[0], &specs);
    assert!(of_base.depends_on.is_empty());
    let dependents: Vec<&str> = of_base.required_by.iter().map(|d| d.spec_name.as_str()).collect();
    assert_eq!(dependents, vec!["002-feature"]);
}

#[test]
fn unknown_dependents_are_left_out() {
    let mut spec = create_test_spec(1, "001-base", vec![]);
    spec.required_by = vec!["gone".to_string(), "002-here".to_string(), " 002-here".to_string()];
    let all = vec![create_test_spec(2, "002-here", vec![])];
    let deps = get_spec_dependencies(&spec, &all);
    let dependents: Vec<&str> = deps.required_by.iter().map(|d| d.spec_name.as_str()).collect();
    assert_eq!(dependents, vec!["002-here"]);
}
