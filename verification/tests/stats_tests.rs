use leanspec::reader::Spec;
use leanspec::stats::calculate_stats;
use leanspec::timestamp::Timestamp;

fn synced_at() -> Timestamp {
    let now = chrono::Utc::now();
    Timestamp { secs: now.timestamp(), nanos: now.timestamp_subsec_nanos() }
}

fn create_test_spec(status: &str, priority: Option<&str>, tags: Vec<&str>, deps: Vec<&str>) -> Spec {
    Spec {
        id: "test".to_string(),
        project_id: "test".to_string(),
        spec_number: Some(1),
        spec_name: "test-spec".to_string(),
        title: Some("Test".to_string()),
        status: status.to_string(),
        priority: priority.map(String::from),
        tags: tags.into_iter().map(String::from).collect(),
        assignee: None,
        content_md: String::new(),
        content_html: None,
        created_at: None,
        updated_at: None,
        completed_at: None,
        file_path: "specs/test/README.md".to_string(),
        github_url: None,
        synced_at: synced_at(),
        depends_on: deps.into_iter().map(String::from).collect(),
        required_by: Vec::new(),
    }
}

fn with_status(status: &str) -> Spec {
    create_test_spec(status, None, vec![], vec![])
}

/// The completion rate as a percentage.
fn completion_rate(tenths: u32) -> f64 {
    tenths as f64 / 10.0
}

#[test]
fn test_calculate_stats() {
    let specs = vec![
        create_test_spec("planned", Some("high"), vec!["architecture"], vec![]),
        create_test_spec("in-progress", Some("high"), vec!["ui", "ux"], vec!["001"]),
        create_test_spec("complete", Some("medium"), vec!["docs"], vec![]),
        create_test_spec("complete", Some("low"), vec![], vec!["002"]),
    ];

    let stats = calculate_stats(&specs);

    assert_eq!(stats.total_specs, 4);
    assert_eq!(stats.active_specs, 2); // planned + in-progress
    assert_eq!(completion_rate(stats.completion_rate_tenths), 50.0);
    assert_eq!(stats.total_tags, 4); // unique tags
    assert_eq!(stats.specs_with_dependencies, 2);
}

#[test]
fn test_empty_stats() {
    let stats = calculate_stats(&[]);

    assert_eq!(stats.total_specs, 0);
    assert_eq!(completion_rate(stats.completion_rate_tenths), 0.0);
    assert_eq!(stats.active_specs, 0);
}

#[test]
fn empty_set_has_empty_figures() {
    let stats = calculate_stats(&[]);
    assert_eq!(stats.total_projects, 1);
    assert!(stats.specs_by_status.is_empty());
    assert!(stats.specs_by_priority.is_empty());
    assert_eq!(stats.completion_rate_tenths, 0);
    assert_eq!(stats.total_tags, 0);
    assert_eq!(stats.avg_tags_hundredths, 0);
    assert_eq!(stats.specs_with_dependencies, 0);
}

#[test]
fn histograms_are_sorted_by_descending_count() {
    let specs = vec![
        create_test_spec("planned", Some("low"), vec![], vec![]),
        create_test_spec("complete", None, vec![], vec![]),
        create_test_spec("complete", Some("high"), vec![], vec![]),
        create_test_spec("draft", Some("high"), vec![], vec![]),
        create_test_spec("complete", Some("low"), vec![], vec![]),
        create_test_spec("draft", Some("high"), vec![], vec![]),
        create_test_spec("odd", None, vec![], vec![]),
    ];
    let stats = calculate_stats(&specs);
    let by_status: Vec<(&str, usize)> =
        stats.specs_by_status.iter().map(|c| (c.status.as_str(), c.count)).collect();
    assert_eq!(by_status, vec![("complete", 3), ("draft", 2), ("planned", 1), ("odd", 1)]);
    let by_priority: Vec<(&str, usize)> =
        stats.specs_by_priority.iter().map(|c| (c.priority.as_str(), c.count)).collect();
    assert_eq!(by_priority, vec![("high", 3), ("low", 2)]);
    assert_eq!(stats.active_specs, 3);
    assert_eq!(stats.total_specs, 7);
}

#[test]
fn completion_rate_is_rounded_to_a_tenth() {
    let thirds = vec![with_status("complete"), with_status("planned"), with_status("draft")];
    assert_eq!(calculate_stats(&thirds).completion_rate_tenths, 333);
    let two_thirds = vec![with_status("complete"), with_status("complete"), with_status("draft")];
    assert_eq!(calculate_stats(&two_thirds).completion_rate_tenths, 667);
    let all = vec![with_status("complete")];
    assert_eq!(calculate_stats(&all).completion_rate_tenths, 1000);
    let none = vec![with_status("archived"), with_status("Complete")];
    assert_eq!(calculate_stats(&none).completion_rate_tenths, 0);
    let mut sixteenth = vec![with_status("complete")];
    for _ in 0..15 {
        sixteenth.push(with_status("planned"));
    }
    // 6.25 percent rounds up to 6.3
    assert_eq!(calculate_stats(&sixteenth).completion_rate_tenths, 63);
}

#[test]
fn average_tags_are_rounded_to_a_hundredth() {
    let specs = vec![
        create_test_spec("planned", None, vec!["a", "b"], vec![]),
        create_test_spec("planned", None, vec!["a", "a", "c"], vec![]),
        create_test_spec("planned", None, vec![], vec![]),
    ];
    let stats = calculate_stats(&specs);
    // five tags on three specs: 1.666...
    assert_eq!(stats.avg_tags_hundredths, 167);
    assert_eq!(stats.total_tags, 3);
    let eighth = vec![
        create_test_spec("planned", None, vec!["a"], vec![]),
        with_status("planned"),
        with_status("planned"),
        with_status("planned"),
        with_status("planned"),
        with_status("planned"),
        with_status("planned"),
        with_status("planned"),
    ];
    // 0.125 rounds up to 0.13
    assert_eq!(calculate_stats(&eighth).avg_tags_hundredths, 13);
}

#[test]
fn active_specs_are_draft_planned_and_in_progress() {
    let specs = vec![
        with_status("draft"),
        with_status("planned"),
        with_status("in-progress"),
        with_status("complete"),
        with_status("archived"),
        with_status("in progress"),
    ];
    let stats = calculate_stats(&specs);
    assert_eq!(stats.active_specs, 3);
}

#[test]
fn empty_dependency_lists_do_not_count() {
    let specs = vec![
        create_test_spec("planned", None, vec![], vec![""]),
        create_test_spec("planned", None, vec![], vec![]),
        create_test_spec("planned", None, vec![], vec!["001", "002"]),
    ];
    assert_eq!(calculate_stats(&specs).specs_with_dependencies, 2);
}
