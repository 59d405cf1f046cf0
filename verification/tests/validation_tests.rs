use std::collections::HashMap;

use leanspec::frontmatter::{extract_title, frontmatter_block, parse_frontmatter, Frontmatter};
use leanspec::reader::Spec;
use leanspec::timestamp::Timestamp;
use leanspec::validation::{
    estimate_tokens, validate_all_specs, validate_spec, IssueSeverity, ValidationResult,
};

/// Decodes the YAML text of a frontmatter block.
fn decode(yaml: &str) -> Option<Frontmatter> {
    let value: serde_yaml::Value = serde_yaml::from_str(yaml).ok()?;
    let map = value.as_mapping()?;
    let text = |key: &str| map.get(key).and_then(|v| v.as_str()).map(String::from);
    let either = |a: &str, b: &str| text(a).or_else(|| text(b));
    let list = |key: &str| -> Option<Vec<String>> {
        map.get(key).and_then(|v| v.as_sequence()).map(|items| {
            items.iter().map(|v| v.as_str().map(String::from).unwrap_or_default()).collect()
        })
    };
    Some(Frontmatter {
        status: text("status"),
        priority: text("priority"),
        tags: list("tags").unwrap_or_default(),
        assignee: text("assignee"),
        created: text("created"),
        created_at: either("createdAt", "created_at"),
        updated_at: either("updatedAt", "updated_at"),
        completed_at: either("completedAt", "completed_at"),
        depends_on: list("dependsOn").or_else(|| list("depends_on")).unwrap_or_default(),
        transitions: Vec::new(),
        extra: HashMap::new(),
    })
}

/// What the decoder makes of the frontmatter block of a document.
fn decoded(content: &str) -> Option<Frontmatter> {
    frontmatter_block(content).and_then(|(yaml, _)| decode(&yaml))
}

fn synced_at() -> Timestamp {
    let now = chrono::Utc::now();
    Timestamp { secs: now.timestamp(), nanos: now.timestamp_subsec_nanos() }
}

fn create_test_spec_with_content(content: &str) -> Spec {
    named_spec_with_content(1, "001-test", content)
}

fn named_spec_with_content(number: i32, name: &str, content: &str) -> Spec {
    let (fm, _) = parse_frontmatter(content, decoded(content));
    Spec {
        id: "test".to_string(),
        project_id: "test".to_string(),
        spec_number: Some(number),
        spec_name: name.to_string(),
        title: extract_title(content),
        status: fm.status.unwrap_or_else(|| "planned".to_string()),
        priority: fm.priority,
        tags: fm.tags,
        assignee: fm.assignee,
        content_md: content.to_string(),
        content_html: None,
        created_at: None,
        updated_at: None,
        completed_at: None,
        file_path: "specs/001-test/README.md".to_string(),
        github_url: None,
        synced_at: synced_at(),
        depends_on: fm.depends_on,
        required_by: Vec::new(),
    }
}

/// Validates a spec, decoding its stored text on the way.
fn validate(spec: &Spec) -> ValidationResult {
    let decoded = decoded(&spec.content_md);
    validate_spec(spec, decoded.as_ref())
}

/// Validates a set, decoding the stored texts on the way.
fn validate_all(specs: &[Spec]) -> Vec<ValidationResult> {
    let decoded: Vec<Option<Frontmatter>> = specs.iter().map(|s| decoded(&s.content_md)).collect();
    validate_all_specs(specs, &decoded)
}

fn codes(result: &ValidationResult) -> Vec<&str> {
    result.issues.iter().map(|i| i.code.as_str()).collect()
}

const VALID: &str = "---\nstatus: planned\npriority: high\n---\n\n# Valid Spec\n\n## Overview\n\nText.\n";

#[test]
fn test_validate_valid_spec() {
    let content = r#"---
status: planned
priority: high
---

# Valid Spec

## Overview

This is a valid spec.

## Design

Some design content.

## Plan

- [ ] Task 1
- [ ] Task 2

## Test

Test criteria.
"#;
    let spec = create_test_spec_with_content(content);
    let result = validate(&spec);

    assert!(result.valid);
    assert!(result.issues.iter().all(|i| i.severity != IssueSeverity::Error));
}

#[test]
fn test_validate_missing_status() {
    let content = r#"---
priority: high
---

# Missing Status
"#;
    let spec = create_test_spec_with_content(content);
    let result = validate(&spec);

    assert!(!result.valid);
    assert!(result.issues.iter().any(|i| i.code == "missing-status"));
}

#[test]
fn test_validate_invalid_status() {
    let content = r#"---
status: invalid-status
---

# Invalid Status
"#;
    let spec = create_test_spec_with_content(content);
    let result = validate(&spec);

    assert!(!result.valid);
    assert!(result.issues.iter().any(|i| i.code == "invalid-status"));
}

#[test]
fn test_estimate_tokens() {
    let short_text = "Hello world";
    let long_text = "Hello world ".repeat(1000);

    let short_tokens = estimate_tokens(short_text);
    let long_tokens = estimate_tokens(&long_text);

    assert!(short_tokens < 10);
    assert!(long_tokens > 2000);
}

#[test]
fn token_estimate_follows_the_formula() {
    assert_eq!(estimate_tokens(""), 0);
    assert_eq!(estimate_tokens("   \n\t "), 0);
    // two words: 2.6 rounds up
    assert_eq!(estimate_tokens("Hello world"), 3);
    // one word and one special character: 1.3 + 0.5
    assert_eq!(estimate_tokens("a-b"), 2);
    // ten words: exactly 13
    assert_eq!(estimate_tokens("a b c d e f g h i j"), 13);
    // four words, three special characters: 5.2 + 1.5
    assert_eq!(estimate_tokens("- [ ] Task"), 7);
    // letters and digits of any script are no special characters
    assert_eq!(estimate_tokens("\u{e9}t\u{e9} \u{4e2d}\u{6587} 42"), 4);
    // white space of any kind separates words
    assert_eq!(estimate_tokens("a\u{a0}b\u{3000}c\r\nd"), 6);
    assert_eq!(estimate_tokens(&"Hello world ".repeat(1000)), 2600);
}

#[test]
fn token_estimate_never_falls_with_more_text() {
    let pieces = ["", "a", " ", "word", "!", " two words ", "-", "\n", "x"];
    let mut text = String::new();
    let mut last = estimate_tokens(&text);
    for round in 0..4 {
        for piece in pieces.iter().skip(round) {
            text.push_str(piece);
            let next = estimate_tokens(&text);
            assert!(last <= next);
            assert_eq!(next, estimate_tokens(&text));
            last = next;
        }
    }
}

#[test]
fn valid_spec_has_no_issues() {
    let spec = create_test_spec_with_content(VALID);
    let result = validate(&spec);
    assert_eq!(result.spec_name, "001-test");
    assert!(result.valid);
    assert!(result.issues.is_empty());
}

#[test]
fn bogus_status_is_an_error() {
    let spec = create_test_spec_with_content("---\nstatus: bogus\n---\n\n# T\n\n## Overview\n");
    let result = validate(&spec);
    assert!(!result.valid);
    assert_eq!(codes(&result), vec!["invalid-status"]);
    assert_eq!(result.issues[0].severity, IssueSeverity::Error);
    assert_eq!(
        result.issues[0].message,
        "Invalid status 'bogus'. Must be one of: draft, planned, in-progress, complete, archived"
    );
    assert_eq!(result.issues[0].line, None);
}

#[test]
fn every_allowed_status_is_valid() {
    for status in ["draft", "planned", "in-progress", "complete", "archived"] {
        let content = format!("---\nstatus: {}\n---\n\n# T\n\n## Overview\n", status);
        let result = validate(&create_test_spec_with_content(&content));
        assert!(result.valid);
        assert!(result.issues.is_empty());
    }
}

#[test]
fn missing_status_message() {
    let spec = create_test_spec_with_content("---\npriority: high\n---\n\n# T\n\n## Overview\n");
    let result = validate(&spec);
    assert_eq!(codes(&result), vec!["missing-status"]);
    assert_eq!(result.issues[0].severity, IssueSeverity::Error);
    assert_eq!(result.issues[0].message, "Spec must have a status field in frontmatter");
}

#[test]
fn excessive_length_is_only_a_warning() {
    let mut content = String::from("---\nstatus: planned\n---\n\n# Long\n\n## Overview\n");
    while content.lines().count() < 500 {
        content.push_str("line\n");
    }
    let spec = create_test_spec_with_content(&content);
    let result = validate(&spec);
    assert!(result.valid);
    assert_eq!(codes(&result), vec!["excessive-length"]);
    assert_eq!(result.issues[0].severity, IssueSeverity::Warning);
    assert_eq!(
        result.issues[0].message,
        "Spec has 500 lines, which exceeds recommended maximum of 400"
    );
}

#[test]
fn four_hundred_lines_are_fine() {
    let mut content = String::from("---\nstatus: planned\n---\n\n# Long\n\n## Overview\n");
    while content.lines().count() < 400 {
        content.push_str("line\n");
    }
    assert!(validate(&create_test_spec_with_content(&content)).issues.is_empty());
    content.push_str("one more, without a line feed");
    assert_eq!(codes(&validate(&create_test_spec_with_content(&content))), vec!["excessive-length"]);
}

#[test]
fn issues_come_in_the_order_of_the_rules() {
    let content = "---\nstatus: bogus\npriority: urgent\ndependsOn: ['', '001', '  ']\n---\n\nno heading\n";
    let spec = create_test_spec_with_content(content);
    let result = validate(&spec);
    assert!(!result.valid);
    assert_eq!(
        codes(&result),
        vec![
            "invalid-status",
            "invalid-priority",
            "missing-title",
            "missing-overview",
            "empty-dependency",
            "empty-dependency",
        ]
    );
    let severities: Vec<IssueSeverity> = result.issues.iter().map(|i| i.severity).collect();
    assert_eq!(
        severities,
        vec![
            IssueSeverity::Error,
            IssueSeverity::Warning,
            IssueSeverity::Warning,
            IssueSeverity::Info,
            IssueSeverity::Warning,
            IssueSeverity::Warning,
        ]
    );
    assert_eq!(
        result.issues[1].message,
        "Invalid priority 'urgent'. Recommended: critical, high, medium, low"
    );
    assert_eq!(result.issues[2].message, "Spec should have a title (H1 heading)");
    assert_eq!(result.issues[3].message, "Consider adding an ## Overview section");
    assert_eq!(result.issues[4].message, "Empty dependency in depends_on list");
}

#[test]
fn overview_heading_may_be_lowercase() {
    let lower = "---\nstatus: planned\n---\n# T\n## overview\n";
    assert!(validate(&create_test_spec_with_content(lower)).issues.is_empty());
    let shouting = "---\nstatus: planned\n---\n# T\n## OVERVIEW\n";
    assert_eq!(codes(&validate(&create_test_spec_with_content(shouting))), vec!["missing-overview"]);
    // The heading counts only in the body, not in the frontmatter.
    let hidden = "---\nstatus: planned\nnote: '## Overview'\n---\n# T\n";
    assert_eq!(codes(&validate(&create_test_spec_with_content(hidden))), vec!["missing-overview"]);
}

#[test]
fn token_counts_are_reported_once() {
    let head = "---\nstatus: planned\n---\n# T\n## Overview\n";
    // 8 words and 10 special characters in the head: 10.4 + 5.0
    assert_eq!(estimate_tokens(head), 16);
    let moderate = format!("{}{}", head, "w ".repeat(2700));
    let result = validate(&create_test_spec_with_content(&moderate));
    assert_eq!(codes(&result), vec!["moderate-token-count"]);
    assert_eq!(result.issues[0].severity, IssueSeverity::Info);
    assert_eq!(
        result.issues[0].message,
        "Estimated 3526 tokens. Consider splitting if content grows."
    );
    let high = format!("{}{}", head, "w ".repeat(4000));
    let result = validate(&create_test_spec_with_content(&high));
    assert_eq!(codes(&result), vec!["high-token-count"]);
    assert_eq!(result.issues[0].severity, IssueSeverity::Warning);
    assert_eq!(result.issues[0].message, "Estimated 5216 tokens. Consider splitting if over 5000.");
    assert!(result.valid);
}

#[test]
fn token_thresholds_are_exclusive() {
    // 2692 words: 3499.6 rounds up to 3500, which is not above the threshold
    let below = "w ".repeat(2692);
    assert_eq!(estimate_tokens(&below), 3500);
    // one more word, a special character: 3500.9 + 0.5
    let at = format!("{}-", below);
    assert_eq!(estimate_tokens(&at), 3502);
    let mut spec = create_test_spec_with_content(VALID);
    spec.content_md = below;
    let result = validate_spec(&spec, None);
    assert!(!codes(&result).contains(&"moderate-token-count"));
    assert!(!codes(&result).contains(&"high-token-count"));
    spec.content_md = at;
    let result = validate_spec(&spec, None);
    assert!(codes(&result).contains(&"moderate-token-count"));
}

#[test]
fn validation_reads_the_stored_text_not_the_fields() {
    let mut spec = create_test_spec_with_content(VALID);
    spec.status = "bogus".to_string();
    spec.priority = Some("urgent".to_string());
    assert!(validate(&spec).issues.is_empty());
    // The title is the one field that is taken from the record.
    spec.title = None;
    assert_eq!(codes(&validate(&spec)), vec!["missing-title"]);
}

#[test]
fn undecodable_frontmatter_declares_nothing() {
    let spec = create_test_spec_with_content(VALID);
    let result = validate_spec(&spec, None);
    assert!(!result.valid);
    assert_eq!(codes(&result), vec!["missing-status"]);
}

#[test]
fn broken_dependency_is_a_warning_that_leaves_validity_alone() {
    let good = "---\nstatus: planned\ndependsOn: ['999']\n---\n# T\n## Overview\n";
    let bad = "---\nstatus: bogus\ndependsOn: ['999']\n---\n# T\n## Overview\n";
    let specs = vec![
        named_spec_with_content(1, "001-good", good),
        named_spec_with_content(2, "002-bad", bad),
        named_spec_with_content(3, "003-plain", VALID),
    ];
    let results = validate_all(&specs);
    assert_eq!(results.len(), 3);
    assert_eq!(results[0].spec_name, "001-good");
    assert!(results[0].valid);
    assert_eq!(codes(&results[0]), vec!["broken-dependency"]);
    assert_eq!(results[0].issues[0].severity, IssueSeverity::Warning);
    assert_eq!(results[0].issues[0].message, "Dependency '999' not found");
    assert!(!results[1].valid);
    assert_eq!(codes(&results[1]), vec!["invalid-status", "broken-dependency"]);
    assert!(results[2].valid);
    assert!(results[2].issues.is_empty());
    for (spec, result) in specs.iter().zip(results.iter()) {
        assert_eq!(result.valid, validate(spec).valid);
    }
}

#[test]
fn references_are_checked_against_names_and_numbers() {
    let content = "---\nstatus: planned\ndependsOn: ['002-other', '002', '2', ' 2-renamed ', '0002', 'notes', '', '3', 'other', '002-othe']\n---\n# T\n## Overview\n";
    let mut notes = named_spec_with_content(0, "notes", VALID);
    notes.spec_number = None;
    let specs = vec![
        named_spec_with_content(1, "001-first", content),
        named_spec_with_content(2, "002-other", VALID),
        notes,
    ];
    let results = validate_all(&specs);
    let messages: Vec<&str> = results[0].issues.iter().map(|i| i.message.as_str()).collect();
    assert_eq!(
        messages,
        vec![
            "Empty dependency in depends_on list",
            "Dependency '3' not found",
            "Dependency 'other' not found",
        ]
    );
    assert!(results[0].valid);
}

#[test]
fn missing_decodings_count_as_undecodable() {
    let specs = vec![
        named_spec_with_content(1, "001-a", VALID),
        named_spec_with_content(2, "002-b", VALID),
    ];
    let only_first = vec![decoded(VALID)];
    let results = validate_all_specs(&specs, &only_first);
    assert!(results[0].valid);
    assert!(!results[1].valid);
    assert_eq!(codes(&results[1]), vec!["missing-status"]);
    assert!(validate_all_specs(&[], &only_first).is_empty());
}
