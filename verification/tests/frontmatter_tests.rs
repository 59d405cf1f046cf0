use std::collections::HashMap;

use leanspec::frontmatter::{extract_title, frontmatter_block, parse_frontmatter, Frontmatter};
use leanspec::timestamp::Timestamp;

/// Decodes the YAML text of a frontmatter block.
fn decode(yaml: &str) -> Option<Frontmatter> {
    let value: serde_yaml::Value = serde_yaml::from_str(yaml).ok()?;
    let map = value.as_mapping()?;
    let text = |key: &str| map.get(key).and_then(|v| v.as_str()).map(String::from);
    let either = |a: &str, b: &str| text(a).or_else(|| text(b));
    let list = |key: &str| -> Option<Vec<String>> {
        map.get(key)
            .and_then(|v| v.as_sequence())
            .map(|items| items.iter().filter_map(|v| v.as_str().map(String::from)).collect())
    };
    Some(Frontmatter {
        status: text("status"),
        priority: text("priority"),
        tags: list("tags").unwrap_or_default(),
        assignee: text("assignee"),
        created: text("created"),
        created_at: either("createdAt", "created_at"),
        updated_at: either("updatedAt", "updated_at"),
        completed_at: either("completedAt", "completed_at"),
        depends_on: list("dependsOn").or_else(|| list("depends_on")).unwrap_or_default(),
        transitions: Vec::new(),
        extra: HashMap::new(),
    })
}

/// Parses a document, decoding its block on the way.
fn parse(content: &str) -> (Frontmatter, String) {
    let decoded = frontmatter_block(content).and_then(|(yaml, _)| decode(&yaml));
    parse_frontmatter(content, decoded)
}

#[test]
fn test_parse_frontmatter_basic() {
    let content = r#"---
status: planned
priority: high
tags:
  - architecture
  - desktop
---

# My Spec Title

Some content here.
"#;
    let (fm, body) = parse(content);
    assert_eq!(fm.status, Some("planned".to_string()));
    assert_eq!(fm.priority, Some("high".to_string()));
    assert_eq!(fm.tags, vec!["architecture", "desktop"]);
    assert!(body.contains("# My Spec Title"));
    assert!(body.contains("Some content here."));
}

#[test]
fn test_parse_frontmatter_with_depends_on() {
    let content = r#"---
status: in-progress
depends_on:
  - 001-init
  - 002-setup
---

# Spec with deps
"#;
    let (fm, _) = parse(content);
    assert_eq!(fm.status, Some("in-progress".to_string()));
    assert_eq!(fm.depends_on, vec!["001-init", "002-setup"]);
}

#[test]
fn test_parse_frontmatter_no_frontmatter() {
    let content = "# Just a title\n\nNo frontmatter here.";
    let (fm, body) = parse(content);
    assert!(fm.status.is_none());
    assert_eq!(body, content);
}

#[test]
fn test_extract_title() {
    let content = "Some preamble\n\n# The Title\n\nBody content";
    assert_eq!(extract_title(content), Some("The Title".to_string()));
}

#[test]
fn test_extract_title_none() {
    let content = "No heading here\n\nJust paragraphs";
    assert_eq!(extract_title(content), None);
}

#[test]
fn block_is_the_text_between_the_delimiter_lines() {
    let (yaml, body) = frontmatter_block("---\nstatus: planned\ntags: []\n---\n\n# T\n").unwrap();
    assert_eq!(yaml, "status: planned\ntags: []");
    assert_eq!(body, "# T\n");
}

#[test]
fn block_accepts_carriage_returns() {
    let (yaml, body) = frontmatter_block("---\r\nstatus: planned\r\n---\r\n\r\nBody").unwrap();
    assert_eq!(yaml, "status: planned\r");
    assert_eq!(body, "Body");
}

#[test]
fn block_may_be_empty() {
    let (yaml, body) = frontmatter_block("---\n---\nBody").unwrap();
    assert_eq!(yaml, "");
    assert_eq!(body, "Body");
}

#[test]
fn block_needs_an_opening_delimiter_line() {
    assert!(frontmatter_block("").is_none());
    assert!(frontmatter_block("--").is_none());
    assert!(frontmatter_block("status: planned\n---\n").is_none());
    assert!(frontmatter_block("---status: planned\n---\n").is_none());
    assert!(frontmatter_block(" ---\nstatus: planned\n---\n").is_none());
}

#[test]
fn block_needs_a_closing_delimiter_line() {
    assert!(frontmatter_block("---").is_none());
    assert!(frontmatter_block("---\n").is_none());
    assert!(frontmatter_block("---\nstatus: planned\n").is_none());
    assert!(frontmatter_block("---\nstatus: planned\n--- \nbody").is_none());
    assert!(frontmatter_block("---\nstatus: planned\n----\nbody").is_none());
    assert!(frontmatter_block("---\nstatus: planned\n ---\nbody").is_none());
}

#[test]
fn block_ends_at_the_first_closing_line() {
    let (yaml, body) = frontmatter_block("---\na: 1\n---\nx\n---\ny").unwrap();
    assert_eq!(yaml, "a: 1");
    assert_eq!(body, "x\n---\ny");
}

#[test]
fn block_may_end_the_document() {
    let (yaml, body) = frontmatter_block("---\na: 1\n---").unwrap();
    assert_eq!(yaml, "a: 1");
    assert_eq!(body, "");
}

#[test]
fn malformed_yaml_falls_back_to_the_whole_text() {
    let content = "---\nstatus: [unclosed\n---\n\n# Title\n";
    assert!(frontmatter_block(content).is_some());
    let (fm, body) = parse_frontmatter(content, None);
    assert!(fm.status.is_none());
    assert!(fm.tags.is_empty());
    assert!(fm.depends_on.is_empty());
    assert!(fm.extra.is_empty());
    assert_eq!(body, content);
}

#[test]
fn decoded_frontmatter_is_ignored_without_a_block() {
    let mut decoded = Frontmatter::default();
    decoded.status = Some("planned".to_string());
    let (fm, body) = parse_frontmatter("no block here", Some(decoded));
    assert!(fm.status.is_none());
    assert_eq!(body, "no block here");
}

#[test]
fn default_frontmatter_declares_nothing() {
    let fm = Frontmatter::default();
    assert!(fm.status.is_none());
    assert!(fm.priority.is_none());
    assert!(fm.tags.is_empty());
    assert!(fm.assignee.is_none());
    assert!(fm.created.is_none());
    assert!(fm.created_at.is_none());
    assert!(fm.updated_at.is_none());
    assert!(fm.completed_at.is_none());
    assert!(fm.depends_on.is_empty());
    assert!(fm.transitions.is_empty());
    assert!(fm.extra.is_empty());
    assert_eq!(fm.status_or_default(), "planned");
    assert_eq!(fm.priority_or_default(), "medium");
}

#[test]
fn declared_status_and_priority_win_over_defaults() {
    let mut fm = Frontmatter::default();
    fm.status = Some("complete".to_string());
    fm.priority = Some("low".to_string());
    assert_eq!(fm.status_or_default(), "complete");
    assert_eq!(fm.priority_or_default(), "low");
}

#[test]
fn created_prefers_the_newer_field() {
    let mut fm = Frontmatter::default();
    fm.created = Some("2020-05-06T07:08:09Z".to_string());
    assert_eq!(fm.get_created(), Some(Timestamp { secs: 1588748889, nanos: 0 }));
    fm.created_at = Some("2024-01-02T03:04:05Z".to_string());
    assert_eq!(fm.get_created(), Some(Timestamp { secs: 1704164645, nanos: 0 }));
}

#[test]
fn created_does_not_fall_back_from_an_unreadable_newer_field() {
    let mut fm = Frontmatter::default();
    fm.created = Some("2020-05-06T07:08:09Z".to_string());
    fm.created_at = Some("yesterday".to_string());
    assert_eq!(fm.get_created(), None);
}

#[test]
fn updated_reads_offsets_and_fractions() {
    let mut fm = Frontmatter::default();
    assert_eq!(fm.get_updated(), None);
    fm.updated_at = Some("2024-01-02T04:04:05.250+01:00".to_string());
    assert_eq!(fm.get_updated(), Some(Timestamp { secs: 1704164645, nanos: 250_000_000 }));
    fm.updated_at = Some("2024-01-02".to_string());
    assert_eq!(fm.get_updated(), None);
}

#[test]
fn title_is_trimmed() {
    assert_eq!(extract_title("  #   Spaced out   \nrest"), Some("Spaced out".to_string()));
    assert_eq!(extract_title("\t# Tabbed\r\nrest"), Some("Tabbed".to_string()));
}

#[test]
fn title_is_the_first_level_one_heading() {
    assert_eq!(extract_title("## Two\n# One\n# Other"), Some("One".to_string()));
    assert_eq!(extract_title("#NoSpace\n#\n"), None);
    assert_eq!(extract_title(""), None);
    assert_eq!(extract_title("# "), None);
    assert_eq!(extract_title("#  \n# x"), Some("x".to_string()));
}

#[test]
fn title_may_be_empty_after_trimming() {
    assert_eq!(extract_title("x\n# \t \ny"), None);
    assert_eq!(extract_title("# a # b"), Some("a # b".to_string()));
}
