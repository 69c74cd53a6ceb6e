use bnotes::health::check_health;
use bnotes::search::{
    build_heading_breadcrumbs, extract_snippet, find_content_matches,
};
use bnotes::{extract_wiki_links, LinkGraph, MemoryStorage, Note, Storage};

#[test]
fn repository_test_extract_wiki_links() {
    let content = r#"
# My Note

See also [[Other Note]] and [[Another Note]].

More content with [[Third Link]].
"#;

    let links = extract_wiki_links(content);
    assert_eq!(links.len(), 3);
    assert!(links.contains(&"Other Note".to_string()));
    assert!(links.contains(&"Another Note".to_string()));
    assert!(links.contains(&"Third Link".to_string()));
}

#[test]
fn repository_test_link_graph() {
    let note1 = Note::parse(
        "note1.md",
        r#"
# Note One

Links to [[Note Two]].
"#,
    )
    .unwrap();

    let note2 = Note::parse(
        "note2.md",
        r#"
# Note Two

Links to [[Note One]] and [[Note Three]].
"#,
    )
    .unwrap();

    let note3 = Note::parse("note3.md", "# Note Three\n\nNo links.").unwrap();

    let notes = vec![note1, note2, note3];
    let graph = LinkGraph::build(&notes);

    assert!(graph
        .outbound
        .get("Note One")
        .unwrap()
        .contains(&"Note Two".to_string()));

    assert!(graph
        .inbound
        .get("Note Two")
        .unwrap()
        .contains(&"Note One".to_string()));

    assert_eq!(graph.outbound.get("Note Two").unwrap().len(), 2);

    assert!(graph
        .outbound
        .get("Note Three")
        .unwrap_or(&Vec::new())
        .is_empty());
}

#[test]
fn repository_test_health_check_no_issues() {
    let mut storage = MemoryStorage::new();
    storage
        .write(
            "note1.md",
            r#"---
tags: [test]
---

# Note 1

Content with [[Note 2]] link"#,
        )
        .unwrap();
    storage
        .write(
            "note2.md",
            r#"---
tags: [test]
---

# Note 2

Content"#,
        )
        .unwrap();

    let notes = vec![
        Note::parse("note1.md", &storage.read_to_string("note1.md").unwrap()).unwrap(),
        Note::parse("note2.md", &storage.read_to_string("note2.md").unwrap()).unwrap(),
    ];

    let report = check_health(&notes);
    assert!(!report.has_issues());
    assert_eq!(report.issue_count(), 0);
}

#[test]
fn repository_test_health_check_broken_links() {
    let mut storage = MemoryStorage::new();
    storage
        .write(
            "note1.md",
            r#"---
tags: [test]
---

# Note 1

Content with [[Missing Note]] link"#,
        )
        .unwrap();

    let notes = vec![
        Note::parse("note1.md", &storage.read_to_string("note1.md").unwrap()).unwrap(),
    ];

    let report = check_health(&notes);
    assert!(report.has_issues());
    assert_eq!(report.broken_links.len(), 1);
    assert!(report.broken_links.contains_key("Note 1"));
}

#[test]
fn repository_test_health_check_missing_frontmatter() {
    let mut storage = MemoryStorage::new();
    storage
        .write("note1.md", "# Note 1\n\nContent without frontmatter")
        .unwrap();

    let notes = vec![
        Note::parse("note1.md", &storage.read_to_string("note1.md").unwrap()).unwrap(),
    ];

    let report = check_health(&notes);
    assert!(report.has_issues());
    assert_eq!(report.notes_without_frontmatter.len(), 1);
    assert_eq!(report.notes_without_tags.len(), 1);
}

#[test]
fn repository_test_health_check_duplicate_titles() {
    let mut storage = MemoryStorage::new();
    storage
        .write(
            "note1.md",
            r#"---
tags: [test]
---

# Same Title"#,
        )
        .unwrap();
    storage
        .write(
            "subfolder/note2.md",
            r#"---
tags: [test]
---

# Same Title"#,
        )
        .unwrap();

    let notes = vec![
        Note::parse("note1.md", &storage.read_to_string("note1.md").unwrap()).unwrap(),
        Note::parse(
            "subfolder/note2.md",
            &storage.read_to_string("subfolder/note2.md").unwrap(),
        )
        .unwrap(),
    ];

    let report = check_health(&notes);
    assert!(report.has_issues());
    assert_eq!(report.duplicate_titles.len(), 1);
}

#[test]
fn test_extract_snippet() {
    let content =
        "This is some longer text with the word project in the middle and more text after";
    let match_pos = 42;
    let query_len = 7;

    let snippet = extract_snippet(content, match_pos, query_len, 20);

    assert!(snippet.starts_with("..."));
    assert!(snippet.ends_with("..."));
    assert!(snippet.contains("project"));
    assert!(!snippet.contains("This is"));
}

#[test]
fn test_extract_snippet_at_start() {
    let content = "project is at the beginning of text";
    let snippet = extract_snippet(content, 0, 7, 20);

    assert!(!snippet.starts_with("..."));
    assert!(snippet.starts_with("project"));
}

#[test]
fn test_extract_snippet_at_end() {
    let content = "text with word at the end project";
    let match_pos = 28;
    let snippet = extract_snippet(content, match_pos, 7, 20);

    assert!(!snippet.ends_with("..."));
    assert!(snippet.ends_with("project"));
}

#[test]
fn test_build_heading_breadcrumbs() {
    let markdown = r#"# Main Heading
Some text here.

## Section One
Content in section one.

### Subsection
Content in subsection.

## Section Two
More content."#;

    let breadcrumbs = build_heading_breadcrumbs(markdown);

    assert!(breadcrumbs.contains_key("# Main Heading"));
    assert!(breadcrumbs.contains_key("## Section One"));
    assert!(breadcrumbs.contains_key("### Subsection"));

    let subsection_path = breadcrumbs.get("### Subsection").unwrap();
    assert_eq!(subsection_path.len(), 3);
    assert_eq!(subsection_path[0], "# Main Heading");
    assert_eq!(subsection_path[1], "## Section One");
    assert_eq!(subsection_path[2], "### Subsection");

    let section_two_path = breadcrumbs.get("## Section Two").unwrap();
    assert_eq!(section_two_path.len(), 2);
    assert_eq!(section_two_path[0], "# Main Heading");
    assert_eq!(section_two_path[1], "## Section Two");
}

#[test]
fn test_build_heading_breadcrumbs_empty() {
    let markdown = "Just text, no headings.";
    let breadcrumbs = build_heading_breadcrumbs(markdown);
    assert!(breadcrumbs.is_empty());
}

#[test]
fn test_build_heading_breadcrumbs_single() {
    let markdown = "# Only Heading\nSome text.";
    let breadcrumbs = build_heading_breadcrumbs(markdown);
    assert_eq!(breadcrumbs.len(), 1);
    let path = breadcrumbs.get("# Only Heading").unwrap();
    assert_eq!(path.len(), 1);
    assert_eq!(path[0], "# Only Heading");
}

#[test]
fn test_build_heading_breadcrumbs_skipped_levels() {
    let markdown = "# Main\n### Deep\nText.";
    let breadcrumbs = build_heading_breadcrumbs(markdown);
    let path = breadcrumbs.get("### Deep").unwrap();
    assert_eq!(path, &vec!["# Main", "### Deep"]);
}

#[test]
fn test_find_content_matches() {
    let content = r#"# Main
Some text with project word here.

## Section
Another project mention.

More project references."#;

    let matches = find_content_matches(content, "project");

    assert_eq!(matches.len(), 3);

    assert_eq!(matches[0].breadcrumb, vec!["# Main"]);
    assert!(matches[0].snippet.contains("project"));

    assert_eq!(matches[1].breadcrumb, vec!["# Main", "## Section"]);
}

#[test]
fn test_find_content_matches_empty_query() {
    let content = r#"# Main
Some text with content here.

## Section
More content."#;

    let matches = find_content_matches(content, "");

    assert_eq!(matches.len(), 0);
}
