use bnotes::health::check_health;
use bnotes::{extract_wiki_links, LinkGraph, MemoryStorage, Note, Storage, Task, TaskStatus};

fn wiki_links_of_three() {
    let content = r#"
# My Note

See also [[Other Note]] and [[Another Note]].

More content with [[Third Link]].
"#;

    let links = extract_wiki_links(content);
    assert_eq!(links.len(), 3);
    assert!(links.contains(&"Other Note".to_string()));
    assert!(links.contains(&"Another Note".to_string()));
    assert!(links.contains(&"Third Link".to_string()));
}

fn graph_of_three() {
    let note1 = Note::parse(
        "note1.md",
        r#"
# Note One

Links to [[Note Two]].
"#,
    )
    .unwrap();

    let note2 = Note::parse(
        "note2.md",
        r#"
# Note Two

Links to [[Note One]] and [[Note Three]].
"#,
    )
    .unwrap();

    let note3 = Note::parse("note3.md", "# Note Three\n\nNo links.").unwrap();

    let notes = vec![note1, note2, note3];
    let graph = LinkGraph::build(&notes);

    assert!(graph
        .outbound
        .get("Note One")
        .unwrap()
        .contains(&"Note Two".to_string()));

    assert!(graph
        .inbound
        .get("Note Two")
        .unwrap()
        .contains(&"Note One".to_string()));

    assert_eq!(graph.outbound.get("Note Two").unwrap().len(), 2);

    assert!(graph
        .outbound
        .get("Note Three")
        .unwrap_or(&Vec::new())
        .is_empty());
}

#[test]
fn link_test_extract_wiki_links() {
    wiki_links_of_three();
}

#[test]
fn link_lib_test_extract_wiki_links() {
    wiki_links_of_three();
}

#[test]
fn link_test_link_graph() {
    graph_of_three();
}

#[test]
fn link_lib_test_link_graph() {
    graph_of_three();
}

fn parsed(storage: &MemoryStorage, path: &str) -> Note {
    Note::parse(path, &storage.read_to_string(path).unwrap()).unwrap()
}

#[test]
fn health_test_health_check_no_issues() {
    let mut storage = MemoryStorage::new();
    storage
        .write(
            "note1.md",
            r#"---
tags: [test]
---

# Note 1

Content with [[Note 2]] link"#,
        )
        .unwrap();
    storage
        .write(
            "note2.md",
            r#"---
tags: [test]
---

# Note 2

Content"#,
        )
        .unwrap();

    let notes = vec![parsed(&storage, "note1.md"), parsed(&storage, "note2.md")];

    let report = check_health(&notes);
    assert!(!report.has_issues());
    assert_eq!(report.issue_count(), 0);
}

#[test]
fn health_test_health_check_broken_links() {
    let mut storage = MemoryStorage::new();
    storage
        .write(
            "note1.md",
            r#"---
tags: [test]
---

# Note 1

Content with [[Missing Note]] link"#,
        )
        .unwrap();

    let notes = vec![parsed(&storage, "note1.md")];

    let report = check_health(&notes);
    assert!(report.has_issues());
    assert_eq!(report.broken_links.len(), 1);
    assert!(report.broken_links.contains_key("Note 1"));
}

#[test]
fn health_test_health_check_missing_frontmatter() {
    let mut storage = MemoryStorage::new();
    storage
        .write("note1.md", "# Note 1\n\nContent without frontmatter")
        .unwrap();

    let notes = vec![parsed(&storage, "note1.md")];

    let report = check_health(&notes);
    assert!(report.has_issues());
    assert_eq!(report.notes_without_frontmatter.len(), 1);
    assert_eq!(report.notes_without_tags.len(), 1);
}

#[test]
fn health_test_health_check_duplicate_titles() {
    let mut storage = MemoryStorage::new();
    storage
        .write(
            "note1.md",
            r#"---
tags: [test]
---

# Same Title"#,
        )
        .unwrap();
    storage
        .write(
            "subfolder/note2.md",
            r#"---
tags: [test]
---

# Same Title"#,
        )
        .unwrap();

    let notes = vec![
        parsed(&storage, "note1.md"),
        parsed(&storage, "subfolder/note2.md"),
    ];

    let report = check_health(&notes);
    assert!(report.has_issues());
    assert_eq!(report.duplicate_titles.len(), 1);
}

#[test]
fn task_test_extract_tasks() {
    let content = r#"---
tags: [test]
---

# My Note

Some text.

## Tasks
- [ ] First task
- [x] Completed task
- [ ] Another task

More text.
"#;

    let note = Note::parse("test.md", content).unwrap();
    let tasks = Task::extract_from_note(&note);

    assert_eq!(tasks.len(), 3);
    assert_eq!(tasks[0].text, "First task");
    assert_eq!(tasks[0].status == TaskStatus::Completed, false);
    assert_eq!(tasks[1].text, "Completed task");
    assert_eq!(tasks[1].status == TaskStatus::Completed, true);
    assert_eq!(tasks[2].text, "Another task");
    assert_eq!(tasks[2].status == TaskStatus::Completed, false);
    assert_eq!(tasks[0].id(), "test#1");
    assert_eq!(tasks[2].id(), "test#3");
}

fn note(path: &str, content: &str) -> Note {
    Note::parse(path, content).unwrap()
}

#[test]
fn a_link_to_a_note_is_an_edge_in_both_directions() {
    let notes = vec![
        note("a.md", "# Alpha\n\nSee [[beta]] and [[Gamma]]."),
        note("b.md", "# Beta\n\nNothing here."),
    ];
    let graph = LinkGraph::build(&notes);
    // The edge stands under the text of the link, as it was written.
    assert_eq!(graph.outbound.get("Alpha").unwrap(), &vec!["beta".to_string()]);
    assert_eq!(graph.inbound.get("beta").unwrap(), &vec!["Alpha".to_string()]);
    assert!(graph.inbound.get("Beta").is_none());
    assert!(graph.inbound.get("Gamma").is_none());
    assert!(graph.outbound.contains_key("Beta"));
    assert!(graph.outbound.get("Beta").unwrap().is_empty());

    let broken = graph.broken_links(&notes);
    assert_eq!(broken.len(), 1);
    assert_eq!(broken.get("Alpha").unwrap(), &vec!["Gamma".to_string()]);
}

#[test]
fn a_link_that_is_repeated_is_one_edge() {
    let notes = vec![
        note("a.md", "# A\n\n[[B]] and again [[B]], and [[b]]."),
        note("b.md", "# B\n"),
    ];
    let graph = LinkGraph::build(&notes);
    assert_eq!(
        graph.outbound.get("A").unwrap(),
        &vec!["B".to_string(), "b".to_string()]
    );
    assert_eq!(graph.inbound.len(), 2);
}

#[test]
fn of_two_notes_with_one_title_the_later_gives_the_broken_links() {
    let notes = vec![
        note("one.md", "# T\n\n[[X]]"),
        note("two.md", "# T\n\n[[Y]]"),
    ];
    let report = check_health(&notes);
    assert_eq!(report.broken_links.len(), 1);
    assert_eq!(report.broken_links.get("T").unwrap(), &vec!["Y".to_string()]);
}

#[test]
fn links_run_across_code_spans_but_not_across_emphasis_or_paragraphs() {
    assert_eq!(
        extract_wiki_links("Text [[Some `important` note]] and `[[code]]`."),
        vec!["Some important note", "code"]
    );
    assert_eq!(
        extract_wiki_links("Emphasis [[cuts *a* link]] in two."),
        Vec::<String>::new()
    );
    assert_eq!(
        extract_wiki_links("An open [[link\n\nthat ends]] in the next paragraph."),
        Vec::<String>::new()
    );
    assert_eq!(extract_wiki_links("[[]] [[a]] [[ b ]]"), vec!["", "a", " b "]);
    assert_eq!(extract_wiki_links("[[never closed"), Vec::<String>::new());
}

#[test]
fn a_note_without_tags_and_links_is_an_orphan_until_it_gets_a_tag() {
    let lonely = vec![
        note("a.md", "# Lonely\n\nNo links."),
        note("b.md", "---\ntags: [x]\n---\n\n# Other\n"),
    ];
    let report = check_health(&lonely);
    assert_eq!(report.orphaned_notes, vec!["Lonely"]);

    let tagged = vec![
        note("a.md", "---\ntags: [kept]\n---\n\n# Lonely\n\nNo links."),
        note("b.md", "---\ntags: [x]\n---\n\n# Other\n"),
    ];
    let report = check_health(&tagged);
    assert!(report.orphaned_notes.is_empty());
    assert!(report.notes_without_tags.is_empty());
}

#[test]
fn a_note_that_is_linked_to_is_no_orphan() {
    let notes = vec![
        note("a.md", "# Source\n\n[[Target]]"),
        note("b.md", "# Target\n"),
        note("c.md", "# Alone\n"),
    ];
    let report = check_health(&notes);
    // `Target` comes in under the text of the link, which is its title.
    assert_eq!(report.orphaned_notes, vec!["Alone"]);
    assert_eq!(report.notes_without_tags, vec!["Source", "Target", "Alone"]);
    assert_eq!(
        report.notes_without_frontmatter,
        vec!["Source", "Target", "Alone"]
    );
    assert_eq!(report.issue_count(), 7);
}

#[test]
fn titles_that_differ_in_case_are_one_group_of_duplicates() {
    let notes = vec![
        note("first.md", "---\ntags: [t]\n---\n# Project Plan\n"),
        note("dir/second.md", "---\ntags: [t]\n---\n# project plan\n"),
        note("third.md", "---\ntags: [t]\n---\n# Something else\n"),
    ];
    let report = check_health(&notes);
    assert_eq!(report.duplicate_titles.len(), 1);
    assert_eq!(
        report.duplicate_titles.get("project plan").unwrap(),
        &vec!["first.md".to_string(), "dir/second.md".to_string()]
    );
    assert_eq!(report.issue_count(), 1);
    assert!(report.has_issues());
}

#[test]
fn a_note_with_a_timestamp_has_frontmatter_though_no_tags() {
    let notes = vec![note("a.md", "---\ncreated: 2024-01-15\n---\n# Dated\n")];
    let report = check_health(&notes);
    assert_eq!(report.notes_without_tags, vec!["Dated"]);
    assert!(report.notes_without_frontmatter.is_empty());
}
