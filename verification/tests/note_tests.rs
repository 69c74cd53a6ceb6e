use bnotes::{Note, Task, TaskStatus};

fn date_of(t: Option<bnotes::Timestamp>) -> String {
    let t = t.unwrap();
    chrono::DateTime::from_timestamp(t.seconds, t.nanos)
        .unwrap()
        .format("%Y-%m-%d")
        .to_string()
}

#[test]
fn note_test_extract_tasks() {
    let content = r#"---
tags: [test]
---

# My Note

Some text.

## Tasks
- [ ] First task
- [x] Completed task
- [ ] Another task

More text.
"#;

    let note = Note::parse("test.md", content).unwrap();
    let tasks = Task::extract_from_note(&note);

    assert_eq!(tasks.len(), 3);
    assert_eq!(tasks[0].text, "First task");
    assert_eq!(tasks[0].status, TaskStatus::Uncompleted);
    assert_eq!(tasks[0].priority, None);
    assert_eq!(tasks[1].text, "Completed task");
    assert_eq!(tasks[1].status, TaskStatus::Completed);
    assert_eq!(tasks[1].priority, None);
    assert_eq!(tasks[2].text, "Another task");
    assert_eq!(tasks[2].status, TaskStatus::Uncompleted);
    assert_eq!(tasks[2].priority, None);
}

#[test]
fn test_extract_tasks_with_priorities() {
    let content = r#"---
tags: [test]
---

# My Note

## Tasks
- [ ] (A) High priority task
- [ ] (B) Medium priority task
- [ ] Regular task without priority
- [x] (A) Completed high priority
- [ ] (C) Low priority task

"#;

    let note = Note::parse("test.md", content).unwrap();
    let tasks = Task::extract_from_note(&note);

    assert_eq!(tasks.len(), 5);

    assert_eq!(tasks[0].priority, Some("A".to_string()));
    assert_eq!(tasks[0].text, "High priority task");

    assert_eq!(tasks[1].priority, Some("B".to_string()));
    assert_eq!(tasks[1].text, "Medium priority task");

    assert_eq!(tasks[2].priority, None);
    assert_eq!(tasks[2].text, "Regular task without priority");

    assert_eq!(tasks[3].priority, Some("A".to_string()));
    assert_eq!(tasks[3].text, "Completed high priority");
    assert_eq!(tasks[3].status, TaskStatus::Completed);

    assert_eq!(tasks[4].priority, Some("C".to_string()));
    assert_eq!(tasks[4].text, "Low priority task");
}

#[test]
fn test_extract_migrated_tasks() {
    let content = r#"---
tags: [test]
---

# My Note

## Tasks
- [ ] Uncompleted task
- [x] Completed task
- [>] Migrated task
- [>] !!! (A) Migrated with priority and urgency @backend

"#;

    let note = Note::parse("test.md", content).unwrap();
    let tasks = Task::extract_from_note(&note);

    assert_eq!(tasks.len(), 4);

    assert_eq!(tasks[0].status, TaskStatus::Uncompleted);
    assert_eq!(tasks[0].text, "Uncompleted task");

    assert_eq!(tasks[1].status, TaskStatus::Completed);
    assert_eq!(tasks[1].text, "Completed task");

    assert_eq!(tasks[2].status, TaskStatus::Migrated);
    assert_eq!(tasks[2].text, "Migrated task");

    assert_eq!(tasks[3].status, TaskStatus::Migrated);
    assert_eq!(tasks[3].text, "Migrated with priority and urgency");
    assert_eq!(tasks[3].priority, Some("A".to_string()));
    assert_eq!(tasks[3].urgency, Some("!!!".to_string()));
    assert_eq!(tasks[3].tags, vec!["backend"]);
}

#[test]
fn test_reconstruct_task_line() {
    let task = Task {
        note_path: "test.md".to_string(),
        note_title: "Test".to_string(),
        index: 1,
        status: TaskStatus::Uncompleted,
        text: "Simple task".to_string(),
        priority: None,
        urgency: None,
        tags: vec![],
    };
    assert_eq!(task.to_markdown_line(), "- [ ] Simple task");

    let task_with_priority = Task {
        note_path: "test.md".to_string(),
        note_title: "Test".to_string(),
        index: 1,
        status: TaskStatus::Uncompleted,
        text: "High priority task".to_string(),
        priority: Some("A".to_string()),
        urgency: None,
        tags: vec![],
    };
    assert_eq!(task_with_priority.to_markdown_line(), "- [ ] (A) High priority task");

    let task_with_all = Task {
        note_path: "test.md".to_string(),
        note_title: "Test".to_string(),
        index: 1,
        status: TaskStatus::Uncompleted,
        text: "Complete task".to_string(),
        priority: Some("B".to_string()),
        urgency: Some("!!!".to_string()),
        tags: vec!["backend".to_string(), "urgent".to_string()],
    };
    assert_eq!(
        task_with_all.to_markdown_line(),
        "- [ ] !!! (B) Complete task @backend @urgent"
    );
}

#[test]
fn test_tags_array_format() {
    let content = r#"---
title: Test Note
tags: [rust, testing, example]
---

# Test Note
"#;

    let note = Note::parse("test.md", content).unwrap();
    assert_eq!(note.tags, vec!["rust", "testing", "example"]);
}

#[test]
fn test_tags_comma_separated_format() {
    let content = r#"---
title: Test Note
tags: "rust, testing, example"
---

# Test Note
"#;

    let note = Note::parse("test.md", content).unwrap();
    assert_eq!(note.tags, vec!["rust", "testing", "example"]);
}

#[test]
fn test_tags_comma_separated_with_extra_whitespace() {
    let content = r#"---
title: Test Note
tags: "rust,  testing  ,   example"
---

# Test Note
"#;

    let note = Note::parse("test.md", content).unwrap();
    assert_eq!(note.tags, vec!["rust", "testing", "example"]);
}

#[test]
fn test_tags_empty_string() {
    let content = r#"---
title: Test Note
tags: ""
---

# Test Note
"#;

    let note = Note::parse("test.md", content).unwrap();
    assert_eq!(note.tags, Vec::<String>::new());
}

#[test]
fn test_tags_missing_field() {
    let content = r#"---
title: Test Note
---

# Test Note
"#;

    let note = Note::parse("test.md", content).unwrap();
    assert_eq!(note.tags, Vec::<String>::new());
}

#[test]
fn test_datetime_yyyy_mm_dd_format() {
    let content = r#"---
title: Test Note
created: 2024-01-15
updated: 2024-02-20
---

# Test Note
"#;

    let note = Note::parse("test.md", content).unwrap();
    assert!(note.created.is_some());
    assert!(note.updated.is_some());

    assert_eq!(date_of(note.created), "2024-01-15");
    assert_eq!(date_of(note.updated), "2024-02-20");
}

#[test]
fn test_datetime_rfc3339_format() {
    let content = r#"---
title: Test Note
created: 2024-01-15T10:30:00Z
updated: 2024-02-20T15:45:30Z
---

# Test Note
"#;

    let note = Note::parse("test.md", content).unwrap();
    assert!(note.created.is_some());
    assert!(note.updated.is_some());

    assert_eq!(date_of(note.created), "2024-01-15");
    assert_eq!(date_of(note.updated), "2024-02-20");
}

#[test]
fn test_datetime_mixed_formats() {
    let content = r#"---
title: Test Note
created: 2024-01-15
updated: 2024-02-20T15:45:30Z
---

# Test Note
"#;

    let note = Note::parse("test.md", content).unwrap();
    assert!(note.created.is_some());
    assert!(note.updated.is_some());

    assert_eq!(date_of(note.created), "2024-01-15");
    assert_eq!(date_of(note.updated), "2024-02-20");
}

#[test]
fn test_datetime_missing_fields() {
    let content = r#"---
title: Test Note
---

# Test Note
"#;

    let note = Note::parse("test.md", content).unwrap();
    assert!(note.created.is_none());
    assert!(note.updated.is_none());
}

#[test]
fn test_parse_urgency_only() {
    let content = "- [ ] !!! Fix critical bug";
    let note = Note::parse("test.md", &format!("# Test\n\n{}", content)).unwrap();
    let tasks = Task::extract_from_note(&note);

    assert_eq!(tasks.len(), 1);
    assert_eq!(tasks[0].urgency, Some("!!!".to_string()));
    assert_eq!(tasks[0].priority, None);
    assert_eq!(tasks[0].text, "Fix critical bug");
}

#[test]
fn test_parse_urgency_and_priority() {
    let content = "- [ ] !! (B) Moderate task";
    let note = Note::parse("test.md", &format!("# Test\n\n{}", content)).unwrap();
    let tasks = Task::extract_from_note(&note);

    assert_eq!(tasks.len(), 1);
    assert_eq!(tasks[0].urgency, Some("!!".to_string()));
    assert_eq!(tasks[0].priority, Some("B".to_string()));
    assert_eq!(tasks[0].text, "Moderate task");
}

#[test]
fn test_parse_no_space_after_urgency() {
    let content = "- [ ] !!!(A) Task";
    let note = Note::parse("test.md", &format!("# Test\n\n{}", content)).unwrap();
    let tasks = Task::extract_from_note(&note);

    assert_eq!(tasks.len(), 1);
    assert_eq!(tasks[0].urgency, None);
    assert_eq!(tasks[0].priority, None);
    assert_eq!(tasks[0].text, "!!!(A) Task");
}

#[test]
fn test_parse_exclamation_in_text() {
    let content = "- [ ] Do this now!";
    let note = Note::parse("test.md", &format!("# Test\n\n{}", content)).unwrap();
    let tasks = Task::extract_from_note(&note);

    assert_eq!(tasks.len(), 1);
    assert_eq!(tasks[0].urgency, None);
    assert_eq!(tasks[0].text, "Do this now!");
}

#[test]
fn test_parse_empty_priority() {
    let content = "- [ ] !!! () Task with empty priority";
    let note = Note::parse("test.md", &format!("# Test\n\n{}", content)).unwrap();
    let tasks = Task::extract_from_note(&note);

    assert_eq!(tasks.len(), 1);
    assert_eq!(tasks[0].urgency, Some("!!!".to_string()));
    assert_eq!(tasks[0].priority, None);
    assert_eq!(tasks[0].text, "Task with empty priority");
}
