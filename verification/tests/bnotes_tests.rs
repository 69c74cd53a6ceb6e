use bnotes::{BNotes, MemoryStorage, Storage, TaskSortOrder};

#[test]
fn test_bnotes_with_defaults() {
    let mut storage = MemoryStorage::new();
    storage.write("test.md", "# Test Note\n\nContent").unwrap();

    let bnotes = BNotes::with_defaults(storage);
    let notes = bnotes.list_notes(&[]).unwrap();

    assert_eq!(notes.len(), 1);
    assert_eq!(notes[0].title, "Test Note");
}

#[test]
fn test_bnotes_search() {
    let mut storage = MemoryStorage::new();
    storage
        .write("work.md", "# Work Note\n\nDiscuss the project timeline")
        .unwrap();
    storage
        .write("personal.md", "# Personal Note\n\nBuy groceries")
        .unwrap();

    let bnotes = BNotes::with_defaults(storage);
    let results = bnotes.search("project").unwrap();

    assert_eq!(results.len(), 1);
    assert_eq!(results[0].note.title, "Work Note");
    assert!(!results[0].locations.is_empty());
}

#[test]
fn test_bnotes_list_with_tags() {
    let mut storage = MemoryStorage::new();
    storage
        .write(
            "work.md",
            r#"---
tags: [work, important]
---

# Work Note"#,
        )
        .unwrap();
    storage
        .write(
            "personal.md",
            r#"---
tags: [personal]
---

# Personal Note"#,
        )
        .unwrap();

    let bnotes = BNotes::with_defaults(storage);
    let results = bnotes.list_notes(&["work".to_string()]).unwrap();

    assert_eq!(results.len(), 1);
    assert_eq!(results[0].title, "Work Note");
}

#[test]
fn test_bnotes_find_by_title() {
    let mut storage = MemoryStorage::new();
    storage.write("test.md", "# Test Note\n\nContent").unwrap();
    storage.write("other.md", "# Other Note\n\nContent").unwrap();

    let bnotes = BNotes::with_defaults(storage);
    let results = bnotes.find_note_by_title("test note").unwrap();

    assert_eq!(results.len(), 1);
    assert_eq!(results[0].title, "Test Note");
}

#[test]
fn test_bnotes_from_storage_with_config() {
    let mut storage = MemoryStorage::new();
    storage
        .write(
            ".bnotes/config.toml",
            r#"
template_dir = "my-templates"

[periodic]
daily_template = "custom-daily.md"
"#,
        )
        .unwrap();
    storage.write("note.md", "# Note\n\nContent").unwrap();

    let bnotes = BNotes::from_storage(storage).unwrap();
    let notes = bnotes.list_notes(&[]).unwrap();

    assert_eq!(notes.len(), 1);
    assert_eq!(bnotes.config().template_dir, "my-templates");
}

#[test]
fn test_bnotes_create_note_without_template() {
    let storage = MemoryStorage::new();
    let mut bnotes = BNotes::with_defaults(storage);

    let path = bnotes.create_note("My Test Note", None).unwrap();

    assert_eq!(path, "my-test-note.md");

    let notes = bnotes.list_notes(&[]).unwrap();
    assert_eq!(notes.len(), 1);
    assert_eq!(notes[0].title, "My Test Note");
    assert!(notes[0].content.contains("# My Test Note"));
}

#[test]
fn test_bnotes_create_note_with_template() {
    let mut storage = MemoryStorage::new();
    storage
        .write(
            ".bnotes/templates/daily.md",
            r#"---
tags: [daily]
created: {{datetime}}
---

# {{title}}

## Tasks
- [ ]

## Notes
"#,
        )
        .unwrap();

    let mut bnotes = BNotes::with_defaults(storage);
    let path = bnotes.create_note("2024-01-15", Some("daily")).unwrap();

    assert_eq!(path, "2024-01-15.md");

    let notes = bnotes.list_notes(&[]).unwrap();
    assert_eq!(notes.len(), 1);
    assert_eq!(notes[0].title, "2024-01-15");
    assert!(notes[0].content.contains("## Tasks"));
    assert!(notes[0].content.contains("## Notes"));
    assert_eq!(notes[0].tags, vec!["daily"]);
}

#[test]
fn test_bnotes_create_note_duplicate_error() {
    let storage = MemoryStorage::new();
    let mut bnotes = BNotes::with_defaults(storage);

    bnotes.create_note("Test", None).unwrap();
    let result = bnotes.create_note("Test", None);

    assert!(result.is_err());
    assert!(result.unwrap_err().message().contains("already exists"));
}

#[test]
fn test_bnotes_create_note_template_not_found() {
    let storage = MemoryStorage::new();
    let mut bnotes = BNotes::with_defaults(storage);

    let result = bnotes.create_note("Test", Some("nonexistent"));

    assert!(result.is_err());
    assert!(result.unwrap_err().message().contains("not found"));
}

#[test]
fn test_bnotes_create_note_with_default_template() {
    let mut storage = MemoryStorage::new();
    storage
        .write(
            ".bnotes/templates/default.md",
            r#"---
tags: []
created: {{datetime}}
---

# {{title}}
"#,
        )
        .unwrap();

    let mut bnotes = BNotes::with_defaults(storage);
    let path = bnotes.create_note("Test Note", None).unwrap();

    assert_eq!(path, "test-note.md");

    let notes = bnotes.list_notes(&[]).unwrap();
    assert_eq!(notes.len(), 1);
    assert_eq!(notes[0].title, "Test Note");
    assert!(notes[0].content.contains("# Test Note"));
}

#[test]
fn test_bnotes_create_note_with_embedded_default_template() {
    let storage = MemoryStorage::new();
    let mut bnotes = BNotes::with_defaults(storage);

    let path = bnotes.create_note("Test Note", None).unwrap();

    assert_eq!(path, "test-note.md");

    let notes = bnotes.list_notes(&[]).unwrap();
    assert_eq!(notes.len(), 1);
    assert_eq!(notes[0].title, "Test Note");
    assert!(notes[0].content.contains("# Test Note"));
}

#[test]
fn test_bnotes_create_note_with_embedded_template() {
    let storage = MemoryStorage::new();
    let mut bnotes = BNotes::with_defaults(storage);

    let path = bnotes.create_note("Test Daily", Some("daily")).unwrap();

    assert_eq!(path, "test-daily.md");

    let notes = bnotes.list_notes(&[]).unwrap();
    assert_eq!(notes.len(), 1);
    assert_eq!(notes[0].title, "Test Daily");
    assert!(notes[0].content.contains("## Tasks"));
    assert_eq!(notes[0].tags, vec!["daily"]);
}

#[test]
fn test_bnotes_list_tasks_sorted_by_priority() {
    let mut storage = MemoryStorage::new();

    storage
        .write(
            "note1.md",
            r#"---
title: Note 1
---

# Note 1

- [ ] (B) Medium priority task
- [ ] (A) High priority task
- [ ] Task without priority
"#,
        )
        .unwrap();

    storage
        .write(
            "note2.md",
            r#"---
title: Note 2
---

# Note 2

- [ ] (C) Low priority task
- [ ] (A) Another high priority
"#,
        )
        .unwrap();

    let bnotes = BNotes::with_defaults(storage);
    let tasks = bnotes
        .list_tasks(&[], None, TaskSortOrder::parse("priority,id").unwrap())
        .unwrap();

    assert_eq!(tasks.len(), 5);

    assert_eq!(tasks[0].priority, Some("A".to_string()));
    assert_eq!(tasks[1].priority, Some("A".to_string()));

    assert_eq!(tasks[2].priority, Some("B".to_string()));

    assert_eq!(tasks[3].priority, Some("C".to_string()));

    assert_eq!(tasks[4].priority, None);
    assert_eq!(tasks[4].text, "Task without priority");
}

#[test]
fn test_bnotes_list_tasks_sorted_by_id() {
    let mut storage = MemoryStorage::new();

    storage
        .write(
            "a-note.md",
            r#"---
title: A Note
---

# A Note

- [ ] (C) Low priority task from a-note
"#,
        )
        .unwrap();

    storage
        .write(
            "b-note.md",
            r#"---
title: B Note
---

# B Note

- [ ] (A) High priority task from b-note
"#,
        )
        .unwrap();

    let bnotes = BNotes::with_defaults(storage);
    let tasks = bnotes
        .list_tasks(&[], None, TaskSortOrder::parse("id").unwrap())
        .unwrap();

    assert_eq!(tasks.len(), 2);
    assert_eq!(tasks[0].note_title, "A Note");
    assert_eq!(tasks[0].index, 1);
    assert_eq!(tasks[0].priority, Some("C".to_string()));
    assert_eq!(tasks[1].note_title, "B Note");
    assert_eq!(tasks[1].index, 1);
    assert_eq!(tasks[1].priority, Some("A".to_string()));
}

#[test]
fn test_task_sort_order_parse() {
    let order = TaskSortOrder::parse("urgency,priority,id").unwrap();
    assert_eq!(order.fields.len(), 3);

    let order = TaskSortOrder::parse("priority,id").unwrap();
    assert_eq!(order.fields.len(), 2);

    let order = TaskSortOrder::parse("id").unwrap();
    assert_eq!(order.fields.len(), 1);

    let result = TaskSortOrder::parse("invalid,priority");
    assert!(result.is_err());
}

#[test]
fn test_task_sort_order_default() {
    let order = TaskSortOrder::default();
    assert_eq!(order.fields.len(), 3);
}

#[test]
fn test_task_sorting_by_urgency_priority_id() {
    let mut storage = MemoryStorage::new();

    storage
        .write(
            "tasks.md",
            r#"# Tasks

- [ ] !!! (A) Critical and important
- [ ] !! (A) Soon and important
- [ ] !!! (C) Critical but low priority
- [ ] (A) Important but not urgent
- [ ] ! Eventually do this
- [ ] Plain task
"#,
        )
        .unwrap();

    let bnotes = BNotes::with_defaults(storage);
    let sort_order = TaskSortOrder::parse("urgency,priority,id").unwrap();
    let tasks = bnotes.list_tasks(&[], None, sort_order).unwrap();

    assert_eq!(tasks.len(), 6);

    assert_eq!(tasks[0].urgency, Some("!!!".to_string()));
    assert_eq!(tasks[0].priority, Some("A".to_string()));

    assert_eq!(tasks[1].urgency, Some("!!!".to_string()));
    assert_eq!(tasks[1].priority, Some("C".to_string()));

    assert_eq!(tasks[2].urgency, Some("!!".to_string()));

    assert_eq!(tasks[3].urgency, Some("!".to_string()));

    assert_eq!(tasks[4].urgency, None);
    assert_eq!(tasks[4].priority, Some("A".to_string()));

    assert_eq!(tasks[5].urgency, None);
    assert_eq!(tasks[5].priority, None);
}

#[test]
fn test_task_sorting_by_priority_id() {
    let mut storage = MemoryStorage::new();

    storage
        .write(
            "tasks.md",
            r#"# Tasks

- [ ] !!! (C) Critical C
- [ ] (A) Important A
- [ ] (B) Important B
"#,
        )
        .unwrap();

    let bnotes = BNotes::with_defaults(storage);
    let sort_order = TaskSortOrder::parse("priority,id").unwrap();
    let tasks = bnotes.list_tasks(&[], None, sort_order).unwrap();

    assert_eq!(tasks[0].priority, Some("A".to_string()));
    assert_eq!(tasks[1].priority, Some("B".to_string()));
    assert_eq!(tasks[2].priority, Some("C".to_string()));
}
