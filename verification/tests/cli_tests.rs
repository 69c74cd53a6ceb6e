use bnotes::cli::{
    commit_message, connected_notes, count_changes, default_config_path, expand_home,
    filter_tasks_by_note, filter_tasks_by_tags, find_task, parse_task_id, periodic_action,
    pluralize, resolve_notes_dir, split_highlights, summarize_changes, PeriodicAction,
    PeriodicCommand, Segment,
};
use bnotes::order::to_ordering;
use bnotes::repository::{filter_notes_by_tags, find_notes_by_title, note_path_for};
use bnotes::tasks::{
    extract_tasks_from_notes, parse_status_filter, select_tasks, sort_tasks, Sign,
};
use bnotes::templates::{
    get_embedded_template, list_templates, render_template, render_template_at,
};
use bnotes::{
    BNotes, Config, Error, LibraryConfig, LinkGraph, MemoryStorage, Note, PeriodicConfig,
    SortField, Storage, Task, TaskSortOrder, TaskStatus,
};
use std::cmp::Ordering;

fn note(path: &str, content: &str) -> Note {
    Note::parse(path, content).unwrap()
}

#[test]
fn pluralize_takes_the_singular_for_one() {
    assert_eq!(pluralize(1, "note", "notes"), "note");
    assert_eq!(pluralize(0, "note", "notes"), "notes");
    assert_eq!(pluralize(2, "note", "notes"), "notes");
}

#[test]
fn a_periodic_command_names_its_action() {
    assert_eq!(
        periodic_action(Some(PeriodicCommand::List), Some("2026-01-01".to_string())),
        PeriodicAction::List
    );
    assert_eq!(periodic_action(Some(PeriodicCommand::Prev), None), PeriodicAction::Prev);
    assert_eq!(periodic_action(Some(PeriodicCommand::Next), None), PeriodicAction::Next);
    assert_eq!(periodic_action(None, Some("prev".to_string())), PeriodicAction::Prev);
    assert_eq!(periodic_action(None, Some("next".to_string())), PeriodicAction::Next);
    assert_eq!(periodic_action(None, Some("list".to_string())), PeriodicAction::List);
    assert_eq!(
        periodic_action(None, Some("2026-01-01".to_string())),
        PeriodicAction::Open(Some("2026-01-01".to_string()))
    );
    assert_eq!(periodic_action(None, None), PeriodicAction::Open(None));
}

#[test]
fn the_home_directory_stands_for_the_tilde() {
    assert_eq!(expand_home("~/notes", Some("/home/me")).unwrap(), "/home/me/notes");
    assert_eq!(expand_home("~", Some("/home/me")).unwrap(), "/home/me");
    assert_eq!(expand_home("/abs/~", None).unwrap(), "/abs/~");
    assert_eq!(expand_home("~other", None).unwrap(), "~other");
    assert_eq!(expand_home("~/notes", None).unwrap_err(), Error::HomeNotSet);
    assert_eq!(
        Error::HomeNotSet.message(),
        "HOME environment variable not set"
    );
}

#[test]
fn the_notes_directory_is_chosen_in_order() {
    assert_eq!(
        resolve_notes_dir(Some("/arg"), Some("/env"), Some("/data"), Some("/home")).unwrap(),
        "/arg"
    );
    assert_eq!(
        resolve_notes_dir(None, Some("/env"), Some("/data"), Some("/home")).unwrap(),
        "/env"
    );
    assert_eq!(
        resolve_notes_dir(None, None, Some("/data"), Some("/home")).unwrap(),
        "/data/bnotes"
    );
    assert_eq!(
        resolve_notes_dir(None, None, None, Some("/home")).unwrap(),
        "/home/.local/share/bnotes"
    );
    assert_eq!(
        resolve_notes_dir(None, None, None, None).unwrap_err(),
        Error::HomeNotSet
    );
    assert_eq!(
        default_config_path(Some("/cfg/"), Some("/home")).unwrap(),
        "/cfg/bnotes/config.toml"
    );
    assert_eq!(
        default_config_path(None, Some("/home")).unwrap(),
        "/home/.config/bnotes/config.toml"
    );
    assert_eq!(default_config_path(None, None).unwrap_err(), Error::HomeNotSet);
}

#[test]
fn the_template_directory_lies_below_the_notes() {
    let mut config = Config {
        notes_dir: "/notes".to_string(),
        editor: "vim".to_string(),
        template_dir: ".templates".to_string(),
        periodic: PeriodicConfig::default(),
    };
    assert_eq!(config.template_dir_path(), "/notes/.templates");
    config.template_dir = "/elsewhere".to_string();
    assert_eq!(config.template_dir_path(), "/elsewhere");
    assert_eq!(LibraryConfig::default().template_dir_path(), ".templates");
}

#[test]
fn changes_are_summed_up_by_kind() {
    let status = " M notes/a.md\n?? new.md\nA  staged.md\nD  gone.md\nR  old -> new\nMM both.md\nxx\n";
    assert_eq!(
        summarize_changes(status),
        "Modified:\n- notes/a.md\n- both.md\n\nAdded:\n- new.md\n- staged.md\n\nDeleted:\n- gone.md"
    );
    assert_eq!(summarize_changes("?? only.md\r\n"), "Added:\n- only.md");
    assert_eq!(summarize_changes(" D a\n D b"), "Deleted:\n- a\n- b");
    assert_eq!(summarize_changes(""), "");
    assert_eq!(count_changes(&summarize_changes(status)), 5);
    assert_eq!(count_changes(""), 0);
    assert_eq!(commit_message("subject", ""), "subject");
    assert_eq!(commit_message("subject", "Added:\n- a"), "subject\n\nAdded:\n- a");
}

fn segment(text: &str, highlighted: bool) -> Segment {
    Segment {
        text: text.to_string(),
        highlighted,
    }
}

#[test]
fn matches_are_highlighted_in_the_text_as_it_is_written() {
    assert_eq!(
        split_highlights("The Project and the project.", "PROJECT"),
        vec![
            segment("The ", false),
            segment("Project", true),
            segment(" and the ", false),
            segment("project", true),
            segment(".", false),
        ]
    );
    assert_eq!(split_highlights("nothing", "x"), vec![segment("nothing", false)]);
    assert_eq!(split_highlights("text", ""), vec![segment("text", false)]);
    assert_eq!(
        split_highlights("aaa", "aa"),
        vec![segment("", false), segment("aa", true), segment("a", false)]
    );
}

#[test]
fn connected_notes_come_in_order() {
    let notes = vec![
        note("z.md", "# Zeta\n\n[[Alpha]] [[Missing]]"),
        note("a.md", "# Alpha\n"),
        note("m.md", "# Mu\n"),
    ];
    let graph = LinkGraph::build(&notes);
    assert_eq!(connected_notes(&graph), vec!["Alpha", "Zeta"]);
    assert!(connected_notes(&LinkGraph::new()).is_empty());
    assert!(connected_notes(&LinkGraph::default()).is_empty());
    assert_eq!(graph.orphaned_notes(&["Mu".to_string(), "Zeta".to_string()]), vec!["Mu"]);
}

fn sample_tasks() -> Vec<Task> {
    extract_tasks_from_notes(&[
        note("work.md", "# Work Log\n\n- [ ] fix @work/urgent @team\n- [x] done @work\n"),
        note("home.md", "# Home\n\n- [>] moved @garden\n- [ ] plain\n"),
    ])
}

#[test]
fn tasks_are_chosen_by_the_title_of_their_note() {
    let tasks = sample_tasks();
    let texts = |tasks: &Vec<Task>| -> Vec<String> { tasks.iter().map(|t| t.text.clone()).collect() };
    assert_eq!(texts(&filter_tasks_by_note(&tasks, "WORK*")), vec!["fix", "done"]);
    assert_eq!(texts(&filter_tasks_by_note(&tasks, "hom?")), vec!["moved", "plain"]);
    assert_eq!(texts(&filter_tasks_by_note(&tasks, "*o*")).len(), 4);
    assert!(filter_tasks_by_note(&tasks, "work").is_empty());
    assert!(filter_tasks_by_note(&tasks, "").is_empty());
}

#[test]
fn tasks_are_chosen_by_tags_and_the_tags_below_them() {
    let tasks = sample_tasks();
    let texts = |tasks: &Vec<Task>| -> Vec<String> { tasks.iter().map(|t| t.text.clone()).collect() };
    assert_eq!(
        texts(&filter_tasks_by_tags(&tasks, &["Work".to_string()])),
        vec!["fix", "done"]
    );
    assert_eq!(
        texts(&filter_tasks_by_tags(&tasks, &["work".to_string(), "team".to_string()])),
        vec!["fix"]
    );
    assert!(filter_tasks_by_tags(&tasks, &["wor".to_string()]).is_empty());
    assert_eq!(filter_tasks_by_tags(&tasks, &[]).len(), 4);
}

#[test]
fn a_status_filter_is_one_of_five_words() {
    assert_eq!(parse_status_filter("ALL").unwrap(), None);
    assert_eq!(parse_status_filter("open").unwrap(), Some(TaskStatus::Uncompleted));
    assert_eq!(parse_status_filter("Done").unwrap(), Some(TaskStatus::Completed));
    assert_eq!(parse_status_filter("completed").unwrap(), Some(TaskStatus::Completed));
    assert_eq!(parse_status_filter("migrated").unwrap(), Some(TaskStatus::Migrated));
    let err = parse_status_filter("closed").unwrap_err();
    assert_eq!(err, Error::InvalidStatusFilter("closed".to_string()));
    assert_eq!(
        err.message(),
        "Invalid status filter: closed. Use 'open', 'completed', 'migrated', or 'all'."
    );
}

#[test]
fn a_task_list_is_chosen_by_status() {
    let notes = vec![
        note("work.md", "# Work Log\n\n- [ ] fix @work/urgent @team\n- [x] done @work\n"),
        note("home.md", "# Home\n\n- [>] moved @garden\n- [ ] plain\n"),
    ];
    let order = TaskSortOrder::parse("id").unwrap();
    let texts = |status: Option<&str>| -> Vec<String> {
        select_tasks(&notes, status, &order)
            .unwrap()
            .iter()
            .map(|t| t.text.clone())
            .collect()
    };
    assert_eq!(texts(None), vec!["moved", "plain", "fix", "done"]);
    assert_eq!(texts(Some("all")), vec!["moved", "plain", "fix", "done"]);
    assert_eq!(texts(Some("open")), vec!["plain", "fix"]);
    assert_eq!(texts(Some("done")), vec!["done"]);
    assert_eq!(texts(Some("migrated")), vec!["moved"]);
    assert!(select_tasks(&notes, Some("none"), &order).is_err());

    let mut storage = MemoryStorage::new();
    storage.write("x.md", "- [ ] one").unwrap();
    let bnotes = BNotes::with_defaults(storage);
    assert_eq!(
        bnotes
            .list_tasks(&[], Some("bogus"), TaskSortOrder::default())
            .unwrap_err(),
        Error::InvalidStatusFilter("bogus".to_string())
    );
    assert_eq!(
        bnotes
            .list_tasks(&["missing".to_string()], None, TaskSortOrder::default())
            .unwrap(),
        Vec::<Task>::new()
    );
}

#[test]
fn a_sort_order_names_its_fields() {
    let order = TaskSortOrder::parse(" priority , id,urgency").unwrap();
    assert_eq!(
        order.fields,
        vec![SortField::Priority, SortField::Id, SortField::Urgency]
    );
    assert_eq!(
        TaskSortOrder::default().fields,
        vec![SortField::Urgency, SortField::Priority, SortField::Id]
    );
    let err = TaskSortOrder::parse("id,, wrong ,also").unwrap_err();
    assert_eq!(err, Error::UnknownSortField("".to_string()));
    let err = TaskSortOrder::parse("id, wrong ,also").unwrap_err();
    assert_eq!(err, Error::UnknownSortField("wrong".to_string()));
    assert_eq!(
        err.message(),
        "Unknown sort field: wrong. Valid fields: urgency, priority, id"
    );
    assert!(TaskSortOrder::parse("").is_err());
}

#[test]
fn sorting_keeps_equal_tasks_in_their_order() {
    let tasks = extract_tasks_from_notes(&[note(
        "n.md",
        "- [ ] (B) first b\n- [ ] (A) an a\n- [ ] (B) second b\n- [ ] none\n- [ ] ! (B) third b\n",
    )]);
    let by_priority = TaskSortOrder {
        fields: vec![SortField::Priority],
    };
    let sorted = sort_tasks(&tasks, &by_priority);
    let texts: Vec<&str> = sorted.iter().map(|t| t.text.as_str()).collect();
    assert_eq!(texts, vec!["an a", "first b", "second b", "third b", "none"]);
    let unsorted = sort_tasks(&tasks, &TaskSortOrder { fields: vec![] });
    assert_eq!(unsorted, tasks);
}

#[test]
fn urgencies_and_priorities_compare() {
    type B = BNotes<MemoryStorage>;
    let s = |t: &str| Some(t.to_string());
    assert_eq!(B::compare_urgency(&s("!!!"), &s("!!")), Ordering::Less);
    assert_eq!(B::compare_urgency(&s("!"), &s("!!")), Ordering::Greater);
    assert_eq!(B::compare_urgency(&s("?"), &None), Ordering::Less);
    assert_eq!(B::compare_urgency(&s("?"), &s("!")), Ordering::Greater);
    assert_eq!(B::compare_urgency(&None, &None), Ordering::Equal);
    assert_eq!(B::compare_priority(&s("A"), &s("B")), Ordering::Less);
    assert_eq!(B::compare_priority(&s("B"), &s("AA")), Ordering::Greater);
    assert_eq!(B::compare_priority(&s("A"), &s("A")), Ordering::Equal);
    assert_eq!(B::compare_priority(&None, &s("Z")), Ordering::Greater);
    assert_eq!(B::compare_priority(&s("a"), &None), Ordering::Less);
    assert_eq!(to_ordering(Sign::Before), Ordering::Less);
    assert_eq!(to_ordering(Sign::Same), Ordering::Equal);
    assert_eq!(to_ordering(Sign::After), Ordering::Greater);
}

#[test]
fn a_task_is_found_by_its_identifier() {
    let notes = vec![
        note("dir/work.md", "# W\n\n- [ ] first\n- [x] second\n"),
        note("home.md", "# H\n\n- [ ] other\n"),
    ];
    assert_eq!(parse_task_id("work#2").unwrap(), ("work".to_string(), 2));
    let task = find_task(&notes, "work#2").unwrap();
    assert_eq!(task.text, "second");
    assert_eq!(task.id(), "work#2");
    assert_eq!(
        find_task(&notes, "work#3").unwrap_err(),
        Error::TaskNotFound("work#3".to_string())
    );
    assert_eq!(
        find_task(&notes, "work#0").unwrap_err(),
        Error::TaskNotFound("work#0".to_string())
    );
    assert_eq!(
        find_task(&notes, "absent#1").unwrap_err(),
        Error::NoteNotFound("absent".to_string())
    );
    for bad in ["work", "work#two", "a#1#2", "work#-1"] {
        assert_eq!(
            find_task(&notes, bad).unwrap_err(),
            Error::InvalidTaskId(bad.to_string())
        );
    }
    assert_eq!(
        Error::InvalidTaskId("x".to_string()).message(),
        "Invalid task ID format: x. Expected 'filename#index'"
    );
    assert_eq!(Error::NoteNotFound("n".to_string()).message(), "Note not found: n");
    assert_eq!(Error::TaskNotFound("n#1".to_string()).message(), "Task not found: n#1");
}

#[test]
fn notes_are_chosen_by_title_and_tags() {
    let notes = vec![
        note("a.md", "---\ntags: [Work, Important]\n---\n# Stra\u{df}e\n"),
        note("b.md", "---\ntags: [work]\n---\n# STRASSE\n"),
        note("c.md", "# straSSe\n"),
    ];
    let titled = find_notes_by_title(&notes, "Strasse");
    let paths: Vec<&str> = titled.iter().map(|n| n.path.as_str()).collect();
    assert_eq!(paths, vec!["b.md", "c.md"]);
    let tagged = filter_notes_by_tags(&notes, &["WORK".to_string()]);
    assert_eq!(tagged.len(), 2);
    let tagged = filter_notes_by_tags(&notes, &["work".to_string(), "important".to_string()]);
    assert_eq!(tagged.len(), 1);
    assert_eq!(filter_notes_by_tags(&notes, &[]).len(), 3);
}

#[test]
fn the_file_of_a_note_is_named_after_its_title() {
    assert_eq!(note_path_for("My Test Note"), "my-test-note.md");
    assert_eq!(note_path_for("  Caf\u{e9} & Bar -- 2024!  "), "caf\u{e9}-bar-2024.md");
    assert_eq!(note_path_for("???"), ".md");
}

#[test]
fn templates_are_filled_in() {
    assert_eq!(
        render_template_at(
            "# {{title}} on {{date}}\n{{datetime}} {{title}}\n{{migrated_tasks}}|",
            "T",
            "2026-01-16",
            "2026-01-16T10:00:00+00:00",
            Some("- [ ] a"),
        ),
        "# T on 2026-01-16\n2026-01-16T10:00:00+00:00 T\n- [ ] a|"
    );
    assert_eq!(
        render_template_at("{{migrated_tasks}}{{unknown}}", "T", "d", "dt", None),
        "{{unknown}}"
    );
    let now = render_template("{{date}}|{{datetime}}", "T");
    let parts: Vec<&str> = now.split('|').collect();
    assert_eq!(parts[0].len(), 10);
    assert!(parts[1].starts_with(parts[0]));
    assert!(!now.contains("{{"));
}

#[test]
fn the_library_carries_four_templates() {
    for name in ["default", "daily", "weekly", "quarterly"] {
        let template = get_embedded_template(name).unwrap();
        assert!(template.contains("# {{title}}"));
        assert_eq!(get_embedded_template(&format!("{}.md", name)), Some(template));
    }
    assert!(get_embedded_template("weekly").unwrap().contains("{{migrated_tasks}}"));
    assert_eq!(get_embedded_template("monthly"), None);
    assert_eq!(get_embedded_template("Daily"), None);
    assert_eq!(
        list_templates(&[
            "t/weekly.md".to_string(),
            "t/notes.txt".to_string(),
            "t/daily.md".to_string(),
            "t/.md".to_string(),
        ]),
        vec!["daily", "weekly"]
    );
}

#[test]
fn a_configuration_must_be_in_order() {
    let mut storage = MemoryStorage::new();
    assert_eq!(LibraryConfig::load(&storage).unwrap_err(), Error::ConfigNotFound);
    assert!(BNotes::from_storage(MemoryStorage::new()).is_err());
    storage.write("config.toml", "template_dir = 5").unwrap();
    assert_eq!(
        LibraryConfig::load(&storage).unwrap_err(),
        Error::ConfigInvalid("config.toml".to_string())
    );
    assert_eq!(LibraryConfig::load_or_default(&storage), LibraryConfig::default());
    storage.write("config.toml", "periodic = \"no table\"").unwrap();
    assert!(LibraryConfig::load(&storage).is_err());
    storage.write("config.toml", "not toml at all [").unwrap();
    assert!(LibraryConfig::load(&storage).is_err());
    storage.write("config.toml", "unknown = 1\n[periodic]\nother = 2").unwrap();
    assert_eq!(LibraryConfig::load(&storage).unwrap(), LibraryConfig::default());
    assert_eq!(
        Error::ConfigNotFound.message(),
        "No library config found. Expected .bnotes/config.toml or config.toml"
    );
}

#[test]
fn the_memory_storage_keeps_files_only() {
    let mut storage = MemoryStorage::default();
    assert_eq!(
        storage.read_to_string("missing.md").unwrap_err(),
        Error::NotFound("missing.md".to_string())
    );
    assert_eq!(
        Error::NotFound("missing.md".to_string()).message(),
        "File not found: missing.md"
    );
    storage.write("dir/b.md", "b").unwrap();
    storage.write("dir/a.md", "a").unwrap();
    storage.write("dir/a.md", "changed").unwrap();
    storage.write("dir-other.md", "o").unwrap();
    storage.create_dir_all("made").unwrap();
    assert_eq!(storage.len(), 3);
    assert_eq!(storage.read_to_string("dir/a.md").unwrap(), "changed");
    assert!(storage.is_dir("dir"));
    assert!(storage.is_dir(""));
    assert!(!storage.is_dir("dir/a.md"));
    assert!(!storage.is_dir("made"));
    assert!(!storage.path_exists("dir"));
    assert_eq!(
        storage.read_dir("dir").unwrap(),
        vec!["dir-other.md", "dir/a.md", "dir/b.md"]
    );
    assert_eq!(storage.read_dir("dir/").unwrap(), vec!["dir/a.md", "dir/b.md"]);
    assert!(storage.read_dir("nowhere").unwrap().is_empty());
}

#[test]
fn hidden_files_and_other_files_are_no_notes() {
    let mut storage = MemoryStorage::new();
    storage.write("note.md", "# Seen").unwrap();
    storage.write(".hidden.md", "# Hidden").unwrap();
    storage.write("dir/.git/x.md", "# Hidden too").unwrap();
    storage.write("dir/deep/note.md", "# Deep").unwrap();
    storage.write("readme.txt", "# Text").unwrap();
    let bnotes = BNotes::with_defaults(storage);
    let titles: Vec<String> = bnotes
        .list_notes(&[])
        .unwrap()
        .into_iter()
        .map(|n| n.title)
        .collect();
    assert_eq!(titles, vec!["Deep", "Seen"]);
    let (outbound, inbound) = bnotes.get_note_links("Seen").unwrap();
    assert!(outbound.is_empty() && inbound.is_empty());
    assert!(!bnotes.check_health().unwrap().orphaned_notes.is_empty());
    assert!(bnotes.get_link_graph().unwrap().outbound.contains_key("Deep"));
}

/// Whether the pattern matches the whole text: `?` is any one character,
/// `*` any number of characters.
fn matches_by_the_rule(pattern: &[char], text: &[char]) -> bool {
    match pattern.first() {
        None => text.is_empty(),
        Some('*') => {
            matches_by_the_rule(&pattern[1..], text)
                || (!text.is_empty() && matches_by_the_rule(pattern, &text[1..]))
        }
        Some(&c) => {
            !text.is_empty()
                && (c == '?' || c == text[0])
                && matches_by_the_rule(&pattern[1..], &text[1..])
        }
    }
}

#[test]
fn patterns_match_by_the_rule() {
    let pieces = ["", "a", "b", "ab", "ba", "*", "?", "a*", "*a", "a?b", "**", "?*", "*?*", "a*b*a"];
    let mut patterns: Vec<String> = Vec::new();
    for x in pieces {
        for y in pieces {
            patterns.push(format!("{}{}", x, y));
        }
    }
    let titles = ["", "a", "b", "ab", "ba", "aab", "abab", "abba", "a?b", "a*b", "bbbb", "aba"];
    for title in titles {
        let content = format!("---\ntitle: \"{}\"\n---\n- [ ] task\n", title);
        let tasks = extract_tasks_from_notes(&[note("fallback.md", &content)]);
        assert_eq!(tasks.len(), 1);
        let shown: Vec<char> = tasks[0].note_title.chars().collect();
        for pattern in &patterns {
            let wanted: Vec<char> = pattern.chars().collect();
            assert_eq!(
                filter_tasks_by_note(&tasks, pattern).len() == 1,
                matches_by_the_rule(&wanted, &shown),
                "{:?} on {:?}",
                pattern,
                tasks[0].note_title
            );
        }
    }
}
