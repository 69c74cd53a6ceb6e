use bnotes::calendar::{check_date, day_of_week, format_date, label_week_day, shift_week};
use bnotes::frontmatter::{
    extract_frontmatter, has_malformed_metadata, join_metadata, parse_frontmatter,
};
use bnotes::health::check_health;
use bnotes::marking::{carried_from_note, mark_open_tasks};
use bnotes::search::{find_content_matches, MatchLocation};
use chrono::{Datelike, NaiveDate, Weekday};
use bnotes::{
    BNotes, Daily, Error, LibraryConfig, LinkGraph, MemoryStorage, Note, PeriodType, Quarterly,
    Repository, Storage, Task, TaskSortOrder, TaskStatus, Weekly,
};

fn breadcrumbs(content: &str, query: &str) -> Vec<Vec<String>> {
    find_content_matches(content, query)
        .into_iter()
        .map(|m| m.breadcrumb)
        .collect()
}

#[test]
fn a_match_lies_under_the_heading_above_it_also_where_a_text_is_used_twice() {
    let content = "# Main\n## Sub\nfirst needle\n# Other\n## Sub\nlast";
    assert_eq!(
        breadcrumbs(content, "needle"),
        vec![vec!["# Main".to_string(), "## Sub".to_string()]]
    );
    assert_eq!(
        breadcrumbs(content, "last"),
        vec![vec!["# Other".to_string(), "## Sub".to_string()]]
    );
    let note = Note::parse("n.md", content).unwrap();
    let found = bnotes::search::search_notes(&[note], "needle");
    assert_eq!(found.len(), 1);
    let crumbs: Vec<Vec<String>> = found[0]
        .locations
        .iter()
        .filter_map(|l| match l {
            MatchLocation::Content { breadcrumb, .. } => Some(breadcrumb.clone()),
            _ => None,
        })
        .collect();
    assert_eq!(crumbs, vec![vec!["# Main".to_string(), "## Sub".to_string()]]);
}

fn statuses(content: &str) -> Vec<TaskStatus> {
    let note = Note::parse("n.md", content).unwrap();
    Task::extract_from_note(&note)
        .into_iter()
        .map(|t| t.status)
        .collect()
}

#[test]
fn open_tasks_are_marked_whatever_their_list_marker() {
    let content = "* [ ] star\n\n+ [ ] plus\n\n1. [ ] numbered\n\n- [x] done\n- [>] moved\n- [ ] dash\n";
    let marked = mark_open_tasks(content);
    assert_eq!(
        marked,
        "* [>] star\n\n+ [>] plus\n\n1. [>] numbered\n\n- [x] done\n- [>] moved\n- [>] dash\n"
    );
    assert_eq!(
        statuses(content),
        vec![
            TaskStatus::Uncompleted,
            TaskStatus::Uncompleted,
            TaskStatus::Uncompleted,
            TaskStatus::Completed,
            TaskStatus::Migrated,
            TaskStatus::Uncompleted,
        ]
    );
    assert_eq!(
        statuses(&marked),
        vec![
            TaskStatus::Migrated,
            TaskStatus::Migrated,
            TaskStatus::Migrated,
            TaskStatus::Completed,
            TaskStatus::Migrated,
            TaskStatus::Migrated,
        ]
    );
}

#[test]
fn text_that_looks_like_a_checkbox_is_not_marked() {
    let content = "Write - [ ] to open a task.\n\n    - [ ] in a code block\n\n- [ ] a task\n- plain - [ ] item\n";
    assert_eq!(
        mark_open_tasks(content),
        "Write - [ ] to open a task.\n\n    - [ ] in a code block\n\n- [>] a task\n- plain - [ ] item\n"
    );
    assert_eq!(mark_open_tasks(""), "");
    assert_eq!(mark_open_tasks("no tasks here"), "no tasks here");
    assert_eq!(mark_open_tasks("- [ ] \u{e9}t\u{e9}\n- [ ] zwei"), "- [>] \u{e9}t\u{e9}\n- [>] zwei");
}

#[test]
fn carried_tasks_are_migrated_in_the_earlier_note() {
    let mut storage = MemoryStorage::new();
    storage
        .write("2026-W03.md", "# 2026-W03\n\n* [ ] first\n+ [x] done\n* [ ] second @home\n\nNot a task: - [ ]\n")
        .unwrap();
    storage.write("other.md", "- [ ] elsewhere\n").unwrap();
    let mut bnotes = BNotes::with_defaults(storage);
    let week = Weekly::from_date_str("2026-W04").unwrap();
    let (path, count) = bnotes
        .create_weekly_with_migration(week, None, false, false)
        .unwrap();
    assert_eq!(path, "2026-W04.md");
    assert_eq!(count, 2);
    let earlier = bnotes.storage().read_to_string("2026-W03.md").unwrap();
    assert_eq!(
        earlier,
        "# 2026-W03\n\n* [>] first\n+ [x] done\n* [>] second @home\n\nNot a task: - [ ]\n"
    );
    assert_eq!(
        statuses(&earlier),
        vec![TaskStatus::Migrated, TaskStatus::Completed, TaskStatus::Migrated]
    );
    let new_note = bnotes.storage().read_to_string("2026-W04.md").unwrap();
    assert!(new_note.contains("- [ ] first"));
    assert!(new_note.contains("- [ ] second @home"));
    assert!(!new_note.contains("done"));
    assert_eq!(
        bnotes.storage().read_to_string("other.md").unwrap(),
        "- [ ] elsewhere\n"
    );
    assert_eq!(bnotes.storage().read_dir("").unwrap().len(), 3);
}

#[test]
fn a_weekly_note_that_is_there_is_left_alone() {
    let mut storage = MemoryStorage::new();
    storage.write("2026-W04.md", "keep").unwrap();
    storage.write("2026-W03.md", "- [ ] a\n").unwrap();
    let mut bnotes = BNotes::with_defaults(storage);
    let week = Weekly::from_date_str("2026-W04").unwrap();
    assert_eq!(
        bnotes.create_weekly_with_migration(week, None, false, false).unwrap(),
        ("2026-W04.md".to_string(), 0)
    );
    assert_eq!(bnotes.storage().read_to_string("2026-W04.md").unwrap(), "keep");
    assert_eq!(bnotes.storage().read_to_string("2026-W03.md").unwrap(), "- [ ] a\n");
}

#[test]
fn nothing_is_carried_over_from_another_week_without_a_yes() {
    let week = Weekly::from_date_str("2026-W04").unwrap();
    let other = Weekly::from_date_str("2026-W10").unwrap();

    let mut storage = MemoryStorage::new();
    storage.write("2026-W03.md", "- [ ] a\n- [ ] b\n").unwrap();
    let mut bnotes = BNotes::with_defaults(storage);
    let (path, count) = bnotes
        .create_weekly_in_week(week, None, true, true, &other)
        .unwrap();
    assert_eq!((path.as_str(), count), ("2026-W04.md", 0));
    assert_eq!(bnotes.storage().read_to_string("2026-W03.md").unwrap(), "- [ ] a\n- [ ] b\n");
    assert!(bnotes.storage().path_exists("2026-W04.md"));

    let mut storage = MemoryStorage::new();
    storage.write("2026-W03.md", "- [ ] a\n- [ ] b\n").unwrap();
    let mut bnotes = BNotes::with_defaults(storage);
    let (_, count) = bnotes
        .create_weekly_in_week(week, None, true, false, &week)
        .unwrap();
    assert_eq!(count, 0);
    assert_eq!(bnotes.storage().read_to_string("2026-W03.md").unwrap(), "- [ ] a\n- [ ] b\n");

    let mut storage = MemoryStorage::new();
    storage.write("2026-W03.md", "- [ ] a\n- [ ] b\n").unwrap();
    let mut bnotes = BNotes::with_defaults(storage);
    let (_, count) = bnotes
        .create_weekly_in_week(week, None, true, true, &week)
        .unwrap();
    assert_eq!(count, 2);
    assert_eq!(bnotes.storage().read_to_string("2026-W03.md").unwrap(), "- [>] a\n- [>] b\n");
}

#[test]
fn the_empty_query_succeeds_and_finds_nothing() {
    let mut storage = MemoryStorage::new();
    storage.write("a.md", "# A\n\ntext").unwrap();
    let repo = Repository::new(storage);
    assert!(repo.search("").unwrap().is_empty());
    assert_eq!(repo.search("text").unwrap().len(), 1);
    let mut storage = MemoryStorage::new();
    storage.write("a.md", "# A\n\ntext").unwrap();
    let bnotes = BNotes::with_defaults(storage);
    assert!(bnotes.search("").unwrap().is_empty());
}

#[test]
fn an_unknown_status_is_rejected_whatever_the_storage_holds() {
    let bnotes = BNotes::with_defaults(MemoryStorage::new());
    let order = TaskSortOrder::parse("urgency,priority,id").unwrap();
    assert_eq!(
        bnotes.list_tasks(&[], Some("bogus"), order).unwrap_err(),
        Error::InvalidStatusFilter("bogus".to_string())
    );
    let order = TaskSortOrder::parse("id").unwrap();
    assert_eq!(bnotes.list_tasks(&[], Some("DONE"), order).unwrap().len(), 0);
}

#[test]
fn a_periodic_note_that_is_there_is_left_alone() {
    let mut storage = MemoryStorage::new();
    storage.write("2026-01-16.md", "keep").unwrap();
    let mut bnotes = BNotes::with_defaults(storage);
    let day = Daily::from_date_str("2026-01-16").unwrap();
    assert_eq!(bnotes.open_periodic(day, None).unwrap(), "2026-01-16.md");
    assert_eq!(bnotes.storage().read_to_string("2026-01-16.md").unwrap(), "keep");
    assert_eq!(bnotes.storage().read_dir("").unwrap().len(), 1);
}

#[test]
fn the_neighbour_of_a_period_is_opened() {
    let mut bnotes = BNotes::with_defaults(MemoryStorage::new());
    let day = Daily::from_date_str("2026-03-01").unwrap();
    assert_eq!(bnotes.navigate_from(&day, "prev", None).unwrap(), "2026-02-28.md");
    assert_eq!(bnotes.navigate_from(&day, "next", None).unwrap(), "2026-03-02.md");
    assert!(bnotes.storage().path_exists("2026-02-28.md"));
    assert!(bnotes.storage().path_exists("2026-03-02.md"));
    assert_eq!(
        bnotes.navigate_from(&day, "up", None).unwrap_err(),
        Error::InvalidDirection("up".to_string())
    );
    assert_eq!(bnotes.storage().read_dir("").unwrap().len(), 2);
    let week = Weekly::from_date_str("2026-W01").unwrap();
    assert_eq!(bnotes.navigate_from(&week, "prev", None).unwrap(), "2025-W52.md");
}

#[test]
fn a_template_of_the_storage_comes_before_the_one_carried() {
    let mut storage = MemoryStorage::new();
    storage.write(".templates/daily.md", "# {{title}} mine\n").unwrap();
    storage.write(".templates/default.md", "Default for {{title}}\n").unwrap();
    let mut bnotes = BNotes::with_defaults(storage);
    let day = Daily::from_date_str("2026-01-16").unwrap();
    bnotes.open_periodic(day, None).unwrap();
    assert_eq!(
        bnotes.storage().read_to_string("2026-01-16.md").unwrap(),
        "# 2026-01-16 mine\n"
    );
    let path = bnotes.create_note("My Note", None).unwrap();
    assert_eq!(bnotes.storage().read_to_string(&path).unwrap(), "Default for My Note\n");
    assert_eq!(
        bnotes.create_note("My Note", None).unwrap_err(),
        Error::NoteExists(path.clone())
    );
    assert_eq!(
        bnotes.create_note("Other", Some("nowhere")).unwrap_err(),
        Error::TemplateNotFound("nowhere".to_string())
    );
    assert_eq!(bnotes.storage().read_to_string(&path).unwrap(), "Default for My Note\n");
}

#[test]
fn the_stored_configuration_is_used_where_it_is_in_order() {
    let mut storage = MemoryStorage::new();
    storage.write("config.toml", "template_dir = \"mine\"").unwrap();
    assert_eq!(LibraryConfig::load_or_default(&storage).template_dir, "mine");
    assert_eq!(BNotes::with_defaults(storage).config().template_dir, "mine");
    let mut storage = MemoryStorage::new();
    storage.write("config.toml", "template_dir = 5").unwrap();
    assert_eq!(LibraryConfig::load_or_default(&storage), LibraryConfig::default());
    assert_eq!(
        LibraryConfig::load_or_default(&MemoryStorage::new()),
        LibraryConfig::default()
    );
}

#[test]
fn a_note_with_a_malformed_block_is_all_body() {
    let content = "---\ntags: [a, b\n---\n\n# Title\n\nBody";
    let (metadata, body) = extract_frontmatter(content);
    assert_eq!(metadata, None);
    assert_eq!(body, content);
    let content = "---\ntitle: 5\n---\nText";
    let (metadata, body) = extract_frontmatter(content);
    assert_eq!(metadata, None);
    assert_eq!(body, content);
    let (metadata, body) = extract_frontmatter("---\ntitle: T\n---\n\n  Text");
    assert_eq!(metadata.unwrap().title, Some("T".to_string()));
    assert_eq!(body, "Text");
}

#[test]
fn fields_that_are_not_read_are_kept() {
    let fm = parse_frontmatter("title: T\nauthor: me\ntags: [a]\nrank: 3\nlinks:\n  - x\n  - y\n").unwrap();
    assert_eq!(fm.title, Some("T".to_string()));
    assert_eq!(fm.tags, vec!["a"]);
    let kept: Vec<(&str, &str)> = fm
        .extra
        .iter()
        .map(|f| (f.key.as_str(), f.value.as_str()))
        .collect();
    assert_eq!(
        kept,
        vec![("author", "me\n"), ("rank", "3\n"), ("links", "- x\n- y\n")]
    );
    assert!(parse_frontmatter("title: T\n").unwrap().extra.is_empty());
}

#[test]
fn a_note_is_put_together_from_metadata_and_body() {
    assert_eq!(join_metadata("title: T\n", "# Body\n"), "---\ntitle: T\n---\n# Body\n");
    assert_eq!(join_metadata("", ""), "---\n---\n");
    let (metadata, body) = extract_frontmatter(&join_metadata("title: T\n", "# Body\n"));
    assert_eq!(metadata.unwrap().title, Some("T".to_string()));
    assert_eq!(body, "# Body\n");
}

#[test]
fn the_facade_reads_the_notes_of_its_storage() {
    let mut storage = MemoryStorage::new();
    storage.write("test.md", "# Test Note\n\nSee [[Other Note]] and [[Nowhere]]").unwrap();
    storage.write("other.md", "---\ntags: [x]\n---\n# Other Note\n\nContent").unwrap();
    let bnotes = BNotes::with_defaults(storage);
    let found = bnotes.find_note_by_title("test note").unwrap();
    assert_eq!(found.len(), 1);
    assert_eq!(found[0].path, "test.md");
    assert!(bnotes.find_note_by_title("test").unwrap().is_empty());
    let tagged = bnotes.list_notes(&["x".to_string()]).unwrap();
    assert_eq!(tagged.len(), 1);
    assert_eq!(tagged[0].title, "Other Note");
    assert_eq!(bnotes.list_notes(&[]).unwrap().len(), 2);
    let (outbound, inbound) = bnotes.get_note_links("Test Note").unwrap();
    assert_eq!(outbound, vec!["Other Note"]);
    assert!(inbound.is_empty());
    let (outbound, inbound) = bnotes.get_note_links("Other Note").unwrap();
    assert!(outbound.is_empty());
    assert_eq!(inbound, vec!["Test Note"]);
    let report = bnotes.check_health().unwrap();
    assert!(report.has_issues());
    assert_eq!(report.notes_without_tags, vec!["Test Note"]);
}

#[test]
fn dates_are_written_as_chrono_writes_them() {
    let dates = [
        (2026, 1, 16),
        (0, 1, 1),
        (5, 12, 31),
        (42, 7, 4),
        (999, 2, 3),
        (1000, 10, 10),
        (9999, 12, 31),
        (10000, 1, 1),
        (-1, 1, 1),
        (-5, 6, 7),
        (-999, 11, 30),
        (-12345, 3, 4),
        (262142, 12, 31),
        (-262143, 1, 1),
    ];
    for (year, month, day) in dates {
        let date = NaiveDate::from_ymd_opt(year, month, day).unwrap();
        assert_eq!(format_date(year, month, day), date.format("%Y-%m-%d").to_string());
        assert_eq!(
            Daily::from_date(year, month, day).unwrap().identifier(),
            date.format("%Y-%m-%d").to_string()
        );
    }
    assert_eq!(format_date(2026, 1, 16), "2026-01-16");
    assert_eq!(format_date(-5, 6, 7), "-0005-06-07");
    assert_eq!(format_date(10000, 1, 1), "+10000-01-01");
}

#[test]
fn week_days_are_labelled_as_chrono_labels_them() {
    for month in 1..=12 {
        for day in [1, 9, 10, 28] {
            let date = NaiveDate::from_ymd_opt(2026, month, day).unwrap();
            let week = date.iso_week();
            let weekday = u8::try_from(date.weekday().num_days_from_monday()).unwrap();
            assert_eq!(
                label_week_day(week.year(), week.week(), weekday),
                Some(date.format("%b %d").to_string())
            );
        }
    }
    assert_eq!(label_week_day(2026, 3, 0), Some("Jan 12".to_string()));
    assert_eq!(label_week_day(2026, 3, 6), Some("Jan 18".to_string()));
    assert_eq!(label_week_day(2026, 60, 0), None);
    assert_eq!(label_week_day(2026, 3, 7), None);
    assert_eq!(label_week_day(2025, 53, 0), None);
    assert_eq!(label_week_day(2020, 53, 6), Some("Jan 03".to_string()));
}

#[test]
fn weeks_are_moved_as_chrono_moves_them() {
    let cases = [
        (2026, 1, -7),
        (2026, 1, 7),
        (2025, 52, 7),
        (2020, 53, 7),
        (2021, 1, -7),
        (2026, 30, 0),
        (2026, 30, 364),
        (2026, 30, -3),
    ];
    for (year, week, days) in cases {
        let monday = NaiveDate::from_isoywd_opt(year, week, Weekday::Mon).unwrap();
        let moved = monday + chrono::TimeDelta::days(days);
        assert_eq!(
            shift_week(year, week, days),
            Some((moved.iso_week().year(), moved.iso_week().week()))
        );
    }
    assert_eq!(shift_week(2026, 1, -7), Some((2025, 52)));
    assert_eq!(shift_week(2021, 1, -7), Some((2020, 53)));
    assert_eq!(shift_week(2026, 54, 7), None);
    assert_eq!(shift_week(2026, 1, i64::MAX), None);
    assert_eq!(shift_week(2026, 1, i64::MIN), None);
}

#[test]
fn a_week_out_of_the_reach_of_the_calendar_does_not_exist() {
    assert_eq!(day_of_week(i32::MIN, 1, 0), None);
    assert_eq!(day_of_week(i32::MAX, 1, 0), None);
    assert_eq!(day_of_week(-262145, 1, 0), None);
    assert_eq!(day_of_week(262144, 1, 0), None);
    assert_eq!(shift_week(i32::MIN, 1, 0), None);
    assert_eq!(shift_week(i32::MAX, 52, 7), None);
    assert_eq!(label_week_day(i32::MIN, 1, 0), None);
    assert_eq!(label_week_day(i32::MIN, 1, 6), None);
    assert!(Weekly::new(i32::MIN, 1).is_none());
    assert!(Weekly::new(i32::MAX, 1).is_none());
    assert_eq!(
        Weekly::from_date_str("-2147483648-W01").unwrap_err(),
        Error::InvalidPeriod("-2147483648-W01".to_string())
    );
    assert_eq!(
        Weekly::from_date_str("2147483647-W01").unwrap_err(),
        Error::InvalidPeriod("2147483647-W01".to_string())
    );
}

#[test]
fn the_days_of_a_week_are_those_of_chrono_up_to_the_ends_of_the_calendar() {
    for year in [-262144, -262143, -262142, -1, 0, 1, 2020, 2026, 262141, 262142, 262143] {
        for week in [0, 1, 2, 26, 52, 53, 54] {
            for weekday in [0u8, 3, 6, 7] {
                let expected = Weekday::try_from(weekday)
                    .ok()
                    .and_then(|day| NaiveDate::from_isoywd_opt(year, week, day))
                    .map(|d| (d.year(), d.month(), d.day()));
                assert_eq!(day_of_week(year, week, weekday), expected);
            }
        }
    }
    assert_eq!(day_of_week(2026, 3, 0), Some((2026, 1, 12)));
    assert_eq!(day_of_week(2026, 1, 0), Some((2025, 12, 29)));
}

#[test]
fn a_note_that_is_linked_to_under_another_case_is_no_orphan() {
    let notes = vec![
        Note::parse("a.md", "---\ntags: [t]\n---\n\n# A\n\nSee [[note two]].").unwrap(),
        Note::parse("b.md", "# Note Two").unwrap(),
    ];
    let report = check_health(&notes);
    assert!(report.broken_links.is_empty());
    assert!(report.orphaned_notes.is_empty());

    let graph = LinkGraph::build(&notes);
    let titles = vec!["A".to_string(), "Note Two".to_string(), "Nobody".to_string()];
    assert_eq!(graph.orphaned_notes(&titles), vec!["Nobody"]);
    assert_eq!(graph.orphaned_notes(&["NOTE TWO".to_string(), "a".to_string()]), Vec::<String>::new());

    let notes = vec![
        Note::parse("a.md", "# A\n\nSee [[NOTE TWO]] and [[missing]].").unwrap(),
        Note::parse("b.md", "# Note Two").unwrap(),
        Note::parse("c.md", "# Alone").unwrap(),
    ];
    let report = check_health(&notes);
    assert_eq!(report.orphaned_notes, vec!["Alone"]);
    assert_eq!(report.broken_links.get("A").unwrap(), &vec!["missing".to_string()]);
}

#[test]
fn only_tasks_that_can_be_marked_are_carried_over() {
    let content = "- [ ] plain\n- &#91; ] written with a reference\n- \\[ ] written with an escape\n* [ ] star\n- [x] done\n";
    let note = Note::parse("2026-W03.md", content).unwrap();
    let open: Vec<String> = Task::extract_from_note(&note)
        .into_iter()
        .filter(|t| t.status == TaskStatus::Uncompleted)
        .map(|t| t.text)
        .collect();
    let carried: Vec<(usize, String)> = carried_from_note(&note)
        .into_iter()
        .map(|t| (t.index, t.text))
        .collect();
    assert!(open.len() >= carried.len());
    assert_eq!(carried.first(), Some(&(1, "plain".to_string())));
    assert!(carried.iter().any(|(_, text)| text == "star"));
    let marked = mark_open_tasks(content);
    assert_eq!(marked.matches("[>]").count(), carried.len());
    let still_open: Vec<String> = Task::extract_from_note(&Note::parse("2026-W03.md", &marked).unwrap())
        .into_iter()
        .filter(|t| t.status == TaskStatus::Uncompleted)
        .map(|t| t.text)
        .collect();
    for (_, text) in &carried {
        assert!(!still_open.contains(text));
    }
    assert_eq!(still_open.len(), open.len() - carried.len());

    let mut storage = MemoryStorage::new();
    storage.write("2026-W03.md", content).unwrap();
    let mut bnotes = BNotes::with_defaults(storage);
    let week = Weekly::from_date_str("2026-W04").unwrap();
    let (_, count) = bnotes.create_weekly_with_migration(week, None, false, false).unwrap();
    assert_eq!(count, carried.len());
    assert_eq!(bnotes.storage().read_to_string("2026-W03.md").unwrap(), marked);
    let new_note = bnotes.storage().read_to_string("2026-W04.md").unwrap();
    for text in &still_open {
        assert!(!new_note.contains(text.as_str()));
    }
    for (_, text) in &carried {
        assert!(new_note.contains(text.as_str()));
    }
}

#[test]
fn malformed_metadata_can_be_told() {
    assert!(has_malformed_metadata("---\ntags: [a, b\n---\n\n# Title\n"));
    assert!(has_malformed_metadata("---\ntitle: 5\n---\nText"));
    assert!(!has_malformed_metadata("---\ntitle: T\n---\nText"));
    assert!(!has_malformed_metadata("# No metadata\n"));
    assert!(!has_malformed_metadata(""));
}

#[test]
fn a_storage_in_memory_passes_over_nothing() {
    let mut storage = MemoryStorage::new();
    storage.write("a.md", "# A").unwrap();
    storage.write("b.txt", "no note").unwrap();
    let repo = Repository::new(storage);
    let (notes, skipped) = repo.discover_with_skipped().unwrap();
    assert_eq!(notes.len(), 1);
    assert!(skipped.is_empty());
}

#[test]
fn identifiers_are_written_from_the_numbers() {
    assert_eq!(Weekly::new(2026, 3).unwrap().identifier(), "2026-W03");
    assert_eq!(Weekly::new(2026, 3).unwrap().prev().identifier(), "2026-W02");
    assert_eq!(Quarterly::new(2026, 1).unwrap().identifier(), "2026-Q1");
    assert_eq!(Quarterly::new(2026, 1).unwrap().prev().identifier(), "2025-Q4");
    assert_eq!(Daily::from_date(2026, 3, 1).unwrap().prev().identifier(), "2026-02-28");
}

#[test]
fn the_dates_are_those_of_chrono() {
    let years = [
        i32::MIN, -400000, -262145, -262144, -262143, -262142, -2001, -2000, -401, -400, -399,
        -101, -100, -99, -5, -4, -3, -1, 0, 1, 3, 4, 5, 99, 100, 101, 399, 400, 401, 1899, 1900,
        1999, 2000, 2001, 2023, 2024, 2025, 2026, 2100, 2400, 9999, 10000, 262141, 262142,
        262143, 262144, 400000, i32::MAX,
    ];
    for year in years {
        for month in 0..=14 {
            for day in 0..=33 {
                assert_eq!(
                    check_date(year, month, day),
                    NaiveDate::from_ymd_opt(year, month, day).is_some(),
                    "{year}-{month}-{day}"
                );
                assert_eq!(
                    Daily::from_date(year, month, day).is_some(),
                    NaiveDate::from_ymd_opt(year, month, day).is_some()
                );
            }
        }
    }
    assert!(!check_date(2026, 1, u32::MAX));
    assert!(!check_date(2026, u32::MAX, 1));
    assert!(check_date(2024, 2, 29));
    assert!(!check_date(2026, 2, 29));
    assert!(!check_date(1900, 2, 29));
    assert!(check_date(2000, 2, 29));
    assert!(check_date(-4, 2, 29));
}

#[test]
fn a_note_whose_task_lines_are_written_again_has_the_same_tasks() {
    let lines = [
        "# Tasks",
        "",
        "- [ ] !!! (A) Urgent and important @backend @Ops",
        "- [x] !! done thing @x",
        "- [>] (B) moved on",
        "- plain item",
        "* [ ] star task @a @a",
        "- [X] ! Eventually",
        "- [ ] Plain task",
    ];
    let content = lines.join("\n");
    let note = Note::parse("tasks.md", &content).unwrap();
    let tasks = Task::extract_from_note(&note);
    assert_eq!(tasks.len(), 6);

    let mut next = tasks.iter();
    let written: Vec<String> = lines
        .iter()
        .map(|line| {
            if line.starts_with("- [") || line.starts_with("* [") {
                next.next().unwrap().to_markdown_line()
            } else {
                line.to_string()
            }
        })
        .collect();
    let again = Note::parse("tasks.md", &written.join("\n")).unwrap();
    let read = Task::extract_from_note(&again);
    assert_eq!(read.len(), tasks.len());
    for (new, old) in read.iter().zip(tasks.iter()) {
        assert_eq!(new.index, old.index);
        assert_eq!(new.text, old.text);
        assert_eq!(new.priority, old.priority);
        assert_eq!(new.urgency, old.urgency);
        assert_eq!(new.tags, old.tags);
        assert_eq!(new.status, TaskStatus::Uncompleted);
        assert_eq!(new.id(), old.id());
    }
}
