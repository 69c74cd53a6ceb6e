use bnotes::{BNotes, Daily, MemoryStorage, PeriodType, Quarterly, Storage, Weekly};

#[test]
fn test_daily_identifier() {
    let daily = Daily::from_date(2026, 1, 16).unwrap();
    assert_eq!(daily.identifier(), "2026-01-16");
    assert_eq!(daily.filename(), "2026-01-16.md");
}

#[test]
fn test_weekly_identifier() {
    let weekly = Weekly::from_date(2026, 1, 16).unwrap();
    assert_eq!(weekly.identifier(), "2026-W03");
    assert_eq!(weekly.filename(), "2026-W03.md");
}

#[test]
fn test_quarterly_identifier() {
    let quarterly = Quarterly::from_date(2026, 1, 16).unwrap();
    assert_eq!(quarterly.identifier(), "2026-Q1");
    assert_eq!(quarterly.filename(), "2026-Q1.md");
}

#[test]
fn test_daily_navigation() {
    let daily = Daily::from_date(2026, 1, 16).unwrap();
    let prev = daily.prev();
    let next = daily.next();

    assert_eq!(prev.identifier(), "2026-01-15");
    assert_eq!(next.identifier(), "2026-01-17");
}

#[test]
fn test_weekly_navigation() {
    let weekly = Weekly::from_date(2026, 1, 16).unwrap();
    let prev = weekly.prev();
    let next = weekly.next();

    assert_eq!(prev.identifier(), "2026-W02");
    assert_eq!(next.identifier(), "2026-W04");
}

#[test]
fn test_quarterly_navigation() {
    let q1 = Quarterly::from_date(2026, 1, 16).unwrap();
    let prev = q1.prev();
    let next = q1.next();

    assert_eq!(prev.identifier(), "2025-Q4");
    assert_eq!(next.identifier(), "2026-Q2");
}

#[test]
fn test_quarterly_shortcuts() {
    let q1 = Quarterly::from_date_str("q1").unwrap();
    let q4 = Quarterly::from_date_str("Q4").unwrap();

    assert_eq!(q1.quarter(), 1);
    assert_eq!(q4.quarter(), 4);
}

#[test]
fn test_weekly_display() {
    let weekly = Weekly::from_date(2026, 1, 16).unwrap();
    let display = weekly.display_string();

    assert!(display.contains("2026-W03"));
    assert!(display.contains("Jan 12"));
    assert!(display.contains("Jan 18"));
}

#[test]
fn test_quarterly_display() {
    let q1 = Quarterly::from_date(2026, 1, 16).unwrap();
    let display = q1.display_string();

    assert!(display.contains("2026-Q1"));
    assert!(display.contains("Jan - Mar"));
}

#[test]
fn test_weekly_migration_full_flow() {
    let mut storage = MemoryStorage::new();

    storage
        .write(
            "2026-W03.md",
            r#"# 2026-W03

## Tasks
- [x] Completed task
- [ ] Uncompleted task 1
- [ ] !!! (A) Urgent and important task @backend
- [ ] Regular task @frontend
- [>] Already migrated task
"#,
        )
        .unwrap();

    let mut bnotes = BNotes::with_defaults(storage);

    let week4 = Weekly::from_date_str("2026-W04").unwrap();
    let (note_path, migrated_count) = bnotes
        .create_weekly_with_migration(week4, None, false, true)
        .unwrap();

    assert_eq!(note_path, "2026-W04.md");
    assert_eq!(migrated_count, 3);

    let content = bnotes.storage().read_to_string(&note_path).unwrap();
    assert!(content.contains("- [ ] Uncompleted task 1"));
    assert!(content.contains("- [ ] !!! (A) Urgent and important task @backend"));
    assert!(content.contains("- [ ] Regular task @frontend"));
    assert!(!content.contains("Completed task"));
    assert!(!content.contains("Already migrated task"));

    let old_content = bnotes.storage().read_to_string("2026-W03.md").unwrap();
    assert!(old_content.contains("- [x] Completed task"));
    assert!(old_content.contains("- [>] Uncompleted task 1"));
    assert!(old_content.contains("- [>] !!! (A) Urgent and important task @backend"));
    assert!(old_content.contains("- [>] Regular task @frontend"));
    assert!(old_content.contains("- [>] Already migrated task"));
}

#[test]
fn test_weekly_migration_no_previous_note() {
    let storage = MemoryStorage::new();
    let mut bnotes = BNotes::with_defaults(storage);

    let week4 = Weekly::from_date_str("2026-W04").unwrap();
    let (note_path, migrated_count) = bnotes
        .create_weekly_with_migration(week4, None, false, true)
        .unwrap();

    assert_eq!(note_path, "2026-W04.md");
    assert_eq!(migrated_count, 0);

    let content = bnotes.storage().read_to_string(&note_path).unwrap();
    assert!(content.contains("# 2026-W04"));
    assert!(content.contains("## Goals"));
}

#[test]
fn test_weekly_migration_with_gap() {
    let mut storage = MemoryStorage::new();

    storage
        .write(
            "2026-W02.md",
            r#"# 2026-W02

## Tasks
- [ ] Old task from week 2
"#,
        )
        .unwrap();

    let mut bnotes = BNotes::with_defaults(storage);

    let week4 = Weekly::from_date_str("2026-W04").unwrap();
    let (note_path, migrated_count) = bnotes
        .create_weekly_with_migration(week4, None, false, true)
        .unwrap();

    assert_eq!(note_path, "2026-W04.md");
    assert_eq!(migrated_count, 1);

    let content = bnotes.storage().read_to_string(&note_path).unwrap();
    assert!(content.contains("- [ ] Old task from week 2"));

    let week2_content = bnotes.storage().read_to_string("2026-W02.md").unwrap();
    assert!(week2_content.contains("- [>] Old task from week 2"));
}

#[test]
fn test_weekly_no_migration_for_past_weeks() {
    let mut storage = MemoryStorage::new();

    storage
        .write(
            "2025-W01.md",
            r#"# 2025-W01

- [ ] Old task
"#,
        )
        .unwrap();

    let mut bnotes = BNotes::with_defaults(storage);

    let past_week = Weekly::from_date(2025, 1, 13).unwrap();
    let (_note_path, migrated_count) = bnotes
        .create_weekly_with_migration(past_week, None, true, true)
        .unwrap();

    assert_eq!(migrated_count, 0);
}

#[test]
fn weekly_identifier_is_read_back() {
    let week = Weekly::from_date_str("2026-W03").unwrap();
    assert_eq!(week.identifier(), "2026-W03");
    assert!(Weekly::from_date_str("2026-W99").is_err());
    assert!(Weekly::from_date_str("nonsense").is_err());
}

#[test]
fn quarterly_identifier_is_read_back() {
    let quarter = Quarterly::from_date_str(" 2026-Q3 ").unwrap();
    assert_eq!(quarter.identifier(), "2026-Q3");
    assert_eq!(quarter.display_string(), "2026-Q3     Jul - Sep");
    assert!(Quarterly::from_date_str("2026-Q5").is_err());
    assert!(Quarterly::from_date_str("q7").is_err());
    let by_date = Quarterly::from_date_str("2026-11-30").unwrap();
    assert_eq!(by_date.identifier(), "2026-Q4");
}

#[test]
fn quarters_wrap_around_the_year() {
    let q4 = Quarterly::new(2025, 4).unwrap();
    assert_eq!(q4.next().identifier(), "2026-Q1");
    let first = Quarterly::new(i32::MIN, 1).unwrap();
    assert!(first.checked_prev().is_none());
    assert!(Quarterly::new(2025, 0).is_none());
}

#[test]
fn open_periodic_creates_the_note_once() {
    let storage = MemoryStorage::new();
    let mut bnotes = BNotes::with_defaults(storage);
    let day = Daily::from_date_str("2026-01-16").unwrap();
    let path = bnotes.open_periodic(day, None).unwrap();
    assert_eq!(path, "2026-01-16.md");
    let first = bnotes.storage().read_to_string(&path).unwrap();
    assert!(first.contains("# 2026-01-16"));
    assert!(first.contains("## Tasks"));
    let again = bnotes.open_periodic(day, None).unwrap();
    assert_eq!(again, path);
    assert_eq!(bnotes.storage().read_to_string(&path).unwrap(), first);
}

#[test]
fn list_periodic_sorts_by_identifier() {
    let mut storage = MemoryStorage::new();
    storage.write("2026-W10.md", "# b").unwrap();
    storage.write("2026-W02.md", "# a").unwrap();
    storage.write("2025-W51.md", "# c").unwrap();
    storage.write("notes.md", "# d").unwrap();
    let bnotes = BNotes::with_defaults(storage);
    let weeks: Vec<Weekly> = bnotes.list_periodic().unwrap();
    let ids: Vec<String> = weeks.iter().map(|w| w.identifier()).collect();
    assert_eq!(ids, vec!["2025-W51", "2026-W02", "2026-W10"]);
}

#[test]
fn navigate_periodic_rejects_other_directions() {
    let storage = MemoryStorage::new();
    let mut bnotes = BNotes::with_defaults(storage);
    let err = bnotes
        .navigate_periodic::<Daily>("sideways", None)
        .unwrap_err();
    assert_eq!(err, bnotes::Error::InvalidDirection("sideways".to_string()));
    assert!(err.message().contains("Invalid direction: sideways"));
    assert_eq!(bnotes.storage().len(), 0);
    let path = bnotes.navigate_periodic::<Daily>("next", None).unwrap();
    assert!(path.ends_with(".md"));
}

#[test]
fn only_dates_of_the_calendar_make_a_day() {
    assert!(Daily::from_date(2026, 2, 29).is_none());
    assert!(Daily::from_date(2024, 2, 29).is_some());
    assert!(Daily::from_date(2026, 13, 1).is_none());
    assert!(Daily::from_date(2026, 0, 1).is_none());
    assert!(Quarterly::from_date(2026, 4, 31).is_none());
    assert!(Weekly::from_date(2026, 1, 0).is_none());
    assert!(Weekly::new(2026, 54).is_none());
    assert!(Weekly::new(2026, 53).is_some());
    assert!(Weekly::new(2025, 53).is_none());
    assert!(Daily::from_date_str("2026-02-30").is_err());
    assert_eq!(
        Daily::from_date_str("tomorrow").unwrap_err(),
        bnotes::Error::InvalidPeriod("tomorrow".to_string())
    );
    assert_eq!(
        bnotes::Error::InvalidPeriod("tomorrow".to_string()).message(),
        "Invalid period: tomorrow"
    );
}

#[test]
fn days_and_weeks_cross_the_year() {
    let last = Daily::from_date(2025, 12, 31).unwrap();
    assert_eq!(last.next().identifier(), "2026-01-01");
    assert_eq!(last.checked_next().unwrap().prev().identifier(), "2025-12-31");
    let week = Weekly::from_date(2025, 12, 29).unwrap();
    assert_eq!(week.identifier(), "2026-W01");
    assert_eq!(week.prev().identifier(), "2025-W52");
    assert_eq!(week.display_string(), "2026-W01    Dec 29 - Jan 04");
    assert!(week.same_week(&Weekly::from_date_str("2026-01-04").unwrap()));
    assert!(!week.same_week(&week.next()));
}

#[test]
fn the_current_period_has_an_identifier() {
    let day = Daily::current().identifier();
    assert_eq!(day.len(), 10);
    assert_eq!(Daily::from_date_str(&day).unwrap().identifier(), day);
    let week = Weekly::current().identifier();
    assert_eq!(Weekly::from_date_str(&day).unwrap().identifier(), week);
    let quarter = Quarterly::current();
    assert_eq!(
        Quarterly::from_date_str(&day).unwrap().identifier(),
        quarter.identifier()
    );
    assert_eq!(Quarterly::from_date_str("q2").unwrap().year(), quarter.year());
    assert_eq!(Daily::template_name(), "daily");
    assert_eq!(Weekly::template_name(), "weekly");
    assert_eq!(Quarterly::template_name(), "quarterly");
}

#[test]
fn marking_tasks_as_migrated_changes_open_checkboxes_only() {
    let mut storage = MemoryStorage::new();
    storage
        .write("w.md", "- [ ] a\n- [x] b\n  - [ ] c\n-[ ] d\n")
        .unwrap();
    let mut bnotes = BNotes::with_defaults(storage);
    bnotes.mark_tasks_migrated("w.md").unwrap();
    assert_eq!(
        bnotes.storage().read_to_string("w.md").unwrap(),
        "- [>] a\n- [x] b\n  - [>] c\n-[ ] d\n"
    );
    assert_eq!(
        bnotes.mark_tasks_migrated("missing.md").unwrap_err(),
        bnotes::Error::NotFound("missing.md".to_string())
    );
}

#[test]
fn the_last_weekly_note_is_found_within_a_year() {
    let mut storage = MemoryStorage::new();
    storage.write("2025-W10.md", "- [ ] far").unwrap();
    storage.write("2025-W40.md", "- [ ] near\n- [x] done").unwrap();
    let bnotes = BNotes::with_defaults(storage);
    let week = Weekly::from_date_str("2026-W05").unwrap();
    assert_eq!(
        bnotes.find_previous_weekly_note(week),
        Some("2025-W40.md".to_string())
    );
    let later = Weekly::from_date_str("2026-W41").unwrap();
    assert_eq!(bnotes.find_previous_weekly_note(later), None);
    let (previous, open) = bnotes.find_migration(week, false).unwrap();
    assert_eq!(previous, Some("2025-W40.md".to_string()));
    assert_eq!(open.len(), 1);
    assert_eq!(open[0].text, "near");
}
