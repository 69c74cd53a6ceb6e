use bnotes::{
    BNotes, Daily, Error, MemoryStorage, PeriodType, Quarterly, Repository, Storage, Weekly,
};

#[test]
fn notes_are_found_in_the_order_of_their_paths() {
    let mut storage = MemoryStorage::new();
    storage.write("c.md", "# C").unwrap();
    storage.write("a/z.md", "# Z").unwrap();
    storage.write(".hidden/x.md", "# X").unwrap();
    storage.write("a/notes.txt", "# T").unwrap();
    storage.write("a/.git/y.md", "# Y").unwrap();
    storage.write("b.md", "# B").unwrap();
    let repo = Repository::new(storage);
    let notes = repo.discover_notes().unwrap();
    let paths: Vec<&str> = notes.iter().map(|n| n.path.as_str()).collect();
    assert_eq!(paths, vec!["a/z.md", "b.md", "c.md"]);
    let titles: Vec<&str> = notes.iter().map(|n| n.title.as_str()).collect();
    assert_eq!(titles, vec!["Z", "B", "C"]);
}

#[test]
fn a_storage_without_files_has_no_notes() {
    let repo = Repository::new(MemoryStorage::new());
    assert_eq!(repo.discover_notes().unwrap().len(), 0);
}

#[test]
fn a_directory_lists_the_files_below_it_in_order() {
    let mut storage = MemoryStorage::new();
    storage.write("d/b.md", "b").unwrap();
    storage.write("d/a.md", "a").unwrap();
    storage.write("e.md", "e").unwrap();
    storage.write("d/a.md", "again").unwrap();
    assert!(storage.is_dir("d"));
    assert!(storage.is_dir(""));
    assert!(!storage.is_dir("e.md"));
    assert!(!storage.path_exists("d"));
    assert!(storage.path_exists("d/a.md"));
    assert_eq!(storage.read_dir("d").unwrap(), vec!["d/a.md", "d/b.md"]);
    assert_eq!(storage.read_dir("").unwrap(), vec!["d/a.md", "d/b.md", "e.md"]);
    assert_eq!(storage.read_dir("e.md").unwrap(), Vec::<String>::new());
    assert_eq!(storage.read_to_string("d/a.md").unwrap(), "again");
}

#[test]
fn the_preferred_configuration_file_decides() {
    let mut storage = MemoryStorage::new();
    storage.write("config.toml", "template_dir = \"other\"").unwrap();
    let library = BNotes::from_storage(storage).ok().unwrap();
    assert_eq!(library.config().template_dir, "other");

    let mut storage = MemoryStorage::new();
    storage.write("config.toml", "template_dir = \"other\"").unwrap();
    storage.write(".bnotes/config.toml", "template_dir = \"first\"").unwrap();
    let library = BNotes::from_storage(storage).ok().unwrap();
    assert_eq!(library.config().template_dir, "first");

    let mut storage = MemoryStorage::new();
    storage.write("config.toml", "template_dir = \"other\"").unwrap();
    storage.write(".bnotes/config.toml", "template_dir = 5").unwrap();
    assert_eq!(
        BNotes::from_storage(storage).err(),
        Some(Error::ConfigInvalid(".bnotes/config.toml".to_string()))
    );

    assert_eq!(
        BNotes::from_storage(MemoryStorage::new()).err(),
        Some(Error::ConfigNotFound)
    );
}

#[test]
fn every_file_that_names_a_period_is_listed() {
    let mut storage = MemoryStorage::new();
    storage.write("2026-W02.md", "# week").unwrap();
    storage.write("2026-01-05.md", "# a day of that week").unwrap();
    storage.write("2026-Q1.md", "# quarter").unwrap();
    storage.write("readme.md", "# none").unwrap();
    let bnotes = BNotes::with_defaults(storage);
    let weeks: Vec<Weekly> = bnotes.list_periodic().unwrap();
    let ids: Vec<String> = weeks.iter().map(|w| w.identifier()).collect();
    assert_eq!(ids, vec!["2026-W02", "2026-W02"]);
    let days: Vec<Daily> = bnotes.list_periodic().unwrap();
    let ids: Vec<String> = days.iter().map(|d| d.identifier()).collect();
    assert_eq!(ids, vec!["2026-01-05"]);
    let quarters: Vec<Quarterly> = bnotes.list_periodic().unwrap();
    let ids: Vec<String> = quarters.iter().map(|q| q.identifier()).collect();
    assert_eq!(ids, vec!["2026-Q1", "2026-Q1"]);
    let empty = BNotes::with_defaults(MemoryStorage::new());
    assert_eq!(empty.list_periodic::<Weekly>().unwrap().len(), 0);
}

#[test]
fn an_earlier_week_is_looked_for_one_year_back() {
    let week = Weekly::from_date_str("2026-W05").unwrap();
    let mut storage = MemoryStorage::new();
    storage.write("2025-W04.md", "- [ ] too far").unwrap();
    let bnotes = BNotes::with_defaults(storage);
    assert_eq!(bnotes.find_previous_weekly_note(week), None);

    let mut storage = MemoryStorage::new();
    storage.write("2025-W04.md", "- [ ] too far").unwrap();
    storage.write("2025-W05.md", "- [ ] in reach").unwrap();
    let bnotes = BNotes::with_defaults(storage);
    assert_eq!(
        bnotes.find_previous_weekly_note(week),
        Some("2025-W05.md".to_string())
    );

    let mut storage = MemoryStorage::new();
    storage.write("2026-W05.md", "- [ ] the week itself").unwrap();
    storage.write("2026-W06.md", "- [ ] a later week").unwrap();
    let bnotes = BNotes::with_defaults(storage);
    assert_eq!(bnotes.find_previous_weekly_note(week), None);

    let mut storage = MemoryStorage::new();
    storage.write("2026-W03.md", "- [ ] near").unwrap();
    storage.write("2026-W04.md", "- [ ] nearest").unwrap();
    storage.write("2025-W50.md", "- [ ] far").unwrap();
    let bnotes = BNotes::with_defaults(storage);
    assert_eq!(
        bnotes.find_previous_weekly_note(week),
        Some("2026-W04.md".to_string())
    );
}

#[test]
fn tasks_are_looked_for_in_the_current_week_or_without_asking() {
    let mut storage = MemoryStorage::new();
    storage
        .write("2026-W04.md", "# W04\n\n- [ ] open\n- [x] done\n- [>] moved\n- [ ] also open\n")
        .unwrap();
    let bnotes = BNotes::with_defaults(storage);
    let week = Weekly::from_date_str("2026-W05").unwrap();
    let other = Weekly::from_date_str("2026-W06").unwrap();

    let (previous, open) = bnotes.find_migration_in_week(week, true, &other).unwrap();
    assert_eq!(previous, None);
    assert_eq!(open.len(), 0);

    let (previous, open) = bnotes.find_migration_in_week(week, false, &other).unwrap();
    assert_eq!(previous, Some("2026-W04.md".to_string()));
    let texts: Vec<&str> = open.iter().map(|t| t.text.as_str()).collect();
    assert_eq!(texts, vec!["open", "also open"]);

    let (previous, open) = bnotes.find_migration_in_week(week, true, &week).unwrap();
    assert_eq!(previous, Some("2026-W04.md".to_string()));
    assert_eq!(open.len(), 2);

    let none = BNotes::with_defaults(MemoryStorage::new());
    let (previous, open) = none.find_migration_in_week(week, false, &week).unwrap();
    assert_eq!(previous, None);
    assert_eq!(open.len(), 0);

    let (previous, open) = bnotes.find_migration(week, false).unwrap();
    assert_eq!(previous, Some("2026-W04.md".to_string()));
    assert_eq!(open.len(), 2);
}

#[test]
fn the_current_periods_are_those_of_today() {
    let before = Daily::current().identifier();
    let week = Weekly::current().identifier();
    let quarter = Quarterly::current().identifier();
    let after = Daily::current().identifier();
    assert!(Daily::from_date_str(&before).is_ok());
    let weeks = [
        Weekly::from_date_str(&before).unwrap().identifier(),
        Weekly::from_date_str(&after).unwrap().identifier(),
    ];
    assert!(weeks.contains(&week));
    let quarters = [
        Quarterly::from_date_str(&before).unwrap().identifier(),
        Quarterly::from_date_str(&after).unwrap().identifier(),
    ];
    assert!(quarters.contains(&quarter));
}
