use bnotes::frontmatter::{extract_frontmatter, parse_frontmatter, split_metadata};
use bnotes::note::extract_first_h1;
use bnotes::path;
use bnotes::search::{
    build_heading_positions, extract_snippet, find_content_matches, get_breadcrumb_at_position,
    search_notes,
};
use bnotes::text::{
    chars_of, eq_ignore_ascii_case, is_whitespace, parse_i32, parse_u32, parse_usize,
    replace_text, split_words, string_of, trimmed,
};
use bnotes::{MatchLocation, Note, Task, TaskStatus, Timestamp};

fn tasks_of(body: &str) -> Vec<Task> {
    Task::extract_from_note(&Note::parse("list.md", body).unwrap())
}

#[test]
fn a_full_task_line_is_taken_apart() {
    let tasks = tasks_of("- [ ] !!! (A) Ship the release @backend @urgent");
    assert_eq!(tasks.len(), 1);
    let task = &tasks[0];
    assert_eq!(task.status, TaskStatus::Uncompleted);
    assert_eq!(task.urgency, Some("!!!".to_string()));
    assert_eq!(task.priority, Some("A".to_string()));
    assert_eq!(task.text, "Ship the release");
    assert_eq!(task.tags, vec!["backend", "urgent"]);
    assert_eq!(task.index, 1);
    assert_eq!(task.note_title, "list");
    assert_eq!(task.note_path, "list.md");
    assert!(task.status.is_incomplete());
}

#[test]
fn an_urgency_without_a_space_is_text() {
    let tasks = tasks_of("- [ ] !!!(A) text");
    assert_eq!(tasks[0].urgency, None);
    assert_eq!(tasks[0].priority, None);
    assert_eq!(tasks[0].text, "!!!(A) text");
}

#[test]
fn only_the_four_marks_make_a_task() {
    let tasks = tasks_of(
        "- [ ] open\n- [x] done\n- [X] DONE\n- [>] moved\n- [-] no task\n- [] none\n- [xx] none\n- plain\n",
    );
    let statuses: Vec<TaskStatus> = tasks.iter().map(|t| t.status).collect();
    assert_eq!(
        statuses,
        vec![
            TaskStatus::Uncompleted,
            TaskStatus::Completed,
            TaskStatus::Completed,
            TaskStatus::Migrated
        ]
    );
    let indexes: Vec<usize> = tasks.iter().map(|t| t.index).collect();
    assert_eq!(indexes, vec![1, 2, 3, 4]);
    assert!(!tasks[1].status.is_incomplete());
    assert_eq!(TaskStatus::from_checkbox_char('>'), Some(TaskStatus::Migrated));
    assert_eq!(TaskStatus::from_checkbox_char('-'), None);
}

#[test]
fn tags_are_lowercase_and_stand_once() {
    let (tags, text) = Task::parse_tags("  Call   Bob @Work @home @WORK  ");
    assert_eq!(tags, vec!["work", "home"]);
    assert_eq!(text, "Call Bob");

    let (tags, text) = Task::parse_tags("mail bob@example.com now");
    assert!(tags.is_empty());
    assert_eq!(text, "mail bob@example.com now");

    let (tags, text) = Task::parse_tags("@first then @last");
    assert_eq!(tags, vec!["last"]);
    assert_eq!(text, "@first then");

    let (tags, text) = Task::parse_tags("@only @tags");
    assert_eq!(tags, vec!["only", "tags"]);
    assert_eq!(text, "");
}

#[test]
fn urgency_and_priority_have_their_rules() {
    let parse = Task::parse_urgency_and_priority;
    assert_eq!(
        parse("!! (B) Moderate task"),
        (
            Some("!!".to_string()),
            Some("B".to_string()),
            "Moderate task".to_string()
        )
    );
    assert_eq!(
        parse("! ( ) blank"),
        (Some("!".to_string()), None, "blank".to_string())
    );
    assert_eq!(parse("() empty"), (None, None, "empty".to_string()));
    assert_eq!(
        parse("(never closed"),
        (None, None, "(never closed".to_string())
    );
    assert_eq!(
        parse("(long one) rest"),
        (None, Some("long one".to_string()), "rest".to_string())
    );
    assert_eq!(parse("!!!! four"), (None, None, "!!!! four".to_string()));
    assert_eq!(parse("Wait!"), (None, None, "Wait!".to_string()));
    // Only a parenthesis right behind the urgency is a priority.
    assert_eq!(
        parse("!!!  (A) spaced"),
        (Some("!!!".to_string()), None, " (A) spaced".to_string())
    );
}

fn reparsed(task: &Task) -> Task {
    let line = task.to_markdown_line();
    let mut tasks = tasks_of(&line);
    assert_eq!(tasks.len(), 1, "{}", line);
    tasks.remove(0)
}

#[test]
fn a_task_line_that_is_written_is_read_back() {
    let body = "- [x] !!! (A) Ship the release @backend @urgent\n- [ ] (B) plain one\n- [>] !! only urgent @x\n- [ ] no annotations at all\n- [ ] @just @tags\n- [ ] !!!\n";
    let tasks = tasks_of(body);
    assert_eq!(tasks.len(), 6);
    for task in &tasks {
        let again = reparsed(task);
        assert_eq!(again.urgency, task.urgency);
        assert_eq!(again.priority, task.priority);
        assert_eq!(again.text, task.text);
        assert_eq!(again.tags, task.tags);
        assert_eq!(again.status, TaskStatus::Uncompleted);
        assert_eq!(reparsed(&again).to_markdown_line(), again.to_markdown_line());
    }
    assert_eq!(tasks[5].text, "!!!");
    assert_eq!(tasks[5].urgency, None);
}

#[test]
fn a_task_line_that_changes_when_it_is_written() {
    // The urgency is followed by two spaces: the parenthesis is text. Once
    // the line is written with one space, it is a priority.
    let tasks = tasks_of("- [ ] !!!  (A) x");
    assert_eq!(tasks[0].priority, None);
    assert_eq!(tasks[0].text, "(A) x");
    assert_eq!(tasks[0].to_markdown_line(), "- [ ] !!! (A) x");
    let again = reparsed(&tasks[0]);
    assert_eq!(again.priority, Some("A".to_string()));
    assert_eq!(again.text, "x");
}

#[test]
fn the_title_comes_from_metadata_then_heading_then_file_name() {
    let both = Note::parse("dir/file-name.md", "---\ntitle: X\n---\n\n# Y\n").unwrap();
    assert_eq!(both.title, "X");
    let heading = Note::parse("dir/file-name.md", "---\ntags: [a]\n---\n\n# Y\n").unwrap();
    assert_eq!(heading.title, "Y");
    let neither = Note::parse("dir/file-name.md", "Just text.\n\n## Second level\n").unwrap();
    assert_eq!(neither.title, "file-name");
    let nameless = Note::parse("", "Just text.").unwrap();
    assert_eq!(nameless.title, "Untitled");
    let empty_title = Note::parse("n.md", "---\ntitle: \"\"\n---\n\n# From heading\n").unwrap();
    assert_eq!(empty_title.title, "From heading");
    assert_eq!(both.path, "dir/file-name.md");
    assert_eq!(both.content, "---\ntitle: X\n---\n\n# Y\n");
}

#[test]
fn the_first_heading_of_level_one_counts() {
    assert_eq!(
        extract_first_h1("## Two\n\n# One *and* more\n\n# Later\n"),
        Some("One and more".to_string())
    );
    assert_eq!(extract_first_h1("No heading."), None);
    assert_eq!(extract_first_h1("Setext\n======\n"), Some("Setext".to_string()));
}

#[test]
fn malformed_metadata_counts_as_none() {
    let broken = Note::parse("n.md", "---\ntags: [a, b\n---\n\n# Title\n\nBody").unwrap();
    assert_eq!(broken.title, "Title");
    assert!(broken.tags.is_empty());

    let wrong_kind = Note::parse("n.md", "---\ntitle: 5\ntags: [a]\n---\n\n# Title\n").unwrap();
    assert_eq!(wrong_kind.title, "Title");
    assert!(wrong_kind.tags.is_empty());

    let bad_date = Note::parse("n.md", "---\ncreated: yesterday\ntags: [a]\n---\n# T\n").unwrap();
    assert!(bad_date.created.is_none());
    assert!(bad_date.tags.is_empty());

    assert!(parse_frontmatter("- a\n- b\n").is_none());
    assert!(parse_frontmatter("tags: [1, 2]").is_none());
    assert!(parse_frontmatter("tags:\n").is_none());
    let fm = parse_frontmatter("other: 1\nupdated:\n").unwrap();
    assert_eq!(fm.title, None);
    assert!(fm.tags.is_empty());
    assert_eq!(fm.updated, None);
}

#[test]
fn metadata_is_split_from_the_body() {
    let (fm, body) = extract_frontmatter("---\ntitle: T\ntags: \"a, ,b\"\n---\n\n\n# Body\n");
    let fm = fm.unwrap();
    assert_eq!(fm.title, Some("T".to_string()));
    assert_eq!(fm.tags, vec!["a", "b"]);
    assert_eq!(body, "# Body\n");

    let (fm, body) = extract_frontmatter("# No metadata\n\n---\n\nrule above\n");
    assert!(fm.is_none());
    assert_eq!(body, "# No metadata\n\n---\n\nrule above\n");

    let (yaml, body) = split_metadata("---\nkey: value\n---\ntext");
    assert_eq!(yaml, Some("key: value\n".to_string()));
    assert_eq!(body, "text");
}

#[test]
fn timestamps_are_instants() {
    let note = Note::parse(
        "n.md",
        "---\ncreated: 2024-01-15\nupdated: 2024-02-20T15:45:30+02:00\n---\n# T\n",
    )
    .unwrap();
    assert_eq!(
        note.created,
        Some(Timestamp {
            seconds: 1_705_276_800,
            nanos: 0
        })
    );
    assert_eq!(
        note.updated,
        Some(Timestamp {
            seconds: 1_708_436_730,
            nanos: 0
        })
    );
}

#[test]
fn paths_have_stems_and_extensions() {
    let stem = |p: &str| path::stem_of(&chars_of(p)).map(|s| string_of(&s));
    let ext = |p: &str| path::extension_of(&chars_of(p)).map(|s| string_of(&s));
    assert_eq!(stem("a/b/note.md"), Some("note".to_string()));
    assert_eq!(stem("archive.tar.gz"), Some("archive.tar".to_string()));
    assert_eq!(stem(".hidden"), Some(".hidden".to_string()));
    assert_eq!(stem("dir/"), None);
    assert_eq!(stem(".."), None);
    assert_eq!(ext("a/b/note.md"), Some("md".to_string()));
    assert_eq!(ext(".hidden"), None);
    assert_eq!(ext("a.b/c"), None);
    assert!(path::hidden(&chars_of("a/.git/config")));
    assert!(path::hidden(&chars_of(".bnotes/config.toml")));
    assert!(!path::hidden(&chars_of("a.b/c.md")));
}

#[test]
fn the_empty_query_finds_nothing() {
    let notes = vec![
        Note::parse("a.md", "# A\n\ntext").unwrap(),
        Note::parse("b.md", "").unwrap(),
    ];
    assert!(search_notes(&notes, "").is_empty());
    assert!(find_content_matches("any text", "").is_empty());
    assert_eq!(search_notes(&notes, "TEXT").len(), 1);
}

#[test]
fn a_match_has_the_headings_above_it() {
    let content = "before any heading: match\n\n# Main\n\nintro match\n\n## Sub\n\nthe match here\n\n# Next\n\nlast match\n";
    let matches = find_content_matches(content, "match");
    let crumbs: Vec<Vec<String>> = matches.iter().map(|m| m.breadcrumb.clone()).collect();
    assert_eq!(
        crumbs,
        vec![
            vec!["Document Start".to_string()],
            vec!["# Main".to_string()],
            vec!["# Main".to_string(), "## Sub".to_string()],
            vec!["# Next".to_string()],
        ]
    );
}

#[test]
fn heading_positions_count_characters() {
    let content = "# Caf\u{e9}\n\ndone\n\n## \u{4e2d}\u{6587}\n";
    let positions = build_heading_positions(content);
    assert_eq!(
        positions,
        vec![
            (7, vec!["# Caf\u{e9}".to_string()]),
            (20, vec!["# Caf\u{e9}".to_string(), "## \u{4e2d}\u{6587}".to_string()]),
        ]
    );
    assert_eq!(
        get_breadcrumb_at_position(&positions, 6),
        vec!["Document Start"]
    );
    assert_eq!(get_breadcrumb_at_position(&positions, 7), vec!["# Caf\u{e9}"]);
    assert_eq!(get_breadcrumb_at_position(&positions, 100).len(), 2);
    assert_eq!(get_breadcrumb_at_position(&[], 0), vec!["Document Start"]);
}

#[test]
fn a_snippet_is_cut_at_whole_words() {
    let content =
        "This is some longer text with the word project in the middle and more text after";
    assert_eq!(
        extract_snippet(content, 39, 7, 20),
        "...text with the word project in the middle and..."
    );
    assert_eq!(extract_snippet(content, 0, 4, 10), "This is some...");
    assert_eq!(extract_snippet(content, 75, 5, 10), "...text after");
    assert_eq!(extract_snippet("short", 0, 5, 60), "short");
    assert_eq!(extract_snippet("one-long-word-only", 5, 4, 2), "...-long-wo...");
    assert_eq!(extract_snippet("abc", 50, 3, 10), "...");
    assert_eq!(extract_snippet("", 0, 0, 10), "");
}

#[test]
fn a_snippet_knows_where_the_query_stands_in_it() {
    let matches = find_content_matches("The Project and the project plan.", "project");
    assert_eq!(matches.len(), 2);
    assert_eq!(matches[0].snippet, "The Project and the project plan.");
    assert_eq!(matches[0].match_positions, vec![(4, 7), (20, 7)]);
    let overlap = find_content_matches("aaaa", "aa");
    assert_eq!(overlap.len(), 2);
    assert_eq!(overlap[0].match_positions, vec![(0, 2), (2, 2)]);
}

#[test]
fn a_search_tells_title_tags_and_text_apart() {
    let notes = vec![Note::parse(
        "p.md",
        "---\ntags: [Planning, project-x]\n---\n\n# My Project\n\nNothing else.\n",
    )
    .unwrap()];
    let found = search_notes(&notes, "PROJECT");
    assert_eq!(found.len(), 1);
    assert_eq!(found[0].note, notes[0]);
    assert_eq!(found[0].locations.len(), 4);
    assert_eq!(found[0].locations[0], MatchLocation::Title { position: 3 });
    assert_eq!(
        found[0].locations[1],
        MatchLocation::Tag {
            tag: "project-x".to_string()
        }
    );
    assert!(matches!(
        found[0].locations[2],
        MatchLocation::Content { .. }
    ));
    assert!(search_notes(&notes, "absent").is_empty());
}

#[test]
fn numbers_are_read_as_std_reads_them() {
    for text in [
        "0", "7", "007", "+7", "-0", "-7", "+", "-", "", " 7", "7 ", "1a", "4294967295",
        "4294967296", "2147483647", "2147483648", "-2147483648", "-2147483649", "+-1",
        "\u{661}\u{662}", "18446744073709551615", "18446744073709551616", "0000000000000000000001",
        "99999999999999999999999999999999999999999",
    ] {
        assert_eq!(parse_u32(text), text.parse::<u32>().ok(), "{:?}", text);
        assert_eq!(parse_i32(text), text.parse::<i32>().ok(), "{:?}", text);
        assert_eq!(parse_usize(text), text.parse::<usize>().ok(), "{:?}", text);
    }
}

#[test]
fn whitespace_and_case_are_those_of_std() {
    for code in 0u32..0x3100 {
        if let Some(c) = char::from_u32(code) {
            assert_eq!(is_whitespace(c), c.is_whitespace(), "{:?}", c);
        }
    }
    let text = "\u{2003}\u{a0} two\u{3000}words\twith\u{85}more \r\n";
    let words: Vec<String> = split_words(&chars_of(text)).iter().map(string_of).collect();
    assert_eq!(words, text.split_whitespace().collect::<Vec<_>>());
    assert_eq!(string_of(&trimmed(&chars_of(text))), text.trim());
    assert!(eq_ignore_ascii_case("MiXed-09", "mIxEd-09"));
    assert!(!eq_ignore_ascii_case("stra\u{df}e", "STRASSE"));
    assert!(!eq_ignore_ascii_case("k", "\u{212a}"));
    for (text, pattern, with) in [
        ("aaa", "aa", "b"),
        ("- [ ] a - [ ]", "- [ ]", "- [>]"),
        ("none", "x", "y"),
        ("", "x", "y"),
        ("abcabc", "abc", ""),
        ("overlap aXaXa", "aXa", "-"),
    ] {
        assert_eq!(replace_text(text, pattern, with), text.replace(pattern, with));
    }
}
