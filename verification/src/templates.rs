//! The templates that the library carries with it, for notes whose
//! template the notes directory does not hold.

use crate::path::{extension, extension_of, file_stem, stem_of};
use crate::sorting::{is_sorted, sort_texts};
use crate::task::{strings, strings_of};
use crate::text::{chars_of, replace_text, replaced, same_chars, same_text, texts};
use vstd::prelude::*;

verus! {

/// The template of an ordinary note.
pub const DEFAULT: &'static str =
    "---\ntags: []\ncreated: {{datetime}}\nupdated: {{datetime}}\n---\n\n# {{title}}\n\n";

/// The template of a daily note.
pub const DAILY: &'static str =
    "---\ntags: [daily]\ncreated: {{datetime}}\nupdated: {{datetime}}\n---\n\n# {{title}}\n\n## Tasks\n- [ ]\n\n## Notes\n";

/// The template of a weekly note.
pub const WEEKLY: &'static str =
    "---\ntags: [weekly]\ncreated: {{datetime}}\nupdated: {{datetime}}\n---\n\n# {{title}}\n\n## Goals\n- [ ]\n\n## Tasks\n{{migrated_tasks}}\n\n## Notes\n";

/// The template of a quarterly note.
pub const QUARTERLY: &'static str =
    "---\ntags: [quarterly]\ncreated: {{datetime}}\nupdated: {{datetime}}\n---\n\n# {{title}}\n\n## Objectives\n- [ ]\n\n## Notes\n";

/// The template that a name stands for, with or without `.md`.
pub open spec fn embedded_template(name: Seq<char>) -> Option<Seq<char>> {
    if name == "default"@ || name == "default.md"@ {
        Some(DEFAULT@)
    } else if name == "daily"@ || name == "daily.md"@ {
        Some(DAILY@)
    } else if name == "weekly"@ || name == "weekly.md"@ {
        Some(WEEKLY@)
    } else if name == "quarterly"@ || name == "quarterly.md"@ {
        Some(QUARTERLY@)
    } else {
        None
    }
}

/// The template of the given name (`default`, `daily`, `weekly`,
/// `quarterly`, each also with `.md`); `None` for any other name.
pub fn get_embedded_template(name: &str) -> (r: Option<&'static str>)
    ensures
        match r {
            Some(t) => embedded_template(name@) == Some(t@),
            None => embedded_template(name@) is None,
        },
{
    if same_text(name, "default") || same_text(name, "default.md") {
        Some(DEFAULT)
    } else if same_text(name, "daily") || same_text(name, "daily.md") {
        Some(DAILY)
    } else if same_text(name, "weekly") || same_text(name, "weekly.md") {
        Some(WEEKLY)
    } else if same_text(name, "quarterly") || same_text(name, "quarterly.md") {
        Some(QUARTERLY)
    } else {
        None
    }
}

// ---------------------------------------------------------------------------
// Rendering
// ---------------------------------------------------------------------------

/// A template with its placeholders filled in: `{{title}}`, `{{date}}`,
/// `{{datetime}}` and `{{migrated_tasks}}`, in this order.
pub open spec fn rendered(
    template: Seq<char>,
    title: Seq<char>,
    date: Seq<char>,
    datetime: Seq<char>,
    migrated_tasks: Seq<char>,
) -> Seq<char> {
    replaced(
        replaced(
            replaced(replaced(template, "{{title}}"@, title), "{{date}}"@, date),
            "{{datetime}}"@,
            datetime,
        ),
        "{{migrated_tasks}}"@,
        migrated_tasks,
    )
}

/// The text that stands for no migrated tasks.
pub open spec fn no_tasks() -> Seq<char> {
    ""@
}

/// The migrated tasks that are filled in: those given, or nothing.
pub open spec fn tasks_or_nothing(migrated_tasks: Option<&str>) -> Seq<char> {
    match migrated_tasks {
        Some(t) => t@,
        None => no_tasks(),
    }
}

/// Fills in a template: the title, the date and the date with time as
/// given, and the migrated tasks (nothing where none are given).
pub fn render_template_at(
    template_content: &str,
    title: &str,
    date: &str,
    datetime: &str,
    migrated_tasks: Option<&str>,
) -> (r: String)
    ensures
        r@ == rendered(
            template_content@,
            title@,
            date@,
            datetime@,
            tasks_or_nothing(migrated_tasks),
        ),
{
    let tasks = match migrated_tasks {
        Some(t) => t,
        None => "",
    };
    let a = replace_text(template_content, "{{title}}", title);
    let b = replace_text(a.as_str(), "{{date}}", date);
    let c = replace_text(b.as_str(), "{{datetime}}", datetime);
    replace_text(c.as_str(), "{{migrated_tasks}}", tasks)
}

/// Reads the clock with `chrono::Utc::now` and formats the instant twice: as
/// a date (`%Y-%m-%d`) and as an RFC 3339 date with time. The result depends
/// on when it is called: nothing is claimed about it.
#[verifier::external_body]
pub(crate) fn today_and_now() -> (r: (String, String)) {
    let now = chrono::Utc::now();
    (now.format("%Y-%m-%d").to_string(), now.to_rfc3339())
}

/// Fills in a template with the current date and time.
pub fn render_template_with_tasks(
    template_content: &str,
    title: &str,
    migrated_tasks: Option<&str>,
) -> (r: String)
    ensures
        exists|date: Seq<char>, datetime: Seq<char>|
            r@ == rendered(
                template_content@,
                title@,
                date,
                datetime,
                tasks_or_nothing(migrated_tasks),
            ),
{
    let (date, datetime) = today_and_now();
    render_template_at(template_content, title, date.as_str(), datetime.as_str(), migrated_tasks)
}

/// Fills in a template with the current date and time, and without
/// migrated tasks.
pub fn render_template(template_content: &str, title: &str) -> (r: String)
    ensures
        exists|date: Seq<char>, datetime: Seq<char>|
            r@ == rendered(template_content@, title@, date, datetime, no_tasks()),
{
    render_template_with_tasks(template_content, title, None)
}

// ---------------------------------------------------------------------------
// The templates of a directory
// ---------------------------------------------------------------------------

/// The name of the template that a file holds: the stem of its name, where
/// the name ends in `.md`.
pub open spec fn template_of_file(path: Seq<char>) -> Option<Seq<char>> {
    if extension(path) == Some("md"@) {
        file_stem(path)
    } else {
        None
    }
}

/// The names of the templates among the files, in the order of the files.
pub open spec fn templates_among(files: Seq<Seq<char>>) -> Seq<Seq<char>>
    decreases files.len(),
{
    if files.len() == 0 {
        Seq::empty()
    } else {
        let prev = templates_among(files.drop_last());
        match template_of_file(files.last()) {
            Some(name) => prev.push(name),
            None => prev,
        }
    }
}

/// The names of the templates that a directory offers, given its files:
/// the stems of the files that end in `.md`, in order.
pub fn list_templates(files: &[String]) -> (r: Vec<String>)
    ensures
        is_sorted(strings(r@)),
        strings(r@).to_multiset() == templates_among(strings(files@)).to_multiset(),
{
    let ghost all = strings(files@);
    let mut names: Vec<Vec<char>> = Vec::new();
    let mut i: usize = 0;
    assert(all.take(0) =~= Seq::<Seq<char>>::empty());
    assert(texts(names@) =~= Seq::<Seq<char>>::empty());
    while i < files.len()
        invariant
            i <= files.len(),
            all == strings(files@),
            texts(names@) == templates_among(all.take(i as int)),
        decreases files.len() - i,
    {
        proof {
            assert(all.take(i + 1).drop_last() =~= all.take(i as int));
            assert(all.take(i + 1).last() == files@[i as int]@);
        }
        let path = chars_of(files[i].as_str());
        let is_markdown = match extension_of(&path) {
            Some(ext) => same_chars(&ext, &chars_of("md")),
            None => false,
        };
        if is_markdown {
            match stem_of(&path) {
                Some(stem) => {
                    let ghost before = texts(names@);
                    names.push(stem);
                    assert(texts(names@) =~= before.push(file_stem(path@)->0));
                },
                None => {},
            }
        }
        i += 1;
    }
    assert(all.take(files.len() as int) =~= all);
    strings_of(&sort_texts(names))
}

} // verus!
