//! What a program around the library computes before it prints: which
//! action a command line asks for, where the notes are, which tasks a
//! filter keeps, where a match is to be highlighted, what changed since
//! the last commit.

use crate::config::{join_path, joined};
use crate::error::Error;
use crate::links::{is_connected, targets, LinkGraph};
use crate::note::{note_views, Note, NoteView};
use crate::path::{file_stem, stem_of};
use crate::search::{find_all, occurrences};
use crate::sorting::{is_sorted, sort_texts};
use crate::task::{note_tasks, strings, strings_of, task_views, Task, TaskView};
use crate::text::{
    chars_of, copy_range, find_char, has_prefix, index_of_char, join, join_with,
    lemma_first_occurrence, lowercase, parse_usize, pieces, push_all, same_chars, same_text,
    split_on, starts_with, string_of, texts, to_lower, usize_of_text,
};
use vstd::prelude::*;

verus! {

/// The singular where the count is one, else the plural.
pub fn pluralize<'a>(count: usize, singular: &'a str, plural: &'a str) -> (r: &'a str)
    ensures
        r@ == if count == 1 {
            singular@
        } else {
            plural@
        },
{
    if count == 1 {
        singular
    } else {
        plural
    }
}

// ---------------------------------------------------------------------------
// Actions on periodic notes
// ---------------------------------------------------------------------------

/// What to do with the notes of a kind of period.
#[derive(Debug, Clone, PartialEq, Eq)]
pub enum PeriodicAction {
    /// Open the note of the period that the text names; of the current
    /// period where there is none.
    Open(Option<String>),
    /// List the periods that have a note.
    List,
    /// Open the note of the period before the current one.
    Prev,
    /// Open the note of the period after the current one.
    Next,
}

/// A subcommand of a periodic command.
#[derive(Debug, Clone, Copy, PartialEq, Eq, Structural)]
pub enum PeriodicCommand {
    List,
    Prev,
    Next,
}

/// The action that a periodic command asks for: that of its subcommand
/// where it has one; else `prev`, `next` and `list` in place of the date
/// are taken as such; else the note of the date is opened.
pub fn periodic_action(subcommand: Option<PeriodicCommand>, date: Option<String>) -> (r:
    PeriodicAction)
    ensures
        match subcommand {
            Some(PeriodicCommand::List) => r == PeriodicAction::List,
            Some(PeriodicCommand::Prev) => r == PeriodicAction::Prev,
            Some(PeriodicCommand::Next) => r == PeriodicAction::Next,
            None => match date {
                Some(text) => if text@ == "prev"@ {
                    r == PeriodicAction::Prev
                } else if text@ == "next"@ {
                    r == PeriodicAction::Next
                } else if text@ == "list"@ {
                    r == PeriodicAction::List
                } else {
                    r == PeriodicAction::Open(Some(text))
                },
                None => r == PeriodicAction::Open(None),
            },
        },
{
    match subcommand {
        Some(PeriodicCommand::List) => PeriodicAction::List,
        Some(PeriodicCommand::Prev) => PeriodicAction::Prev,
        Some(PeriodicCommand::Next) => PeriodicAction::Next,
        None => match date {
            Some(text) => {
                if same_text(text.as_str(), "prev") {
                    PeriodicAction::Prev
                } else if same_text(text.as_str(), "next") {
                    PeriodicAction::Next
                } else if same_text(text.as_str(), "list") {
                    PeriodicAction::List
                } else {
                    PeriodicAction::Open(Some(text))
                }
            },
            None => PeriodicAction::Open(None),
        },
    }
}

// ---------------------------------------------------------------------------
// Directories
// ---------------------------------------------------------------------------

/// A path with `~` at its start replaced by the home directory.
pub open spec fn home_expanded(path: Seq<char>, home: Seq<char>) -> Seq<char> {
    if starts_with(path, seq!['~', '/']) {
        joined(home, path.skip(2))
    } else if path == seq!['~'] {
        home
    } else {
        path
    }
}

/// Whether a path begins with `~`, so that it needs the home directory.
pub open spec fn needs_home(path: Seq<char>) -> bool {
    starts_with(path, seq!['~', '/']) || path == seq!['~']
}

/// Replaces `~` or `~/` at the start of a path by the home directory.
/// Fails with `HomeNotSet` where the path needs the home directory and
/// none is given.
pub fn expand_home(path: &str, home: Option<&str>) -> (r: Result<String, Error>)
    ensures
        match r {
            Ok(expanded) => (needs_home(path@) ==> home is Some) && expanded@ == home_expanded(
                path@,
                match home {
                    Some(h) => h@,
                    None => Seq::empty(),
                },
            ),
            Err(e) => e == Error::HomeNotSet && needs_home(path@) && home is None,
        },
{
    let chars = chars_of(path);
    let tilde_slash: Vec<char> = vec!['~', '/'];
    let tilde: Vec<char> = vec!['~'];
    assert(tilde_slash@ =~= seq!['~', '/']);
    assert(tilde@ =~= seq!['~']);
    if has_prefix(&chars, &tilde_slash) {
        match home {
            Some(h) => {
                let rest = copy_range(&chars, 2, chars.len());
                assert(rest@ =~= path@.skip(2));
                Ok(join_path(h, string_of(&rest).as_str()))
            },
            None => Err(Error::HomeNotSet),
        }
    } else if same_chars(&chars, &tilde) {
        match home {
            Some(h) => Ok(h.to_owned()),
            None => Err(Error::HomeNotSet),
        }
    } else {
        Ok(path.to_owned())
    }
}

/// The directory of the notes: the one given on the command line, else
/// the one of the environment, else `bnotes` in the data directory of the
/// user (the one of the environment, else `.local/share` at home).
pub open spec fn notes_dir_of(
    argument: Option<Seq<char>>,
    notes_dir: Option<Seq<char>>,
    data_home: Option<Seq<char>>,
    home: Option<Seq<char>>,
) -> Option<Seq<char>> {
    match (argument, notes_dir, data_home, home) {
        (Some(dir), _, _, _) => Some(dir),
        (None, Some(dir), _, _) => Some(dir),
        (None, None, Some(data), _) => Some(joined(data, "bnotes"@)),
        (None, None, None, Some(h)) => Some(joined(joined(h, ".local/share"@), "bnotes"@)),
        (None, None, None, None) => None,
    }
}

/// Chooses the directory of the notes. Fails with `HomeNotSet` where
/// nothing says where it is.
pub fn resolve_notes_dir(
    argument: Option<&str>,
    notes_dir: Option<&str>,
    data_home: Option<&str>,
    home: Option<&str>,
) -> (r: Result<String, Error>)
    ensures
        match r {
            Ok(dir) => notes_dir_of(
                opt_view(argument),
                opt_view(notes_dir),
                opt_view(data_home),
                opt_view(home),
            ) == Some(dir@),
            Err(e) => e == Error::HomeNotSet && notes_dir_of(
                opt_view(argument),
                opt_view(notes_dir),
                opt_view(data_home),
                opt_view(home),
            ) is None,
        },
{
    match (argument, notes_dir, data_home, home) {
        (Some(dir), _, _, _) => Ok(dir.to_owned()),
        (None, Some(dir), _, _) => Ok(dir.to_owned()),
        (None, None, Some(data), _) => Ok(join_path(data, "bnotes")),
        (None, None, None, Some(h)) => Ok(join_path(join_path(h, ".local/share").as_str(), "bnotes")),
        (None, None, None, None) => Err(Error::HomeNotSet),
    }
}

/// The view of an optional string slice.
pub open spec fn opt_view(s: Option<&str>) -> Option<Seq<char>> {
    match s {
        Some(t) => Some(t@),
        None => None,
    }
}

/// The path of the configuration file of the program: `bnotes/config.toml`
/// in the configuration directory of the user (the one of the environment,
/// else `.config` at home).
pub open spec fn config_path_of(config_home: Option<Seq<char>>, home: Option<Seq<char>>) -> Option<
    Seq<char>,
> {
    match (config_home, home) {
        (Some(dir), _) => Some(joined(joined(dir, "bnotes"@), "config.toml"@)),
        (None, Some(h)) => Some(joined(joined(joined(h, ".config"@), "bnotes"@), "config.toml"@)),
        (None, None) => None,
    }
}

/// The path of the configuration file of the program. Fails with
/// `HomeNotSet` where nothing says where it is.
pub fn default_config_path(config_home: Option<&str>, home: Option<&str>) -> (r: Result<
    String,
    Error,
>)
    ensures
        match r {
            Ok(path) => config_path_of(opt_view(config_home), opt_view(home)) == Some(path@),
            Err(e) => e == Error::HomeNotSet && config_path_of(
                opt_view(config_home),
                opt_view(home),
            ) is None,
        },
{
    let dir = match (config_home, home) {
        (Some(dir), _) => dir.to_owned(),
        (None, Some(h)) => join_path(h, ".config"),
        (None, None) => {
            return Err(Error::HomeNotSet);
        },
    };
    Ok(join_path(join_path(dir.as_str(), "bnotes").as_str(), "config.toml"))
}

// ---------------------------------------------------------------------------
// Filters on tasks
// ---------------------------------------------------------------------------

/// Whether a pattern matches the whole of a text: `?` stands for any one
/// character, `*` for any number of characters, every other character for
/// itself.
pub open spec fn wild_match(pattern: Seq<char>, text: Seq<char>) -> bool
    decreases pattern.len(), text.len(),
{
    if pattern.len() == 0 {
        text.len() == 0
    } else if pattern[0] == '*' {
        wild_match(pattern.drop_first(), text) || (text.len() > 0 && wild_match(
            pattern,
            text.drop_first(),
        ))
    } else if text.len() == 0 {
        false
    } else if pattern[0] == '?' || pattern[0] == text[0] {
        wild_match(pattern.drop_first(), text.drop_first())
    } else {
        false
    }
}

/// Matches a text against a pattern with `wildmatch::WildMatch`: as its
/// documentation has it, `?` matches exactly one character, `*` any number
/// of characters, and the pattern must match the whole text.
#[verifier::external_body]
pub(crate) fn matches_pattern(pattern: &str, text: &str) -> (r: bool)
    ensures
        r == wild_match(pattern@, text@),
{
    wildmatch::WildMatch::new(pattern).matches(text)
}

/// The tasks whose note has a title that the pattern matches, both in
/// lowercase.
pub open spec fn tasks_of_notes_like(tasks: Seq<TaskView>, pattern: Seq<char>) -> Seq<TaskView>
    decreases tasks.len(),
{
    if tasks.len() == 0 {
        Seq::empty()
    } else {
        let prev = tasks_of_notes_like(tasks.drop_last(), pattern);
        if wild_match(lowercase(pattern), lowercase(tasks.last().note_title)) {
            prev.push(tasks.last())
        } else {
            prev
        }
    }
}

/// Keeps the tasks of the notes whose title the pattern matches, without
/// regard to case. In the pattern `*` stands for any text and `?` for any
/// one character.
pub fn filter_tasks_by_note(tasks: &Vec<Task>, pattern: &str) -> (r: Vec<Task>)
    ensures
        task_views(r@) == tasks_of_notes_like(task_views(tasks@), pattern@),
{
    let ghost views = task_views(tasks@);
    let pattern_lower = pattern.to_lowercase();
    let mut out: Vec<Task> = Vec::new();
    let mut i: usize = 0;
    assert(views.take(0) =~= Seq::<TaskView>::empty());
    assert(task_views(out@) =~= Seq::<TaskView>::empty());
    while i < tasks.len()
        invariant
            i <= tasks.len(),
            views == task_views(tasks@),
            pattern_lower@ == lowercase(pattern@),
            task_views(out@) == tasks_of_notes_like(views.take(i as int), pattern@),
        decreases tasks.len() - i,
    {
        proof {
            assert(views.take(i + 1).drop_last() =~= views.take(i as int));
            assert(views.take(i + 1).last() == tasks@[i as int]@);
        }
        let title_lower = tasks[i].note_title.as_str().to_lowercase();
        if matches_pattern(pattern_lower.as_str(), title_lower.as_str()) {
            let ghost before = task_views(out@);
            out.push(tasks[i].clone());
            assert(task_views(out@) =~= before.push(tasks@[i as int]@));
        }
        i += 1;
    }
    assert(views.take(tasks.len() as int) =~= views);
    out
}

/// Whether a tag of a task answers a tag asked for: it is that tag, or
/// lies below it (`work/urgent` lies below `work`).
pub open spec fn tag_answers(tag: Seq<char>, wanted: Seq<char>) -> bool {
    tag == wanted || starts_with(tag, wanted + seq!['/'])
}

/// Whether a task has, for every tag asked for, a tag that answers it in
/// lowercase.
pub open spec fn answers_all(tags: Seq<Seq<char>>, wanted: Seq<Seq<char>>) -> bool {
    forall|i: int| 0 <= i < wanted.len() ==> has_answer_for(tags, lowercase(#[trigger] wanted[i]))
}

/// Whether one of the tags answers the tag asked for.
pub open spec fn has_answer_for(tags: Seq<Seq<char>>, wanted: Seq<char>) -> bool {
    exists|j: int| 0 <= j < tags.len() && tag_answers(#[trigger] tags[j], wanted)
}

/// The tasks that have an answer for every tag asked for.
pub open spec fn tasks_tagged(tasks: Seq<TaskView>, wanted: Seq<Seq<char>>) -> Seq<TaskView>
    decreases tasks.len(),
{
    if tasks.len() == 0 {
        Seq::empty()
    } else {
        let prev = tasks_tagged(tasks.drop_last(), wanted);
        if answers_all(tasks.last().tags, wanted) {
            prev.push(tasks.last())
        } else {
            prev
        }
    }
}

fn has_answer(tags: &Vec<String>, wanted: &Vec<char>) -> (r: bool)
    ensures
        r == has_answer_for(strings(tags@), wanted@),
{
    let mut below = copy_range(wanted, 0, wanted.len());
    below.push('/');
    assert(below@ =~= wanted@ + seq!['/']);
    let mut j: usize = 0;
    while j < tags.len()
        invariant
            j <= tags.len(),
            below@ == wanted@ + seq!['/'],
            forall|k: int| 0 <= k < j ==> !tag_answers(#[trigger] strings(tags@)[k], wanted@),
        decreases tags.len() - j,
    {
        let tag = chars_of(tags[j].as_str());
        if same_chars(&tag, wanted) || has_prefix(&tag, &below) {
            assert(tag_answers(strings(tags@)[j as int], wanted@));
            return true;
        }
        j += 1;
    }
    false
}

fn answers_every(tags: &Vec<String>, lowered: &Vec<Vec<char>>, Ghost(asked): Ghost<Seq<Seq<char>>>) -> (r:
    bool)
    requires
        lowered@.len() == asked.len(),
        forall|k: int| 0 <= k < asked.len() ==> (#[trigger] lowered@[k])@ == lowercase(asked[k]),
    ensures
        r == answers_all(strings(tags@), asked),
{
    let mut k: usize = 0;
    while k < lowered.len()
        invariant
            k <= lowered.len(),
            lowered@.len() == asked.len(),
            forall|m: int| 0 <= m < asked.len() ==> (#[trigger] lowered@[m])@ == lowercase(asked[m]),
            forall|m: int|
                0 <= m < k ==> has_answer_for(strings(tags@), lowercase(#[trigger] asked[m])),
        decreases lowered.len() - k,
    {
        assert(lowered@[k as int]@ == lowercase(asked[k as int]));
        if !has_answer(tags, &lowered[k]) {
            return false;
        }
        k += 1;
    }
    true
}

/// Keeps the tasks that have, for every tag asked for, that tag or a tag
/// below it. The tags asked for are taken in lowercase.
pub fn filter_tasks_by_tags(tasks: &Vec<Task>, wanted: &[String]) -> (r: Vec<Task>)
    ensures
        task_views(r@) == tasks_tagged(task_views(tasks@), strings(wanted@)),
{
    let ghost views = task_views(tasks@);
    let ghost asked = strings(wanted@);
    let mut lowered: Vec<Vec<char>> = Vec::new();
    let mut n: usize = 0;
    while n < wanted.len()
        invariant
            n <= wanted.len(),
            lowered@.len() == n,
            forall|k: int| 0 <= k < n ==> (#[trigger] lowered@[k])@ == lowercase(wanted@[k]@),
        decreases wanted.len() - n,
    {
        lowered.push(to_lower(&chars_of(wanted[n].as_str())));
        n += 1;
    }
    let mut out: Vec<Task> = Vec::new();
    let mut i: usize = 0;
    assert(views.take(0) =~= Seq::<TaskView>::empty());
    assert(task_views(out@) =~= Seq::<TaskView>::empty());
    while i < tasks.len()
        invariant
            i <= tasks.len(),
            views == task_views(tasks@),
            asked == strings(wanted@),
            lowered@.len() == wanted@.len(),
            forall|k: int|
                0 <= k < wanted@.len() ==> (#[trigger] lowered@[k])@ == lowercase(wanted@[k]@),
            task_views(out@) == tasks_tagged(views.take(i as int), asked),
        decreases tasks.len() - i,
    {
        proof {
            assert(views.take(i + 1).drop_last() =~= views.take(i as int));
            assert(views.take(i + 1).last() == tasks@[i as int]@);
        }
        let all = answers_every(&tasks[i].tags, &lowered, Ghost(asked));
        if all {
            let ghost before = task_views(out@);
            out.push(tasks[i].clone());
            assert(task_views(out@) =~= before.push(tasks@[i as int]@));
        }
        i += 1;
    }
    assert(views.take(tasks.len() as int) =~= views);
    out
}

// ---------------------------------------------------------------------------
// Task identifiers
// ---------------------------------------------------------------------------

/// The file stem and the index that a task identifier names: it reads
/// `<file stem>#<index>`, with one `#`.
pub open spec fn task_id_parts(id: Seq<char>) -> Option<(Seq<char>, usize)> {
    let parts = pieces(id, '#');
    if parts.len() == 2 {
        match usize_of_text(parts[1]) {
            Some(index) => Some((parts[0], index)),
            None => None,
        }
    } else {
        None
    }
}

/// The file stem that a task identifier names.
pub open spec fn id_stem(id: Seq<char>) -> Seq<char> {
    match task_id_parts(id) {
        Some(parts) => parts.0,
        None => Seq::empty(),
    }
}

/// The index that a task identifier names.
pub open spec fn id_index(id: Seq<char>) -> usize {
    match task_id_parts(id) {
        Some(parts) => parts.1,
        None => 0,
    }
}

/// Reads a task identifier. A text that does not read
/// `<file stem>#<index>` is reported as `InvalidTaskId`.
pub fn parse_task_id(id: &str) -> (r: Result<(String, usize), Error>)
    ensures
        match r {
            Ok(parts) => task_id_parts(id@) == Some((parts.0@, parts.1)),
            Err(Error::InvalidTaskId(text)) => text@ == id@ && task_id_parts(id@) is None,
            Err(_) => false,
        },
{
    let parts = split_on(&chars_of(id), '#');
    if parts.len() != 2 {
        return Err(Error::InvalidTaskId(id.to_owned()));
    }
    assert(texts(parts@)[0] == parts@[0]@);
    assert(texts(parts@)[1] == parts@[1]@);
    match parse_usize(string_of(&parts[1]).as_str()) {
        Some(index) => Ok((string_of(&parts[0]), index)),
        None => Err(Error::InvalidTaskId(id.to_owned())),
    }
}

/// The first note whose file name has the given stem.
pub open spec fn note_with_stem(notes: Seq<NoteView>, stem: Seq<char>) -> Option<NoteView>
    decreases notes.len(),
{
    if notes.len() == 0 {
        None
    } else if file_stem(notes[0].path) == Some(stem) {
        Some(notes[0])
    } else {
        note_with_stem(notes.drop_first(), stem)
    }
}

/// The task that an identifier names among the notes: the task of that
/// index in the first note whose file name has that stem.
pub open spec fn task_named(notes: Seq<NoteView>, stem: Seq<char>, index: usize) -> Option<
    TaskView,
> {
    match note_with_stem(notes, stem) {
        Some(note) => {
            let tasks = note_tasks(note.path, note.title, note.content);
            if 1 <= index <= tasks.len() {
                Some(tasks[index - 1])
            } else {
                None
            }
        },
        None => None,
    }
}

/// Finds the task that an identifier names. Fails with `InvalidTaskId`
/// where the identifier is malformed (before any note is looked at), with
/// `NoteNotFound` where no note has the file stem, and with `TaskNotFound`
/// where that note has no task of the index.
pub fn find_task(notes: &[Note], id: &str) -> (r: Result<Task, Error>)
    ensures
        match r {
            Ok(task) => task_id_parts(id@) is Some && task_named(
                note_views(notes@),
                id_stem(id@),
                id_index(id@),
            ) == Some(task@),
            Err(Error::InvalidTaskId(text)) => text@ == id@ && task_id_parts(id@) is None,
            Err(Error::NoteNotFound(stem)) => task_id_parts(id@) is Some && stem@
                == id_stem(id@) && note_with_stem(note_views(notes@), stem@) is None,
            Err(Error::TaskNotFound(text)) => text@ == id@ && task_id_parts(id@) is Some
                && note_with_stem(note_views(notes@), id_stem(id@)) is Some
                && task_named(
                note_views(notes@),
                id_stem(id@),
                id_index(id@),
            ) is None,
            Err(_) => false,
        },
{
    let (stem, index) = match parse_task_id(id) {
        Ok(parts) => parts,
        Err(e) => {
            return Err(e);
        },
    };
    let wanted = chars_of(stem.as_str());
    let ghost views = note_views(notes@);
    let mut i: usize = 0;
    assert(views.skip(0) =~= views);
    while i < notes.len()
        invariant
            i <= notes.len(),
            views == note_views(notes@),
            wanted@ == stem@,
            task_id_parts(id@) == Some((stem@, index)),
            note_with_stem(views, stem@) == note_with_stem(views.skip(i as int), stem@),
        decreases notes.len() - i,
    {
        proof {
            assert(views.skip(i as int)[0] == notes@[i as int]@);
            assert(views.skip(i as int).drop_first() =~= views.skip(i + 1));
        }
        let found = match stem_of(&chars_of(notes[i].path.as_str())) {
            Some(s) => same_chars(&s, &wanted),
            None => false,
        };
        if found {
            let tasks = Task::extract_from_note(&notes[i]);
            if 1 <= index && index <= tasks.len() {
                assert(task_views(tasks@)[index - 1] == tasks@[index - 1]@);
                return Ok(tasks[index - 1].clone());
            } else {
                return Err(Error::TaskNotFound(id.to_owned()));
            }
        }
        i += 1;
    }
    Err(Error::NoteNotFound(stem))
}

// ---------------------------------------------------------------------------
// Highlights
// ---------------------------------------------------------------------------

/// A piece of a text, to be shown plain or highlighted.
#[derive(Debug, Clone, PartialEq, Eq)]
pub struct Segment {
    pub text: String,
    pub highlighted: bool,
}

/// The mathematical value of a list of segments.
pub open spec fn segment_views(v: Seq<Segment>) -> Seq<(Seq<char>, bool)> {
    v.map_values(|s: Segment| (s.text@, s.highlighted))
}

/// A position of a text, or its end where the position lies behind it.
pub open spec fn within(text: Seq<char>, at: int) -> int {
    if at < text.len() {
        at
    } else {
        text.len() as int
    }
}

/// The pieces of `text` from `from` on, where matches of `len` characters
/// stand at `places`: before each match the plain text up to it, then the
/// match highlighted, and at last the plain rest.
pub open spec fn segments_from(text: Seq<char>, places: Seq<int>, len: int, from: int) -> Seq<
    (Seq<char>, bool),
>
    decreases places.len(),
{
    if places.len() == 0 {
        seq![(text.subrange(within(text, from), text.len() as int), false)]
    } else {
        let start = within(text, places[0]);
        let plain_from = if within(text, from) < start {
            within(text, from)
        } else {
            start
        };
        seq![
            (text.subrange(plain_from, start), false),
            (text.subrange(start, within(text, places[0] + len)), true),
        ] + segments_from(text, places.drop_first(), len, places[0] + len)
    }
}

/// The pieces of a text with the matches of a query highlighted. Matches
/// are found without regard to case and do not overlap; the empty query
/// matches nothing.
pub open spec fn highlighted(text: Seq<char>, query: Seq<char>) -> Seq<(Seq<char>, bool)> {
    segments_from(
        text,
        occurrences(lowercase(text), lowercase(query), query.len() as int, 0),
        query.len() as int,
        0,
    )
}

/// Cuts a text into plain and highlighted pieces: the matches of the
/// query, found without regard to case, are highlighted.
pub fn split_highlights(text: &str, query: &str) -> (r: Vec<Segment>)
    ensures
        segment_views(r@) == highlighted(text@, query@),
{
    let chars = chars_of(text);
    let query_chars = chars_of(query);
    let len = query_chars.len();
    let lower = to_lower(&chars);
    let query_lower = to_lower(&query_chars);
    let places = find_all(&lower, &query_lower, len);
    let ghost all = places@.map_values(|p: usize| p as int);
    let mut out: Vec<Segment> = Vec::new();
    let mut from: usize = 0;
    let ghost mut true_from: int = 0;
    let mut i: usize = 0;
    assert(all.skip(0) =~= all);
    assert(segment_views(out@) + segments_from(text@, all, len as int, 0) =~= highlighted(
        text@,
        query@,
    ));
    while i < places.len()
        invariant
            i <= places.len(),
            chars@ == text@,
            from <= chars.len(),
            all == places@.map_values(|p: usize| p as int),
            len == query@.len(),
            from == within(text@, true_from),
            segment_views(out@) + segments_from(text@, all.skip(i as int), len as int, true_from)
                == highlighted(text@, query@),
        decreases places.len() - i,
    {
        let ghost before = segment_views(out@);
        let place = places[i];
        let start = if place < chars.len() {
            place
        } else {
            chars.len()
        };
        let end = if len < chars.len() - start {
            start + len
        } else {
            chars.len()
        };
        proof {
            assert(all.skip(i as int)[0] == place as int);
            assert(all.skip(i as int).drop_first() =~= all.skip(i + 1));
            assert(start == within(text@, place as int));
            assert(end == within(text@, place + len));
        }
        let plain_from = if from < start {
            from
        } else {
            start
        };
        let plain = Segment {
            text: string_of(&copy_range(&chars, plain_from, start)),
            highlighted: false,
        };
        let marked = Segment { text: string_of(&copy_range(&chars, start, end)), highlighted: true };
        out.push(plain);
        out.push(marked);
        proof {
            assert(segment_views(out@) =~= before + seq![
                (text@.subrange(plain_from as int, start as int), false),
                (text@.subrange(start as int, end as int), true),
            ]);
            let reached = true_from;
            true_from = place + len;
            assert(before + seq![
                (text@.subrange(plain_from as int, start as int), false),
                (text@.subrange(start as int, end as int), true),
            ] + segments_from(text@, all.skip(i + 1), len as int, true_from) =~= before
                + segments_from(text@, all.skip(i as int), len as int, reached));
        }
        from = end;
        i += 1;
    }
    let ghost before = segment_views(out@);
    out.push(Segment { text: string_of(&copy_range(&chars, from, chars.len())), highlighted: false });
    assert(all.skip(places.len() as int) =~= Seq::<int>::empty());
    assert(segment_views(out@) =~= before + seq![
        (text@.subrange(within(text@, true_from), text@.len() as int), false),
    ]);
    out
}

// ---------------------------------------------------------------------------
// Connected notes
// ---------------------------------------------------------------------------

/// The titles that have a link going out or coming in, in order, each
/// once.
pub fn connected_notes(graph: &LinkGraph) -> (r: Vec<String>)
    requires
        graph.wf(),
    ensures
        is_sorted(strings(r@)),
        strings(r@).no_duplicates(),
        forall|t: Seq<char>| #[trigger]
            strings(r@).contains(t) <==> is_connected(graph.outbound@, graph.inbound@, t),
{
    let from = graph.outbound.titles();
    let to = graph.inbound.titles();
    let mut found: Vec<Vec<char>> = Vec::new();
    let mut i: usize = 0;
    while i < from.len()
        invariant
            i <= from.len(),
            graph.wf(),
            strings(from@).no_duplicates(),
            strings(from@).to_set() == graph.outbound@.dom(),
            texts(found@).no_duplicates(),
            forall|t: Seq<char>|
                #![trigger texts(found@).contains(t)]
                texts(found@).contains(t) <==> (strings(from@).take(i as int).contains(t)
                    && is_connected(graph.outbound@, graph.inbound@, t)),
        decreases from.len() - i,
    {
        let title = from[i].as_str();
        let ghost before = texts(found@);
        let ghost seen = strings(from@).take(i as int);
        proof {
            assert(strings(from@).take(i + 1) =~= seen.push(from@[i as int]@));
            assert(strings(from@)[i as int] == from@[i as int]@);
        }
        if graph.outbound.is_linked(title) || graph.inbound.is_linked(title) {
            proof {
                if before.contains(title@) {
                    assert(seen.contains(title@));
                    let m = choose|m: int| 0 <= m < seen.len() && seen[m] == title@;
                    assert(strings(from@)[m] == strings(from@)[i as int]);
                }
            }
            found.push(chars_of(title));
            proof {
                let after = texts(found@);
                assert(after =~= before.push(title@));
                assert forall|t: Seq<char>|
                    #![trigger after.contains(t)]
                    after.contains(t) <==> (strings(from@).take(i + 1).contains(t) && is_connected(
                        graph.outbound@,
                        graph.inbound@,
                        t,
                    )) by {
                    crate::links::lemma_contains_last(after, t);
                    crate::links::lemma_contains_last(strings(from@).take(i + 1), t);
                    assert(after.drop_last() =~= before);
                    assert(strings(from@).take(i + 1).drop_last() =~= seen);
                }
            }
        } else {
            proof {
                assert forall|t: Seq<char>|
                    #![trigger texts(found@).contains(t)]
                    texts(found@).contains(t) <==> (strings(from@).take(i + 1).contains(t)
                        && is_connected(graph.outbound@, graph.inbound@, t)) by {
                    crate::links::lemma_contains_last(strings(from@).take(i + 1), t);
                    assert(strings(from@).take(i + 1).drop_last() =~= seen);
                }
            }
        }
        i += 1;
    }
    assert(strings(from@).take(from.len() as int) =~= strings(from@));
    let ghost first = texts(found@);
    let mut j: usize = 0;
    while j < to.len()
        invariant
            j <= to.len(),
            graph.wf(),
            strings(to@).no_duplicates(),
            strings(to@).to_set() == graph.inbound@.dom(),
            texts(found@).no_duplicates(),
            forall|t: Seq<char>|
                #![trigger texts(found@).contains(t)]
                texts(found@).contains(t) <==> ((strings(from@).contains(t) || strings(to@).take(
                    j as int,
                ).contains(t)) && is_connected(graph.outbound@, graph.inbound@, t)),
        decreases to.len() - j,
    {
        let title = to[j].as_str();
        let ghost before = texts(found@);
        let ghost seen = strings(to@).take(j as int);
        proof {
            assert(strings(to@).take(j + 1) =~= seen.push(to@[j as int]@));
            assert(strings(to@)[j as int] == to@[j as int]@);
        }
        let linked = graph.outbound.is_linked(title) || graph.inbound.is_linked(title);
        let known = holds(&found, title);
        if linked && !known {
            found.push(chars_of(title));
            proof {
                let after = texts(found@);
                assert(after =~= before.push(title@));
                assert forall|t: Seq<char>|
                    #![trigger after.contains(t)]
                    after.contains(t) <==> ((strings(from@).contains(t) || strings(to@).take(
                        j + 1,
                    ).contains(t)) && is_connected(graph.outbound@, graph.inbound@, t)) by {
                    crate::links::lemma_contains_last(after, t);
                    crate::links::lemma_contains_last(strings(to@).take(j + 1), t);
                    assert(after.drop_last() =~= before);
                    assert(strings(to@).take(j + 1).drop_last() =~= seen);
                }
            }
        } else {
            proof {
                assert forall|t: Seq<char>|
                    #![trigger texts(found@).contains(t)]
                    texts(found@).contains(t) <==> ((strings(from@).contains(t) || strings(
                        to@,
                    ).take(j + 1).contains(t)) && is_connected(
                        graph.outbound@,
                        graph.inbound@,
                        t,
                    )) by {
                    crate::links::lemma_contains_last(strings(to@).take(j + 1), t);
                    assert(strings(to@).take(j + 1).drop_last() =~= seen);
                }
            }
        }
        j += 1;
    }
    assert(strings(to@).take(to.len() as int) =~= strings(to@));
    let ghost unsorted = texts(found@);
    let sorted = sort_texts(found);
    let r = strings_of(&sorted);
    proof {
        let out = strings(r@);
        unsorted.lemma_multiset_has_no_duplicates();
        out.lemma_multiset_has_no_duplicates_conv();
        assert forall|t: Seq<char>| #[trigger]
            out.contains(t) <==> is_connected(graph.outbound@, graph.inbound@, t) by {
            vstd::seq_lib::to_multiset_contains(out, t);
            vstd::seq_lib::to_multiset_contains(unsorted, t);
            if is_connected(graph.outbound@, graph.inbound@, t) {
                if targets(graph.outbound@, t) != Set::<Seq<char>>::empty() {
                    assert(graph.outbound@.dom().contains(t));
                    assert(strings(from@).to_set().contains(t));
                } else {
                    assert(graph.inbound@.dom().contains(t));
                    assert(strings(to@).to_set().contains(t));
                }
            }
        }
    }
    r
}

fn holds(list: &Vec<Vec<char>>, item: &str) -> (r: bool)
    ensures
        r == texts(list@).contains(item@),
{
    let wanted = chars_of(item);
    let mut i: usize = 0;
    while i < list.len()
        invariant
            i <= list.len(),
            wanted@ == item@,
            forall|k: int| 0 <= k < i ==> texts(list@)[k] != item@,
        decreases list.len() - i,
    {
        if same_chars(&list[i], &wanted) {
            assert(texts(list@)[i as int] == item@);
            return true;
        }
        i += 1;
    }
    false
}

// ---------------------------------------------------------------------------
// Changes
// ---------------------------------------------------------------------------

/// A line without the carriage return at its end.
pub open spec fn without_cr(line: Seq<char>) -> Seq<char> {
    if line.len() > 0 && line.last() == '\r' {
        line.drop_last()
    } else {
        line
    }
}

/// The lines of a text: it is split at line feeds, a carriage return
/// before a line feed goes with it, and a line feed at the very end ends
/// the last line without opening another.
pub open spec fn text_lines(s: Seq<char>) -> Seq<Seq<char>>
    decreases s.len(),
    via text_lines_decreases
{
    match index_of_char(s, '\n') {
        Some(at) => seq![without_cr(s.take(at))] + text_lines(s.skip(at + 1)),
        None => if s.len() == 0 {
            Seq::empty()
        } else {
            seq![s]
        },
    }
}

#[via_fn]
proof fn text_lines_decreases(s: Seq<char>) {
    lemma_first_occurrence(s, seq!['\n'], 0);
}

/// The lines of a text.
pub fn lines_of(s: &Vec<char>) -> (r: Vec<Vec<char>>)
    ensures
        texts(r@) == text_lines(s@),
{
    let mut out: Vec<Vec<char>> = Vec::new();
    let mut rest: Vec<char> = copy_range(s, 0, s.len());
    assert(rest@ =~= s@);
    assert(texts(out@) + text_lines(rest@) =~= text_lines(s@));
    loop
        invariant_except_break
            texts(out@) + text_lines(rest@) == text_lines(s@),
        ensures
            texts(out@) == text_lines(s@),
        decreases rest.len(),
    {
        let ghost before = texts(out@);
        match find_char(&rest, '\n') {
            Some(at) => {
                let line = if at > 0 && rest[at - 1] == '\r' {
                    copy_range(&rest, 0, at - 1)
                } else {
                    copy_range(&rest, 0, at)
                };
                let next = copy_range(&rest, at + 1, rest.len());
                proof {
                    assert(rest@.take(at as int).len() == at);
                    if at > 0 {
                        assert(rest@.take(at as int).last() == rest@[at - 1]);
                    }
                    assert(line@ =~= without_cr(rest@.take(at as int)));
                    assert(next@ =~= rest@.skip(at + 1));
                }
                out.push(line);
                proof {
                    assert(texts(out@) =~= before.push(line@));
                    assert(before.push(line@) + text_lines(next@) =~= before + text_lines(rest@));
                }
                rest = next;
            },
            None => {
                if rest.len() > 0 {
                    let ghost last = rest@;
                    out.push(rest);
                    assert(texts(out@) =~= before.push(last));
                    assert(before.push(last) =~= before + text_lines(last));
                } else {
                    assert(before + text_lines(rest@) =~= before);
                }
                break;
            },
        }
    }
    out
}

/// What happened to a file.
#[derive(Debug, Clone, Copy, PartialEq, Eq, Structural)]
pub enum Change {
    Modified,
    Added,
    Deleted,
}

/// What a line of the short status of git says: the two characters at
/// its start tell what happened, the file name follows a further
/// character. A line of less than three characters, or with another
/// status, says nothing.
pub open spec fn change_of(line: Seq<char>) -> Option<Change> {
    if line.len() < 3 {
        None
    } else {
        let status = line.take(2);
        if status == seq!['M', ' '] || status == seq![' ', 'M'] || status == seq!['M', 'M'] {
            Some(Change::Modified)
        } else if status == seq!['A', ' '] || status == seq!['?', '?'] {
            Some(Change::Added)
        } else if status == seq!['D', ' '] || status == seq![' ', 'D'] {
            Some(Change::Deleted)
        } else {
            None
        }
    }
}

/// The entries of a summary for the files to which the given thing
/// happened, in order: each file name behind `- `.
pub open spec fn entries_of(lines: Seq<Seq<char>>, change: Change) -> Seq<Seq<char>>
    decreases lines.len(),
{
    if lines.len() == 0 {
        Seq::empty()
    } else {
        let prev = entries_of(lines.drop_last(), change);
        if change_of(lines.last()) == Some(change) {
            prev.push(seq!['-', ' '] + lines.last().skip(3))
        } else {
            prev
        }
    }
}

/// A part of the summary: its heading and its entries; nothing where
/// there are no entries.
pub open spec fn summary_part(heading: Seq<char>, entries: Seq<Seq<char>>) -> Seq<Seq<char>> {
    if entries.len() == 0 {
        Seq::empty()
    } else {
        seq![heading] + entries
    }
}

/// Two parts of a summary, with an empty line between them where neither
/// is empty.
pub open spec fn parts_joined(first: Seq<Seq<char>>, second: Seq<Seq<char>>) -> Seq<Seq<char>> {
    if first.len() > 0 && second.len() > 0 {
        first + seq![Seq::<char>::empty()] + second
    } else {
        first + second
    }
}

/// The lines of the summary of a short status: the files modified, added
/// and deleted, each part under its heading.
pub open spec fn summary_lines(lines: Seq<Seq<char>>) -> Seq<Seq<char>> {
    parts_joined(
        parts_joined(
            summary_part("Modified:"@, entries_of(lines, Change::Modified)),
            summary_part("Added:"@, entries_of(lines, Change::Added)),
        ),
        summary_part("Deleted:"@, entries_of(lines, Change::Deleted)),
    )
}

/// The summary of a short status, as the body of a commit message.
pub open spec fn change_summary(status: Seq<char>) -> Seq<char> {
    join(summary_lines(text_lines(status)), seq!['\n'])
}

fn classify(line: &Vec<char>) -> (r: Option<Change>)
    ensures
        r == change_of(line@),
{
    if line.len() < 3 {
        return None;
    }
    let a = line[0];
    let b = line[1];
    assert(line@.take(2) =~= seq![a, b]);
    assert(seq![a, b][0] == a && seq![a, b][1] == b);
    if (a == 'M' && b == ' ') || (a == ' ' && b == 'M') || (a == 'M' && b == 'M') {
        Some(Change::Modified)
    } else if (a == 'A' && b == ' ') || (a == '?' && b == '?') {
        Some(Change::Added)
    } else if (a == 'D' && b == ' ') || (a == ' ' && b == 'D') {
        Some(Change::Deleted)
    } else {
        None
    }
}

fn collect_entries(lines: &Vec<Vec<char>>, change: Change) -> (r: Vec<Vec<char>>)
    ensures
        texts(r@) == entries_of(texts(lines@), change),
{
    let ghost all = texts(lines@);
    let mut out: Vec<Vec<char>> = Vec::new();
    let mut i: usize = 0;
    assert(all.take(0) =~= Seq::<Seq<char>>::empty());
    assert(texts(out@) =~= Seq::<Seq<char>>::empty());
    while i < lines.len()
        invariant
            i <= lines.len(),
            all == texts(lines@),
            texts(out@) == entries_of(all.take(i as int), change),
        decreases lines.len() - i,
    {
        proof {
            assert(all.take(i + 1).drop_last() =~= all.take(i as int));
            assert(all.take(i + 1).last() == lines@[i as int]@);
        }
        match classify(&lines[i]) {
            Some(found) => {
                if found == change {
                    let ghost before = texts(out@);
                    let mut entry: Vec<char> = vec!['-', ' '];
                    assert(entry@ =~= seq!['-', ' ']);
                    let name = copy_range(&lines[i], 3, lines[i].len());
                    assert(name@ =~= lines@[i as int]@.skip(3));
                    push_all(&mut entry, &name);
                    out.push(entry);
                    assert(texts(out@) =~= before.push(seq!['-', ' '] + lines@[i as int]@.skip(3)));
                }
            },
            None => {},
        }
        i += 1;
    }
    assert(all.take(lines.len() as int) =~= all);
    out
}

fn push_part(out: &mut Vec<Vec<char>>, heading: &str, entries: &Vec<Vec<char>>)
    ensures
        texts(final(out)@) == parts_joined(
            texts(old(out)@),
            summary_part(heading@, texts(entries@)),
        ),
{
    let ghost start = texts(out@);
    if entries.len() == 0 {
        assert(texts(out@) =~= parts_joined(start, summary_part(heading@, texts(entries@))));
        return ;
    }
    if out.len() > 0 {
        out.push(Vec::new());
        assert(texts(out@) =~= start + seq![Seq::<char>::empty()]);
    }
    let ghost spaced = texts(out@);
    out.push(chars_of(heading));
    assert(texts(out@) =~= spaced + seq![heading@]);
    let mut i: usize = 0;
    while i < entries.len()
        invariant
            i <= entries.len(),
            texts(out@) =~= spaced + seq![heading@] + texts(entries@).take(i as int),
        decreases entries.len() - i,
    {
        let ghost before = texts(out@);
        let entry = copy_range(&entries[i], 0, entries[i].len());
        assert(entry@ =~= entries@[i as int]@);
        out.push(entry);
        assert(texts(out@) =~= before.push(entries@[i as int]@));
        i += 1;
    }
    assert(texts(entries@).take(entries.len() as int) =~= texts(entries@));
    assert(texts(out@) =~= parts_joined(start, summary_part(heading@, texts(entries@))));
}

/// Sums up the short status of git (`git status --porcelain`) for a
/// commit message: the files modified, added and deleted, each list under
/// its heading, with an empty line between the lists.
pub fn summarize_changes(status: &str) -> (r: String)
    ensures
        r@ == change_summary(status@),
{
    let lines = lines_of(&chars_of(status));
    let modified = collect_entries(&lines, Change::Modified);
    let added = collect_entries(&lines, Change::Added);
    let deleted = collect_entries(&lines, Change::Deleted);
    let mut summary: Vec<Vec<char>> = Vec::new();
    assert(texts(summary@) =~= Seq::<Seq<char>>::empty());
    push_part(&mut summary, "Modified:", &modified);
    assert(texts(summary@) =~= summary_part("Modified:"@, texts(modified@)));
    push_part(&mut summary, "Added:", &added);
    push_part(&mut summary, "Deleted:", &deleted);
    string_of(&join_with(&summary, '\n'))
}

/// The message of a commit: the subject, and below an empty line the
/// summary of the changes, where there is one.
pub fn commit_message(subject: &str, summary: &str) -> (r: String)
    ensures
        r@ == if summary@.len() == 0 {
            subject@
        } else {
            subject@ + "\n\n"@ + summary@
        },
{
    let mut out = subject.to_owned();
    if chars_of(summary).len() > 0 {
        out.push_str("\n\n");
        out.push_str(summary);
    }
    out
}

/// The number of files that a summary of changes lists: its lines that
/// begin with `-`.
pub open spec fn listed_changes(lines: Seq<Seq<char>>) -> nat
    decreases lines.len(),
{
    if lines.len() == 0 {
        0
    } else {
        listed_changes(lines.drop_last()) + if lines.last().len() > 0 && lines.last()[0] == '-' {
            1nat
        } else {
            0nat
        }
    }
}

/// Counts the files that a summary of changes lists.
pub fn count_changes(summary: &str) -> (r: usize)
    ensures
        r == listed_changes(text_lines(summary@)),
{
    let lines = lines_of(&chars_of(summary));
    let ghost all = texts(lines@);
    let mut count: usize = 0;
    let mut i: usize = 0;
    assert(all.take(0) =~= Seq::<Seq<char>>::empty());
    while i < lines.len()
        invariant
            i <= lines.len(),
            all == texts(lines@),
            count == listed_changes(all.take(i as int)),
            count <= i,
        decreases lines.len() - i,
    {
        proof {
            assert(all.take(i + 1).drop_last() =~= all.take(i as int));
            assert(all.take(i + 1).last() == lines@[i as int]@);
        }
        if lines[i].len() > 0 && lines[i][0] == '-' {
            count += 1;
        }
        i += 1;
    }
    assert(all.take(lines.len() as int) =~= all);
    count
}

} // verus!
