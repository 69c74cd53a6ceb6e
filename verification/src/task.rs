//! Checklist items and the annotations that their text carries.
//!
//! A task line reads `[<mark>] [<urgency> ][(<priority>)] <text>[ @tag]*`.
//! The functions here take the text of one list item apart and put a task
//! back together as a markdown line.

use crate::text::{
    chars_of, copy_range, find_char, has_prefix, index_of_char, join, join_with_space, decimal,
    lemma_first_occurrence, lowercase, push_all, push_decimal, push_str_chars, same_chars,
    split_words, starts_with, string_of, texts, to_lower, trim, trimmed, words,
};
use crate::markdown::{parse_markdown, span_models, EventModel, MdEvent, SpanModel, markdown_spans};
use crate::note::Note;
use crate::path::{file_stem, stem_of};
use vstd::prelude::*;

verus! {

/// The state of a task, as its checkbox shows it.
#[derive(Debug, Clone, Copy, PartialEq, Eq, Structural)]
pub enum TaskStatus {
    /// `[ ]`
    Uncompleted,
    /// `[x]` or `[X]`
    Completed,
    /// `[>]`
    Migrated,
}

impl TaskStatus {
    /// The status that a checkbox character stands for.
    pub open spec fn of_checkbox(c: char) -> Option<TaskStatus> {
        if c == ' ' {
            Some(TaskStatus::Uncompleted)
        } else if c == 'x' || c == 'X' {
            Some(TaskStatus::Completed)
        } else if c == '>' {
            Some(TaskStatus::Migrated)
        } else {
            None
        }
    }

    /// Reads a checkbox character; any character but ` `, `x`, `X` and `>`
    /// is no checkbox.
    pub fn from_checkbox_char(c: char) -> (r: Option<TaskStatus>)
        ensures
            r == Self::of_checkbox(c),
    {
        if c == ' ' {
            Some(TaskStatus::Uncompleted)
        } else if c == 'x' || c == 'X' {
            Some(TaskStatus::Completed)
        } else if c == '>' {
            Some(TaskStatus::Migrated)
        } else {
            None
        }
    }

    /// Whether the task is still open.
    pub fn is_incomplete(&self) -> (r: bool)
        ensures
            r == (*self == TaskStatus::Uncompleted),
    {
        match self {
            TaskStatus::Uncompleted => true,
            _ => false,
        }
    }
}

/// A checklist item of a note.
#[derive(Debug, PartialEq, Eq)]
pub struct Task {
    /// The path of the note that holds the task.
    pub note_path: String,
    /// The title of that note.
    pub note_title: String,
    /// The position of the task among the tasks of its note, from 1.
    pub index: usize,
    pub status: TaskStatus,
    pub text: String,
    pub priority: Option<String>,
    /// `!!!`, `!!` or `!`.
    pub urgency: Option<String>,
    /// Lowercase, without the `@`, each once.
    pub tags: Vec<String>,
}

/// The mathematical value of a [`Task`].
pub struct TaskView {
    pub note_path: Seq<char>,
    pub note_title: Seq<char>,
    pub index: nat,
    pub status: TaskStatus,
    pub text: Seq<char>,
    pub priority: Option<Seq<char>>,
    pub urgency: Option<Seq<char>>,
    pub tags: Seq<Seq<char>>,
}

/// The views of a list of strings.
pub open spec fn strings(v: Seq<String>) -> Seq<Seq<char>> {
    v.map_values(|s: String| s@)
}

/// The view of an optional string.
pub open spec fn opt_text(s: Option<String>) -> Option<Seq<char>> {
    match s {
        Some(t) => Some(t@),
        None => None,
    }
}

impl View for Task {
    type V = TaskView;

    open spec fn view(&self) -> TaskView {
        TaskView {
            note_path: self.note_path@,
            note_title: self.note_title@,
            index: self.index as nat,
            status: self.status,
            text: self.text@,
            priority: opt_text(self.priority),
            urgency: opt_text(self.urgency),
            tags: strings(self.tags@),
        }
    }
}

impl Clone for Task {
    fn clone(&self) -> (r: Task)
        ensures
            r@ == self@,
    {
        let tags = crate::text::clone_strings(&self.tags);
        assert(strings(tags@) =~= strings(self.tags@));
        Task {
            note_path: self.note_path.clone(),
            note_title: self.note_title.clone(),
            index: self.index,
            status: self.status,
            text: self.text.clone(),
            priority: match &self.priority {
                Some(p) => Some(p.clone()),
                None => None,
            },
            urgency: match &self.urgency {
                Some(u) => Some(u.clone()),
                None => None,
            },
            tags,
        }
    }
}

/// The views of a list of tasks.
pub open spec fn task_views(v: Seq<Task>) -> Seq<TaskView> {
    v.map_values(|t: Task| t@)
}

// ---------------------------------------------------------------------------
// Urgency and priority
// ---------------------------------------------------------------------------

/// The urgency that a trimmed task text begins with: one of `!!!`, `!!`, `!`,
/// and only where a space follows it.
pub open spec fn leading_urgency(t: Seq<char>) -> Option<Seq<char>> {
    if starts_with(t, seq!['!', '!', '!', ' ']) {
        Some(seq!['!', '!', '!'])
    } else if starts_with(t, seq!['!', '!', ' ']) {
        Some(seq!['!', '!'])
    } else if starts_with(t, seq!['!', ' ']) {
        Some(seq!['!'])
    } else {
        None
    }
}

/// What follows the urgency and its space.
pub open spec fn after_urgency(t: Seq<char>) -> Seq<char> {
    match leading_urgency(t) {
        Some(u) => t.skip(u.len() as int + 1),
        None => t,
    }
}

/// Whether `rest` opens with a parenthesis that is closed later on.
pub open spec fn has_priority_parens(rest: Seq<char>) -> bool {
    rest.len() > 0 && rest[0] == '(' && index_of_char(rest, ')') is Some
}

/// The priority that `rest` opens with: what stands between `(` and the first
/// `)`, unless that is blank.
pub open spec fn leading_priority(rest: Seq<char>) -> Option<Seq<char>> {
    if has_priority_parens(rest) {
        let inner = rest.subrange(1, index_of_char(rest, ')')->0);
        if trim(inner).len() == 0 {
            None
        } else {
            Some(inner)
        }
    } else {
        None
    }
}

/// What follows the parentheses, trimmed; all of `rest` where there are none.
pub open spec fn after_priority(rest: Seq<char>) -> Seq<char> {
    if has_priority_parens(rest) {
        trim(rest.skip(index_of_char(rest, ')')->0 + 1))
    } else {
        rest
    }
}

/// Urgency, priority and remaining text of a task text.
pub open spec fn urgency_and_priority(text: Seq<char>) -> (
    Option<Seq<char>>,
    Option<Seq<char>>,
    Seq<char>,
) {
    let rest = after_urgency(trim(text));
    (leading_urgency(trim(text)), leading_priority(rest), after_priority(rest))
}

// ---------------------------------------------------------------------------
// Tags
// ---------------------------------------------------------------------------

/// Whether a word is a tag annotation.
pub open spec fn is_tag_word(w: Seq<char>) -> bool {
    w.len() > 0 && w[0] == '@'
}

/// The index of the first word of the run of tag words that ends `ws`.
pub open spec fn tag_start(ws: Seq<Seq<char>>) -> nat
    decreases ws.len(),
{
    if ws.len() > 0 && is_tag_word(ws.last()) {
        tag_start(ws.drop_last())
    } else {
        ws.len()
    }
}

/// The tag that a tag word names.
pub open spec fn tag_of_word(w: Seq<char>) -> Seq<char> {
    lowercase(w.skip(1))
}

/// `s` without the repetitions: of equal items the first stays.
pub open spec fn dedup(s: Seq<Seq<char>>) -> Seq<Seq<char>>
    decreases s.len(),
{
    if s.len() == 0 {
        Seq::empty()
    } else {
        let head = dedup(s.drop_last());
        if head.contains(s.last()) {
            head
        } else {
            head.push(s.last())
        }
    }
}

/// The tags named at the end of a task text.
pub open spec fn trailing_tags(text: Seq<char>) -> Seq<Seq<char>> {
    let ws = words(trim(text));
    dedup(ws.skip(tag_start(ws) as int).map_values(|w: Seq<char>| tag_of_word(w)))
}

/// The task text before its tags, its words joined by single spaces.
pub open spec fn text_before_tags(text: Seq<char>) -> Seq<char> {
    let ws = words(trim(text));
    join(ws.take(tag_start(ws) as int), seq![' '])
}

pub proof fn lemma_tag_start_is(ws: Seq<Seq<char>>, n: int)
    requires
        0 <= n <= ws.len(),
        forall|i: int| n <= i < ws.len() ==> is_tag_word(#[trigger] ws[i]),
        n > 0 ==> !is_tag_word(ws[n - 1]),
    ensures
        tag_start(ws) == n,
    decreases ws.len(),
{
    if n < ws.len() {
        assert(is_tag_word(ws[ws.len() - 1]));
        let head = ws.drop_last();
        assert forall|i: int| n <= i < head.len() implies is_tag_word(#[trigger] head[i]) by {
            assert(head[i] == ws[i]);
        }
        lemma_tag_start_is(head, n);
    }
}

/// Whether `list` holds the text `item`.
fn holds_text(list: &Vec<Vec<char>>, item: &Vec<char>) -> (r: bool)
    ensures
        r == texts(list@).contains(item@),
{
    let mut i: usize = 0;
    while i < list.len()
        invariant
            i <= list.len(),
            forall|k: int| 0 <= k < i ==> texts(list@)[k] != item@,
        decreases list.len() - i,
    {
        if same_chars(&list[i], item) {
            assert(texts(list@)[i as int] == item@);
            return true;
        }
        i += 1;
    }
    false
}

/// Splits the tags off the end of a task text. Returns the tags (lowercase,
/// without `@`, each once, in the order of their first appearance) and the
/// text before them, its words joined by single spaces.
pub fn parse_tags_chars(text: &Vec<char>) -> (r: (Vec<Vec<char>>, Vec<char>))
    ensures
        texts(r.0@) == trailing_tags(text@),
        r.1@ == text_before_tags(text@),
{
    let t = trimmed(text);
    let ws = split_words(&t);
    let ghost wm = words(trim(text@));
    // Scan backwards over the words that begin with '@'.
    let mut start: usize = ws.len();
    while start > 0 && ws[start - 1].len() > 0 && ws[start - 1][0] == '@'
        invariant
            start <= ws.len(),
            texts(ws@) == wm,
            forall|i: int| start <= i < ws.len() ==> is_tag_word(#[trigger] wm[i]),
        decreases start,
    {
        assert(wm[start - 1] == ws@[start - 1]@);
        start -= 1;
    }
    proof {
        if start > 0 {
            assert(wm[start - 1] == ws@[start - 1]@);
        }
        lemma_tag_start_is(wm, start as int);
    }
    let ghost raw = wm.skip(start as int).map_values(|w: Seq<char>| tag_of_word(w));
    let mut tags: Vec<Vec<char>> = Vec::new();
    let mut i: usize = start;
    assert(raw.take(0) =~= Seq::<Seq<char>>::empty());
    assert(texts(tags@) =~= Seq::<Seq<char>>::empty());
    while i < ws.len()
        invariant
            start <= i <= ws.len(),
            texts(ws@) == wm,
            raw == wm.skip(start as int).map_values(|w: Seq<char>| tag_of_word(w)),
            forall|k: int| start <= k < ws.len() ==> is_tag_word(#[trigger] wm[k]),
            texts(tags@) == dedup(raw.take(i - start)),
        decreases ws.len() - i,
    {
        let word = &ws[i];
        assert(wm[i as int] == word@);
        assert(is_tag_word(wm[i as int]));
        let name = copy_range(word, 1, word.len());
        let tag = to_lower(&name);
        proof {
            assert(name@ =~= word@.skip(1));
            assert(raw.take(i - start + 1).drop_last() =~= raw.take(i - start));
            assert(raw.take(i - start + 1).last() == tag@);
        }
        if !holds_text(&tags, &tag) {
            assert(texts(tags@.push(tag)) =~= texts(tags@).push(tag@));
            tags.push(tag);
        }
        i += 1;
    }
    assert(raw.take(ws.len() - start) =~= raw);
    let body = join_with_space(&ws, 0, start);
    assert(wm.subrange(0, start as int) =~= wm.take(start as int));
    (tags, body)
}

spec fn urgency_len(t: Seq<char>) -> nat {
    match leading_urgency(t) {
        Some(u) => u.len(),
        None => 0,
    }
}

/// The number of exclamation marks of the urgency that `t` begins with.
fn urgency_marks(t: &Vec<char>) -> (n: usize)
    ensures
        n == urgency_len(t@),
        n <= 3,
        n > 0 <==> leading_urgency(t@) is Some,
        n > 0 ==> n + 1 <= t.len() && leading_urgency(t@) == Some(t@.take(n as int)),
{
    let high: Vec<char> = vec!['!', '!', '!', ' '];
    let medium: Vec<char> = vec!['!', '!', ' '];
    let low: Vec<char> = vec!['!', ' '];
    assert(high@ =~= seq!['!', '!', '!', ' ']);
    assert(medium@ =~= seq!['!', '!', ' ']);
    assert(low@ =~= seq!['!', ' ']);
    if has_prefix(t, &high) {
        assert(t@.take(3) =~= t@.subrange(0, 4).take(3));
        assert(t@.take(3) =~= seq!['!', '!', '!']);
        3
    } else if has_prefix(t, &medium) {
        assert(t@.take(2) =~= t@.subrange(0, 3).take(2));
        assert(t@.take(2) =~= seq!['!', '!']);
        2
    } else if has_prefix(t, &low) {
        assert(t@.take(1) =~= t@.subrange(0, 2).take(1));
        assert(t@.take(1) =~= seq!['!']);
        1
    } else {
        0
    }
}

/// Splits urgency and priority off the start of a task text. Returns the
/// urgency, the priority and the text that remains.
pub fn parse_urgency_and_priority_chars(text: &Vec<char>) -> (r: (
    Option<Vec<char>>,
    Option<Vec<char>>,
    Vec<char>,
))
    ensures
        opt_chars(r.0) == urgency_and_priority(text@).0,
        opt_chars(r.1) == urgency_and_priority(text@).1,
        r.2@ == urgency_and_priority(text@).2,
{
    let t = trimmed(text);
    let marks = urgency_marks(&t);
    let (urgency, rest) = if marks > 0 {
        let u = copy_range(&t, 0, marks);
        let rest = copy_range(&t, marks + 1, t.len());
        assert(u@ =~= t@.take(marks as int));
        assert(rest@ =~= t@.skip(marks + 1));
        (Some(u), rest)
    } else {
        (None, t)
    };
    assert(rest@ == after_urgency(trim(text@)));
    if rest.len() > 0 && rest[0] == '(' {
        match find_char(&rest, ')') {
            Some(close) => {
                proof {
                    lemma_first_occurrence(rest@, seq![')'], 0);
                }
                assert(close >= 1);
                let inner = copy_range(&rest, 1, close);
                let tail = copy_range(&rest, close + 1, rest.len());
                assert(tail@ =~= rest@.skip(close + 1));
                let body = trimmed(&tail);
                let blank = trimmed(&inner).len() == 0;
                if blank {
                    (urgency, None, body)
                } else {
                    (urgency, Some(inner), body)
                }
            },
            None => (urgency, None, rest),
        }
    } else {
        (urgency, None, rest)
    }
}

/// The view of an optional text.
pub open spec fn opt_chars(s: Option<Vec<char>>) -> Option<Seq<char>> {
    match s {
        Some(t) => Some(t@),
        None => None,
    }
}

/// Turns texts into strings, one for one.
pub fn strings_of(v: &Vec<Vec<char>>) -> (r: Vec<String>)
    ensures
        strings(r@) == texts(v@),
{
    let mut out: Vec<String> = Vec::new();
    let mut i: usize = 0;
    while i < v.len()
        invariant
            i <= v.len(),
            strings(out@) =~= texts(v@).take(i as int),
        decreases v.len() - i,
    {
        let s = string_of(&v[i]);
        assert(strings(out@.push(s)) =~= strings(out@).push(s@));
        out.push(s);
        i += 1;
    }
    assert(texts(v@).take(v.len() as int) =~= texts(v@));
    out
}

/// Turns an optional text into an optional string.
pub fn opt_string_of(v: &Option<Vec<char>>) -> (r: Option<String>)
    ensures
        opt_text(r) == opt_chars(*v),
{
    match v {
        Some(t) => Some(string_of(t)),
        None => None,
    }
}

// ---------------------------------------------------------------------------
// List items
// ---------------------------------------------------------------------------

/// What the text of one list item says about a task.
pub struct ItemTask {
    pub status: TaskStatus,
    pub urgency: Option<Seq<char>>,
    pub priority: Option<Seq<char>>,
    pub text: Seq<char>,
    pub tags: Seq<Seq<char>>,
}

/// Whether a trimmed item text opens with a checkbox: a bracket, one
/// character, a bracket.
pub open spec fn has_checkbox(t: Seq<char>) -> bool {
    t.len() > 0 && t[0] == '[' && index_of_char(t.skip(1), ']') == Some(1int)
}

/// The task that the text of a list item denotes, if it denotes one: the item
/// must open with a checkbox whose mark is one of ` `, `x`, `X`, `>`.
pub open spec fn item_task(item: Seq<char>) -> Option<ItemTask> {
    let t = trim(item);
    if has_checkbox(t) && TaskStatus::of_checkbox(t[1]) is Some {
        let (urgency, priority, rest) = urgency_and_priority(t.skip(3));
        Some(
            ItemTask {
                status: TaskStatus::of_checkbox(t[1])->0,
                urgency,
                priority,
                text: text_before_tags(rest),
                tags: trailing_tags(rest),
            },
        )
    } else {
        None
    }
}

/// The state of the scan for list items: whether an item is open, the text
/// gathered for it, and the tasks found in the items closed so far.
pub struct ItemScan {
    pub inside: bool,
    pub text: Seq<char>,
    pub found: Seq<ItemTask>,
}

/// One step of the scan. An opening item starts a fresh text (also inside
/// another item); text runs are gathered while an item is open; a closing
/// item is looked at as a task.
pub open spec fn item_step(state: ItemScan, event: EventModel) -> ItemScan {
    match event {
        EventModel::ItemStart => ItemScan { inside: true, text: Seq::empty(), found: state.found },
        EventModel::Text(t) => if state.inside {
            ItemScan { inside: true, text: state.text + t, found: state.found }
        } else {
            state
        },
        EventModel::ItemEnd => if state.inside {
            ItemScan {
                inside: false,
                text: state.text,
                found: match item_task(state.text) {
                    Some(task) => state.found.push(task),
                    None => state.found,
                },
            }
        } else {
            state
        },
        _ => state,
    }
}

/// The scan over a whole event list.
pub open spec fn item_scan(events: Seq<SpanModel>) -> ItemScan
    decreases events.len(),
{
    if events.len() == 0 {
        ItemScan { inside: false, text: Seq::empty(), found: Seq::empty() }
    } else {
        item_step(item_scan(events.drop_last()), events.last().event)
    }
}

/// The tasks of a note, in document order, numbered from 1.
pub open spec fn note_tasks(path: Seq<char>, title: Seq<char>, content: Seq<char>) -> Seq<
    TaskView,
> {
    note_tasks_of(path, title, item_scan(markdown_spans(content)).found)
}

/// The parts of a task that its item text gives.
pub struct ParsedItem {
    pub status: TaskStatus,
    pub urgency: Option<String>,
    pub priority: Option<String>,
    pub text: String,
    pub tags: Vec<String>,
}

impl View for ParsedItem {
    type V = ItemTask;

    open spec fn view(&self) -> ItemTask {
        ItemTask {
            status: self.status,
            urgency: opt_text(self.urgency),
            priority: opt_text(self.priority),
            text: self.text@,
            tags: strings(self.tags@),
        }
    }
}

/// Reads the text of one list item as a task. `None` where the item does not
/// open with a checkbox.
pub fn parse_item(item: &Vec<char>) -> (r: Option<ParsedItem>)
    ensures
        match r {
            Some(p) => item_task(item@) == Some(p@),
            None => item_task(item@) is None,
        },
{
    let t = trimmed(item);
    if t.len() == 0 || t[0] != '[' {
        return None;
    }
    let rest = copy_range(&t, 1, t.len());
    assert(rest@ =~= t@.skip(1));
    match find_char(&rest, ']') {
        Some(close) => {
            if close != 1 {
                return None;
            }
            assert(rest@[0] == t@[1]);
            match TaskStatus::from_checkbox_char(rest[0]) {
                Some(status) => {
                    let task_text = copy_range(&t, 3, t.len());
                    assert(task_text@ =~= t@.skip(3));
                    let (urgency, priority, body) = parse_urgency_and_priority_chars(&task_text);
                    let (tags, text) = parse_tags_chars(&body);
                    Some(
                        ParsedItem {
                            status,
                            urgency: opt_string_of(&urgency),
                            priority: opt_string_of(&priority),
                            text: string_of(&text),
                            tags: strings_of(&tags),
                        },
                    )
                },
                None => None,
            }
        },
        None => None,
    }
}

impl Task {
    /// Splits the tags off the end of a task text: the words from the end
    /// backward that begin with `@`. Returns the tags (without `@`,
    /// lowercase, each once, first appearance first) and the text before
    /// them, its words joined by single spaces.
    pub fn parse_tags(text: &str) -> (r: (Vec<String>, String))
        ensures
            strings(r.0@) == trailing_tags(text@),
            r.1@ == text_before_tags(text@),
    {
        let (tags, body) = parse_tags_chars(&chars_of(text));
        (strings_of(&tags), string_of(&body))
    }

    /// Splits urgency and priority off the start of a task text. The
    /// urgency is one of `!!!`, `!!`, `!` and counts only where a space
    /// follows; the priority stands in parentheses right after it, and blank
    /// parentheses give none. Returns urgency, priority and the text that
    /// remains.
    pub fn parse_urgency_and_priority(text: &str) -> (r: (Option<String>, Option<String>, String))
        ensures
            opt_text(r.0) == urgency_and_priority(text@).0,
            opt_text(r.1) == urgency_and_priority(text@).1,
            r.2@ == urgency_and_priority(text@).2,
    {
        let (urgency, priority, rest) = parse_urgency_and_priority_chars(&chars_of(text));
        (opt_string_of(&urgency), opt_string_of(&priority), string_of(&rest))
    }

    /// All tasks of a note, in document order. A list item is a task where
    /// its text, trimmed, opens with `[ ]`, `[x]`, `[X]` or `[>]`.
    pub fn extract_from_note(note: &Note) -> (r: Vec<Task>)
        ensures
            task_views(r@) == note_tasks(note.path@, note.title@, note.content@),
    {
        let spans = parse_markdown(note.content.as_str());
        let ghost model = span_models(spans@);
        let mut tasks: Vec<Task> = Vec::new();
        let mut inside = false;
        let mut text: Vec<char> = Vec::new();
        let mut i: usize = 0;
        assert(model.take(0) =~= Seq::<SpanModel>::empty());
        while i < spans.len()
            invariant
                i <= spans.len(),
                model == span_models(spans@),
                model == markdown_spans(note.content@),
                item_scan(model.take(i as int)).inside == inside,
                item_scan(model.take(i as int)).text == text@,
                tasks.len() == item_scan(model.take(i as int)).found.len(),
                tasks.len() <= i,
                task_views(tasks@) == note_tasks_of(
                    note.path@,
                    note.title@,
                    item_scan(model.take(i as int)).found,
                ),
            decreases spans.len() - i,
        {
            proof {
                assert(model.take(i + 1).drop_last() =~= model.take(i as int));
                assert(model.take(i + 1).last() == spans@[i as int]@);
            }
            let ghost before = item_scan(model.take(i as int));
            match &spans[i].event {
                MdEvent::ItemStart => {
                    inside = true;
                    text = Vec::new();
                },
                MdEvent::Text(t) => {
                    if inside {
                        let more = chars_of(t.as_str());
                        push_all(&mut text, &more);
                    }
                },
                MdEvent::ItemEnd => {
                    if inside {
                        match parse_item(&text) {
                            Some(p) => {
                                let task = Task {
                                    note_path: note.path.clone(),
                                    note_title: note.title.clone(),
                                    index: tasks.len() + 1,
                                    status: p.status,
                                    text: p.text,
                                    priority: p.priority,
                                    urgency: p.urgency,
                                    tags: p.tags,
                                };
                                proof {
                                    let grown = note_tasks_of(
                                        note.path@,
                                        note.title@,
                                        before.found.push(p@),
                                    );
                                    let old_views = note_tasks_of(
                                        note.path@,
                                        note.title@,
                                        before.found,
                                    );
                                    assert forall|k: int| 0 <= k < tasks.len() implies task_views(
                                        tasks@.push(task),
                                    )[k] == grown[k] by {
                                        assert(task_views(tasks@)[k] == old_views[k]);
                                    }
                                    assert(task_views(tasks@.push(task))[tasks.len() as int]
                                        == grown[tasks.len() as int]);
                                    assert(task_views(tasks@.push(task)) =~= grown);
                                }
                                tasks.push(task);
                            },
                            None => {},
                        }
                        inside = false;
                    }
                },
                _ => {},
            }
            i += 1;
        }
        assert(model.take(spans.len() as int) =~= model);
        tasks
    }
}

/// The tasks that a list of item findings gives for a note.
pub open spec fn note_tasks_of(path: Seq<char>, title: Seq<char>, found: Seq<ItemTask>) -> Seq<
    TaskView,
> {
    Seq::new(
        found.len(),
        |i: int|
            TaskView {
                note_path: path,
                note_title: title,
                index: (i + 1) as nat,
                status: found[i].status,
                text: found[i].text,
                priority: found[i].priority,
                urgency: found[i].urgency,
                tags: found[i].tags,
            },
    )
}

// ---------------------------------------------------------------------------
// Back to markdown
// ---------------------------------------------------------------------------

/// The tags as they trail a task line: each after a space and an `@`.
pub open spec fn tags_suffix(tags: Seq<Seq<char>>) -> Seq<char>
    decreases tags.len(),
{
    if tags.len() == 0 {
        Seq::empty()
    } else {
        tags_suffix(tags.drop_last()) + seq![' ', '@'] + tags.last()
    }
}

/// The annotations and text of a task as they follow the checkbox:
/// `<urgency> (<priority>) <text> @tag @tag`, each part only where present.
pub open spec fn annotated_text(
    urgency: Option<Seq<char>>,
    priority: Option<Seq<char>>,
    text: Seq<char>,
    tags: Seq<Seq<char>>,
) -> Seq<char> {
    (match urgency {
        Some(u) => u + seq![' '],
        None => Seq::empty(),
    }) + (match priority {
        Some(p) => seq!['('] + p + seq![')', ' '],
        None => Seq::empty(),
    }) + text + tags_suffix(tags)
}

/// The markdown line of a task: an open checkbox, then its annotated text.
pub open spec fn markdown_line(t: TaskView) -> Seq<char> {
    seq!['-', ' ', '[', ' ', ']', ' '] + annotated_text(t.urgency, t.priority, t.text, t.tags)
}

/// The identifier of a task: the stem of its note's file name (`unknown`
/// where the path has none), `#`, and its index.
pub open spec fn task_id(t: TaskView) -> Seq<char> {
    (match file_stem(t.note_path) {
        Some(stem) => stem,
        None => seq!['u', 'n', 'k', 'n', 'o', 'w', 'n'],
    }) + seq!['#'] + decimal(t.index)
}

impl Task {
    /// Writes the task as a markdown list item with an open checkbox:
    /// `- [ ] <urgency> (<priority>) <text> @tag @tag`. The status is not
    /// written: the line is for the note that the task moves to.
    pub fn to_markdown_line(&self) -> (r: String)
        ensures
            r@ == markdown_line(self@),
    {
        let mut line: Vec<char> = vec!['-', ' ', '[', ' ', ']', ' '];
        assert(line@ =~= seq!['-', ' ', '[', ' ', ']', ' ']);
        let ghost head = line@;
        match &self.urgency {
            Some(u) => {
                push_str_chars(&mut line, u.as_str());
                line.push(' ');
                assert(line@ =~= head + (u@ + seq![' ']));
            },
            None => {
                assert(line@ =~= head + Seq::<char>::empty());
            },
        }
        let ghost with_urgency = line@;
        match &self.priority {
            Some(p) => {
                line.push('(');
                push_str_chars(&mut line, p.as_str());
                line.push(')');
                line.push(' ');
                assert(line@ =~= with_urgency + (seq!['('] + p@ + seq![')', ' ']));
            },
            None => {
                assert(line@ =~= with_urgency + Seq::<char>::empty());
            },
        }
        push_str_chars(&mut line, self.text.as_str());
        let ghost with_text = line@;
        let mut i: usize = 0;
        assert(strings(self.tags@).take(0) =~= Seq::<Seq<char>>::empty());
        assert(line@ =~= with_text + tags_suffix(strings(self.tags@).take(0)));
        while i < self.tags.len()
            invariant
                i <= self.tags.len(),
                line@ == with_text + tags_suffix(strings(self.tags@).take(i as int)),
            decreases self.tags.len() - i,
        {
            proof {
                let next = strings(self.tags@).take(i + 1);
                assert(next.drop_last() =~= strings(self.tags@).take(i as int));
                assert(next.last() == self.tags@[i as int]@);
            }
            let ghost before = line@;
            line.push(' ');
            line.push('@');
            push_str_chars(&mut line, self.tags[i].as_str());
            assert(line@ =~= before + seq![' ', '@'] + self.tags@[i as int]@);
            assert(line@ =~= with_text + (tags_suffix(strings(self.tags@).take(i as int)) + seq![
                ' ',
                '@',
            ] + self.tags@[i as int]@));
            i += 1;
        }
        assert(strings(self.tags@).take(self.tags.len() as int) =~= strings(self.tags@));
        assert(line@ =~= markdown_line(self@));
        string_of(&line)
    }

    /// The identifier of the task, `<file stem>#<index>`.
    pub fn id(&self) -> (r: String)
        ensures
            r@ == task_id(self@),
    {
        let path = chars_of(self.note_path.as_str());
        let mut out: Vec<char> = match stem_of(&path) {
            Some(stem) => stem,
            None => {
                let unknown: Vec<char> = vec!['u', 'n', 'k', 'n', 'o', 'w', 'n'];
                assert(unknown@ =~= seq!['u', 'n', 'k', 'n', 'o', 'w', 'n']);
                unknown
            },
        };
        out.push('#');
        push_decimal(&mut out, self.index);
        assert(out@ =~= task_id(self@));
        string_of(&out)
    }
}

} // verus!
