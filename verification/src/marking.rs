//! Marking the open tasks of a note as migrated.
//!
//! A task that is carried over to a later note is marked in the note that
//! it comes from: the blank in its checkbox becomes `>`. The checkboxes
//! are found where the list items of the open tasks begin, so that text
//! that merely looks like a checkbox is left alone.

use crate::markdown::{
    markdown_spans, parse_markdown, span_models, EventModel, MdEvent, MdSpan, SpanModel,
};
use crate::note::Note;
use crate::task::{
    item_scan, item_task, note_tasks, note_tasks_of, parse_item, task_views, Task, TaskStatus,
    TaskView,
};
use crate::tasks::{filter_by_status, tasks_with_status};
use crate::text::{
    char_offset, char_offset_of, chars_of, is_space, is_whitespace, leading_spaces,
    lemma_leading_spaces_is, push_all, string_of, trim, trim_start,
};
use vstd::prelude::*;

verus! {

/// The state of the scan for the items of open tasks: whether an item is
/// open, the text gathered for it, the byte offset at which its first
/// run of text starts, and those offsets for the open tasks among the
/// items closed so far.
pub struct BoxScan {
    pub inside: bool,
    pub text: Seq<char>,
    pub first: Option<int>,
    pub starts: Seq<int>,
}

/// Whether the text of a list item denotes an open task.
pub open spec fn is_open_task(item: Seq<char>) -> bool {
    match item_task(item) {
        Some(task) => task.status == TaskStatus::Uncompleted,
        None => false,
    }
}

/// One step of the scan. It follows the scan for tasks: an opening item
/// starts afresh, text is gathered while an item is open, and a closing
/// item counts where its text denotes an open task.
pub open spec fn box_step(state: BoxScan, span: SpanModel) -> BoxScan {
    match span.event {
        EventModel::ItemStart => BoxScan {
            inside: true,
            text: Seq::empty(),
            first: None,
            starts: state.starts,
        },
        EventModel::Text(t) => if state.inside {
            BoxScan {
                inside: true,
                text: state.text + t,
                first: match state.first {
                    Some(at) => Some(at),
                    None => Some(span.start),
                },
                starts: state.starts,
            }
        } else {
            state
        },
        EventModel::ItemEnd => if state.inside {
            BoxScan {
                inside: false,
                text: state.text,
                first: state.first,
                starts: match state.first {
                    Some(at) => if is_open_task(state.text) {
                        state.starts.push(at)
                    } else {
                        state.starts
                    },
                    None => state.starts,
                },
            }
        } else {
            state
        },
        _ => state,
    }
}

/// The scan over a whole event list.
pub open spec fn box_scan(spans: Seq<SpanModel>) -> BoxScan
    decreases spans.len(),
{
    if spans.len() == 0 {
        BoxScan { inside: false, text: Seq::empty(), first: None, starts: Seq::empty() }
    } else {
        box_step(box_scan(spans.drop_last()), spans.last())
    }
}

/// For each open task of a text, in order: the byte offset at which the
/// text of its list item starts.
pub open spec fn open_task_starts(content: Seq<char>) -> Seq<int> {
    box_scan(markdown_spans(content)).starts
}

/// The place of the blank in the checkbox `[ ]` that stands at the byte
/// offset `byte` of a text, after whitespace if there is any; `None`
/// where no such checkbox stands there.
pub open spec fn blank_at(content: Seq<char>, byte: int) -> Option<int> {
    let from = char_offset(content, byte) as int;
    let at = from + leading_spaces(content.skip(from));
    if at + 2 < content.len() && content[at] == '[' && content[at + 1] == ' ' && content[at + 2]
        == ']' {
        Some(at + 1)
    } else {
        None
    }
}

/// A text with the checkboxes at the given byte offsets marked: the blank
/// of each becomes `>`. Nothing else changes.
pub open spec fn marked_at(content: Seq<char>, starts: Seq<int>) -> Seq<char>
    decreases starts.len(),
{
    if starts.len() == 0 {
        content
    } else {
        let before = marked_at(content, starts.drop_last());
        match blank_at(content, starts.last()) {
            Some(at) => before.update(at, '>'),
            None => before,
        }
    }
}

/// A text with the checkbox of every open task marked as migrated: `[ ]`
/// at the start of the task's list item becomes `[>]`. Every other
/// character stays as it is.
pub open spec fn marked_migrated(content: Seq<char>) -> Seq<char> {
    marked_at(content, open_task_starts(content))
}

/// Marking keeps the length of a text, and changes no character but
/// blanks of checkboxes at the given offsets, which become `>`.
pub proof fn lemma_marked_at(content: Seq<char>, starts: Seq<int>)
    ensures
        marked_at(content, starts).len() == content.len(),
        forall|i: int|
            0 <= i < content.len() ==> #[trigger] marked_at(content, starts)[i] == (if is_marked(
                content,
                starts,
                i,
            ) {
                '>'
            } else {
                content[i]
            }),
    decreases starts.len(),
{
    if starts.len() > 0 {
        let head = starts.drop_last();
        lemma_marked_at(content, head);
        assert forall|i: int| 0 <= i < content.len() implies #[trigger] marked_at(
            content,
            starts,
        )[i] == (if is_marked(content, starts, i) {
            '>'
        } else {
            content[i]
        }) by {
            if is_marked(content, head, i) {
                let k = choose|k: int| 0 <= k < head.len() && blank_at(content, head[k]) == Some(i);
                assert(starts[k] == head[k]);
            }
            if is_marked(content, starts, i) && blank_at(content, starts.last()) != Some(i) {
                let k = choose|k: int|
                    0 <= k < starts.len() && blank_at(content, starts[k]) == Some(i);
                assert(head[k] == starts[k]);
            }
            if blank_at(content, starts.last()) == Some(i) {
                assert(blank_at(content, starts[starts.len() - 1]) == Some(i));
            }
        }
    }
}

/// Whether the character at `i` is the blank of a checkbox at one of the
/// given offsets.
pub open spec fn is_marked(content: Seq<char>, starts: Seq<int>, i: int) -> bool {
    exists|k: int| 0 <= k < starts.len() && blank_at(content, #[trigger] starts[k]) == Some(i)
}

/// The two scans go together: they gather the same text, and the scan for
/// checkboxes holds one start for each open task that the scan for tasks
/// has found.
pub proof fn lemma_scans_agree(path: Seq<char>, title: Seq<char>, spans: Seq<SpanModel>)
    ensures
        box_scan(spans).inside == item_scan(spans).inside,
        box_scan(spans).text == item_scan(spans).text,
        box_scan(spans).inside && box_scan(spans).first is None ==> box_scan(spans).text.len() == 0,
        box_scan(spans).starts.len() == tasks_with_status(
            note_tasks_of(path, title, item_scan(spans).found),
            TaskStatus::Uncompleted,
        ).len(),
    decreases spans.len(),
{
    if spans.len() > 0 {
        let head = spans.drop_last();
        lemma_scans_agree(path, title, head);
        let before = item_scan(head);
        let boxes = box_scan(head);
        match spans.last().event {
            EventModel::ItemEnd => {
                if before.inside {
                    if boxes.first is None {
                        assert(trim(before.text) =~= Seq::<char>::empty()) by {
                            assert(before.text =~= Seq::<char>::empty());
                            assert(trim_start(before.text) =~= Seq::<char>::empty());
                        }
                        assert(item_task(before.text) is None);
                    }
                    match item_task(before.text) {
                        Some(task) => {
                            let grown = note_tasks_of(path, title, before.found.push(task));
                            assert(grown.drop_last() =~= note_tasks_of(path, title, before.found));
                            assert(grown.last().status == task.status);
                        },
                        None => {},
                    }
                }
            },
            _ => {},
        }
    }
}

/// A text has as many starts as open tasks: the scan for checkboxes
/// finds the list item of each open task, and of nothing else.
pub proof fn law_one_start_for_each_open_task(
    path: Seq<char>,
    title: Seq<char>,
    content: Seq<char>,
)
    ensures
        open_task_starts(content).len() == tasks_with_status(
            note_tasks(path, title, content),
            TaskStatus::Uncompleted,
        ).len(),
{
    lemma_scans_agree(path, title, markdown_spans(content));
}

/// The place of the blank of the checkbox at a byte offset.
fn find_blank(chars: &Vec<char>, byte: usize) -> (r: Option<usize>)
    ensures
        match r {
            Some(at) => blank_at(chars@, byte as int) == Some(at as int) && at < chars.len(),
            None => blank_at(chars@, byte as int) is None,
        },
{
    let from = char_offset_of(chars, byte);
    let mut at: usize = from;
    while at < chars.len() && is_whitespace(chars[at])
        invariant
            from <= at <= chars.len(),
            forall|i: int| from <= i < at ==> is_space(#[trigger] chars@[i]),
        decreases chars.len() - at,
    {
        at += 1;
    }
    proof {
        let rest = chars@.skip(from as int);
        assert forall|i: int| 0 <= i < at - from implies is_space(#[trigger] rest[i]) by {
            assert(rest[i] == chars@[from + i]);
        }
        if at - from < rest.len() {
            assert(rest[at - from] == chars@[at as int]);
        }
        lemma_leading_spaces_is(rest, at - from);
    }
    if chars.len() >= 3 && at < chars.len() - 2 && chars[at] == '[' && chars[at + 1] == ' '
        && chars[at + 2] == ']' {
        Some(at + 1)
    } else {
        None
    }
}

/// The offsets as integers.
pub open spec fn offsets(starts: Seq<usize>) -> Seq<int> {
    starts.map_values(|at: usize| at as int)
}

/// For each open task among the events, in order: the byte offset at
/// which the text of its list item starts.
fn open_task_starts_in(spans: &Vec<MdSpan>) -> (r: Vec<usize>)
    ensures
        offsets(r@) == box_scan(span_models(spans@)).starts,
{
    let ghost model = span_models(spans@);
    let mut starts: Vec<usize> = Vec::new();
    let mut inside = false;
    let mut text: Vec<char> = Vec::new();
    let mut first: Option<usize> = None;
    let mut i: usize = 0;
    assert(model.take(0) =~= Seq::<SpanModel>::empty());
    assert(offsets(starts@) =~= Seq::<int>::empty());
    while i < spans.len()
        invariant
            i <= spans.len(),
            model == span_models(spans@),
            box_scan(model.take(i as int)) == (BoxScan {
                inside,
                text: text@,
                first: match first {
                    Some(at) => Some(at as int),
                    None => None,
                },
                starts: offsets(starts@),
            }),
        decreases spans.len() - i,
    {
        proof {
            assert(model.take(i + 1).drop_last() =~= model.take(i as int));
            assert(model.take(i + 1).last() == spans@[i as int]@);
        }
        match &spans[i].event {
            MdEvent::ItemStart => {
                inside = true;
                text = Vec::new();
                first = None;
            },
            MdEvent::Text(t) => {
                if inside {
                    let more = chars_of(t.as_str());
                    push_all(&mut text, &more);
                    if first.is_none() {
                        first = Some(spans[i].start);
                    }
                }
            },
            MdEvent::ItemEnd => {
                if inside {
                    match first {
                        Some(start) => {
                            let open = match parse_item(&text) {
                                Some(p) => p.status.is_incomplete(),
                                None => false,
                            };
                            if open {
                                let ghost before = offsets(starts@);
                                starts.push(start);
                                assert(offsets(starts@) =~= before.push(start as int));
                            }
                        },
                        None => {},
                    }
                    inside = false;
                }
            },
            _ => {},
        }
        i += 1;
    }
    assert(model.take(spans.len() as int) =~= model);
    starts
}

/// Marks the open tasks of a text as migrated: in the list item of each
/// open task, the checkbox `[ ]` becomes `[>]`.
pub fn mark_open_tasks(content: &str) -> (r: String)
    ensures
        r@ == marked_migrated(content@),
{
    let spans = parse_markdown(content);
    let starts = open_task_starts_in(&spans);
    let chars = chars_of(content);
    let ghost all = offsets(starts@);
    let mut out: Vec<char> = Vec::new();
    push_all(&mut out, &chars);
    let mut i: usize = 0;
    assert(all.take(0) =~= Seq::<int>::empty());
    assert(out@ =~= chars@);
    while i < starts.len()
        invariant
            i <= starts.len(),
            chars@ == content@,
            all == offsets(starts@),
            out@ == marked_at(content@, all.take(i as int)),
        decreases starts.len() - i,
    {
        proof {
            assert(all.take(i + 1).drop_last() =~= all.take(i as int));
            assert(all.take(i + 1).last() == starts@[i as int] as int);
            lemma_marked_at(content@, all.take(i as int));
        }
        match find_blank(&chars, starts[i]) {
            Some(at) => {
                out.set(at, '>');
            },
            None => {},
        }
        assert(out@ =~= marked_at(content@, all.take(i + 1)));
        i += 1;
    }
    assert(all.take(starts.len() as int) =~= all);
    string_of(&out)
}

// ---------------------------------------------------------------------------
// The tasks that are carried over
// ---------------------------------------------------------------------------

/// The tasks among `open`, the open tasks of a text in order, whose
/// checkbox stands at the start of their list item, given those starts:
/// the tasks that marking the text marks.
pub open spec fn with_blank(content: Seq<char>, starts: Seq<int>, open: Seq<TaskView>) -> Seq<
    TaskView,
>
    decreases starts.len(),
{
    if starts.len() == 0 || open.len() == 0 {
        Seq::empty()
    } else {
        let before = with_blank(content, starts.drop_last(), open.drop_last());
        if blank_at(content, starts.last()) is Some {
            before.push(open.last())
        } else {
            before
        }
    }
}

/// The open tasks of a note that can be carried over to another note:
/// those whose checkbox is marked when the note is marked. An open task
/// whose checkbox is not written as `[ ]` at the start of its list item
/// stays where it is.
pub open spec fn carried_tasks(path: Seq<char>, title: Seq<char>, content: Seq<char>) -> Seq<
    TaskView,
> {
    with_blank(
        content,
        open_task_starts(content),
        tasks_with_status(note_tasks(path, title, content), TaskStatus::Uncompleted),
    )
}

/// The number of starts at which a checkbox stands.
pub open spec fn blanks(content: Seq<char>, starts: Seq<int>) -> nat
    decreases starts.len(),
{
    if starts.len() == 0 {
        0
    } else {
        blanks(content, starts.drop_last()) + if blank_at(content, starts.last()) is Some {
            1nat
        } else {
            0nat
        }
    }
}

/// As many tasks are carried over as checkboxes are marked, and each of
/// them is an open task of the note.
pub proof fn law_carried_tasks_are_marked(path: Seq<char>, title: Seq<char>, content: Seq<char>)
    ensures
        carried_tasks(path, title, content).len() == blanks(content, open_task_starts(content)),
        forall|k: int|
            0 <= k < carried_tasks(path, title, content).len() ==> tasks_with_status(
                note_tasks(path, title, content),
                TaskStatus::Uncompleted,
            ).contains(#[trigger] carried_tasks(path, title, content)[k]),
{
    law_one_start_for_each_open_task(path, title, content);
    lemma_with_blank(
        content,
        open_task_starts(content),
        tasks_with_status(note_tasks(path, title, content), TaskStatus::Uncompleted),
    );
}

/// The tasks with a checkbox are as many as the checkboxes, and are
/// among the tasks given.
pub proof fn lemma_with_blank(content: Seq<char>, starts: Seq<int>, open: Seq<TaskView>)
    requires
        starts.len() == open.len(),
    ensures
        with_blank(content, starts, open).len() == blanks(content, starts),
        forall|k: int|
            0 <= k < with_blank(content, starts, open).len() ==> open.contains(
                #[trigger] with_blank(content, starts, open)[k],
            ),
    decreases starts.len(),
{
    if starts.len() > 0 {
        let head = open.drop_last();
        lemma_with_blank(content, starts.drop_last(), head);
        let before = with_blank(content, starts.drop_last(), head);
        assert forall|k: int| 0 <= k < with_blank(content, starts, open).len() implies open.contains(
            #[trigger] with_blank(content, starts, open)[k],
        ) by {
            if k < before.len() {
                let found = before[k];
                assert(head.contains(found));
                let at = choose|at: int| 0 <= at < head.len() && head[at] == found;
                assert(open[at] == found);
            } else {
                assert(open[open.len() - 1] == open.last());
            }
        }
    }
}

/// The open tasks of a note that can be carried over to another note:
/// those whose checkbox stands as `[ ]` at the start of their list item.
pub fn carried_from_note(note: &Note) -> (r: Vec<Task>)
    ensures
        task_views(r@) == carried_tasks(note.path@, note.title@, note.content@),
{
    let all = Task::extract_from_note(note);
    let open = filter_by_status(all, Some(TaskStatus::Uncompleted));
    let spans = parse_markdown(note.content.as_str());
    let starts = open_task_starts_in(&spans);
    let chars = chars_of(note.content.as_str());
    let ghost content = note.content@;
    let ghost all_starts = offsets(starts@);
    let ghost all_open = task_views(open@);
    proof {
        law_one_start_for_each_open_task(note.path@, note.title@, content);
        assert(all_starts == open_task_starts(content));
        assert(all_open == tasks_with_status(
            note_tasks(note.path@, note.title@, content),
            TaskStatus::Uncompleted,
        ));
    }
    let mut out: Vec<Task> = Vec::new();
    let mut i: usize = 0;
    assert(all_starts.take(0) =~= Seq::<int>::empty());
    assert(task_views(out@) =~= Seq::<TaskView>::empty());
    while i < starts.len()
        invariant
            i <= starts.len(),
            starts.len() == open.len(),
            chars@ == content,
            all_starts == offsets(starts@),
            all_open == task_views(open@),
            task_views(out@) == with_blank(
                content,
                all_starts.take(i as int),
                all_open.take(i as int),
            ),
        decreases starts.len() - i,
    {
        proof {
            assert(all_starts.take(i + 1).drop_last() =~= all_starts.take(i as int));
            assert(all_open.take(i + 1).drop_last() =~= all_open.take(i as int));
            assert(all_starts.take(i + 1).last() == starts@[i as int] as int);
            assert(all_open.take(i + 1).last() == open@[i as int]@);
        }
        if find_blank(&chars, starts[i]).is_some() {
            let task = open[i].clone();
            let ghost before = task_views(out@);
            out.push(task);
            assert(task_views(out@) =~= before.push(open@[i as int]@));
        }
        i += 1;
    }
    assert(all_starts.take(starts.len() as int) =~= all_starts);
    assert(all_open.take(open.len() as int) =~= all_open);
    out
}

} // verus!
