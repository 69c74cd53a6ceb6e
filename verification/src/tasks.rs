//! Lists of tasks: gathering them from notes, choosing by status, and
//! putting them in order.

use crate::error::Error;
use crate::note::{note_views, Note, NoteView};
use crate::sorting::{
    lemma_text_le_antisym, lemma_text_le_total, lemma_text_le_trans, text_before_or_equal, text_le,
};
use crate::task::{note_tasks, opt_text, task_views, Task, TaskStatus, TaskView};
use crate::text::{
    ascii_lower, chars_of, eq_ignore_ascii_case, pieces, same_text, split_on, string_of, trim,
    trimmed,
};
use vstd::prelude::*;

verus! {

// ---------------------------------------------------------------------------
// The sort order
// ---------------------------------------------------------------------------

/// A field by which tasks are sorted.
#[derive(Debug, Clone, Copy, PartialEq, Eq, Structural)]
pub enum SortField {
    /// `!!!` first, then `!!`, `!`, any other urgency, none.
    Urgency,
    /// In the order of the priority texts; no priority last.
    Priority,
    /// By the title of the note, then by the index in it.
    Id,
}

/// The order of a task list: the fields to compare by, the first one first.
#[derive(Debug, Clone, PartialEq, Eq)]
pub struct TaskSortOrder {
    pub fields: Vec<SortField>,
}

/// The field that a name stands for.
pub open spec fn field_named(name: Seq<char>) -> Option<SortField> {
    if name == "urgency"@ {
        Some(SortField::Urgency)
    } else if name == "priority"@ {
        Some(SortField::Priority)
    } else if name == "id"@ {
        Some(SortField::Id)
    } else {
        None
    }
}

/// The fields that a list of names stands for, each name trimmed; the
/// first name that stands for none is the error.
pub open spec fn fields_named(names: Seq<Seq<char>>) -> Result<Seq<SortField>, Seq<char>>
    decreases names.len(),
{
    if names.len() == 0 {
        Ok(Seq::empty())
    } else {
        match fields_named(names.drop_last()) {
            Ok(fields) => match field_named(trim(names.last())) {
                Some(field) => Ok(fields.push(field)),
                None => Err(trim(names.last())),
            },
            Err(name) => Err(name),
        }
    }
}

impl TaskSortOrder {
    /// Reads a sort order: field names separated by commas, each one of
    /// `urgency`, `priority`, `id`, with whitespace around it allowed. The
    /// first name that is none of these is reported as
    /// `UnknownSortField`.
    pub fn parse(s: &str) -> (r: Result<TaskSortOrder, Error>)
        ensures
            match r {
                Ok(order) => fields_named(pieces(s@, ',')) == Ok::<Seq<SortField>, Seq<char>>(
                    order.fields@,
                ),
                Err(Error::UnknownSortField(name)) => fields_named(pieces(s@, ',')) == Err::<
                    Seq<SortField>,
                    Seq<char>,
                >(name@),
                Err(_) => false,
            },
    {
        let names = split_on(&chars_of(s), ',');
        let ghost all = pieces(s@, ',');
        let mut fields: Vec<SortField> = Vec::new();
        let mut i: usize = 0;
        assert(all.take(0) =~= Seq::<Seq<char>>::empty());
        while i < names.len()
            invariant
                i <= names.len(),
                crate::text::texts(names@) == all,
                all == pieces(s@, ','),
                fields_named(all.take(i as int)) == Ok::<Seq<SortField>, Seq<char>>(fields@),
            decreases names.len() - i,
        {
            proof {
                assert(all.take(i + 1).drop_last() =~= all.take(i as int));
                assert(all.take(i + 1).last() == names@[i as int]@);
            }
            let name = string_of(&trimmed(&names[i]));
            let field = if same_text(name.as_str(), "urgency") {
                SortField::Urgency
            } else if same_text(name.as_str(), "priority") {
                SortField::Priority
            } else if same_text(name.as_str(), "id") {
                SortField::Id
            } else {
                proof {
                    assert(field_named(trim(all.take(i + 1).last())) is None);
                    assert(fields_named(all.take(i + 1)) == Err::<Seq<SortField>, Seq<char>>(
                        name@,
                    ));
                    lemma_fields_named_error(all, i + 1);
                }
                return Err(Error::UnknownSortField(name));
            };
            fields.push(field);
            i += 1;
        }
        assert(all.take(names.len() as int) =~= all);
        Ok(TaskSortOrder { fields })
    }
}

/// An error among the first names is the error of the whole list.
proof fn lemma_fields_named_error(names: Seq<Seq<char>>, n: int)
    requires
        0 <= n <= names.len(),
        fields_named(names.take(n)) is Err,
    ensures
        fields_named(names) == fields_named(names.take(n)),
    decreases names.len() - n,
{
    if n < names.len() {
        assert(names.take(n + 1).drop_last() =~= names.take(n));
        lemma_fields_named_error(names, n + 1);
    } else {
        assert(names.take(n) =~= names);
    }
}

impl Default for TaskSortOrder {
    /// By urgency, then priority, then id.
    fn default() -> (r: TaskSortOrder)
        ensures
            r.fields@ == seq![SortField::Urgency, SortField::Priority, SortField::Id],
    {
        let mut fields: Vec<SortField> = Vec::new();
        fields.push(SortField::Urgency);
        fields.push(SortField::Priority);
        fields.push(SortField::Id);
        assert(fields@ =~= seq![SortField::Urgency, SortField::Priority, SortField::Id]);
        TaskSortOrder { fields }
    }
}

// ---------------------------------------------------------------------------
// Comparing tasks
// ---------------------------------------------------------------------------

/// How one thing stands to another in an order.
#[derive(Debug, Clone, Copy, PartialEq, Eq, Structural)]
pub enum Sign {
    Before,
    Same,
    After,
}

/// How two numbers stand to each other.
pub open spec fn int_sign(a: int, b: int) -> Sign {
    if a < b {
        Sign::Before
    } else if a == b {
        Sign::Same
    } else {
        Sign::After
    }
}

/// How two texts stand to each other, character by character.
pub open spec fn text_sign(a: Seq<char>, b: Seq<char>) -> Sign {
    if a == b {
        Sign::Same
    } else if text_le(a, b) {
        Sign::Before
    } else {
        Sign::After
    }
}

/// The rank of an urgency: `!!!` is 1, `!!` is 2, `!` is 3, any other
/// urgency is 4, none is 5.
pub open spec fn urgency_rank(u: Option<Seq<char>>) -> int {
    match u {
        Some(t) => if t == "!!!"@ {
            1
        } else if t == "!!"@ {
            2
        } else if t == "!"@ {
            3
        } else {
            4
        },
        None => 5,
    }
}

/// How two urgencies stand to each other: the more urgent comes first,
/// none comes last.
pub open spec fn urgency_sign(a: Option<Seq<char>>, b: Option<Seq<char>>) -> Sign {
    int_sign(urgency_rank(a), urgency_rank(b))
}

/// How two priorities stand to each other: in the order of their texts,
/// none last.
pub open spec fn priority_sign(a: Option<Seq<char>>, b: Option<Seq<char>>) -> Sign {
    match (a, b) {
        (Some(x), Some(y)) => text_sign(x, y),
        (Some(_), None) => Sign::Before,
        (None, Some(_)) => Sign::After,
        (None, None) => Sign::Same,
    }
}

/// How two tasks stand to each other by id: by the title of the note,
/// then by the index.
pub open spec fn id_sign(a: TaskView, b: TaskView) -> Sign {
    match text_sign(a.note_title, b.note_title) {
        Sign::Same => int_sign(a.index as int, b.index as int),
        other => other,
    }
}

/// How two tasks stand to each other by one field.
pub open spec fn field_sign(field: SortField, a: TaskView, b: TaskView) -> Sign {
    match field {
        SortField::Urgency => urgency_sign(a.urgency, b.urgency),
        SortField::Priority => priority_sign(a.priority, b.priority),
        SortField::Id => id_sign(a, b),
    }
}

/// How two tasks stand to each other by a list of fields: the first field
/// by which they differ decides.
pub open spec fn task_sign(fields: Seq<SortField>, a: TaskView, b: TaskView) -> Sign
    decreases fields.len(),
{
    if fields.len() == 0 {
        Sign::Same
    } else {
        match field_sign(fields[0], a, b) {
            Sign::Same => task_sign(fields.drop_first(), a, b),
            other => other,
        }
    }
}

/// How two texts stand to each other.
pub fn compare_texts(a: &str, b: &str) -> (r: Sign)
    ensures
        r == text_sign(a@, b@),
{
    let x = chars_of(a);
    let y = chars_of(b);
    let forth = text_before_or_equal(&x, &y);
    let back = text_before_or_equal(&y, &x);
    proof {
        if forth && back {
            lemma_text_le_antisym(a@, b@);
        }
        if a@ == b@ {
            crate::sorting::lemma_text_le_total(a@, b@);
        }
    }
    if forth && back {
        Sign::Same
    } else if forth {
        Sign::Before
    } else {
        Sign::After
    }
}

fn rank_of(u: &Option<String>) -> (r: u8)
    ensures
        r == urgency_rank(opt_text(*u)),
{
    match u {
        Some(t) => {
            if same_text(t.as_str(), "!!!") {
                1
            } else if same_text(t.as_str(), "!!") {
                2
            } else if same_text(t.as_str(), "!") {
                3
            } else {
                4
            }
        },
        None => 5,
    }
}

/// How two urgencies stand to each other.
pub fn urgency_order(a: &Option<String>, b: &Option<String>) -> (r: Sign)
    ensures
        r == urgency_sign(opt_text(*a), opt_text(*b)),
{
    let x = rank_of(a);
    let y = rank_of(b);
    if x < y {
        Sign::Before
    } else if x == y {
        Sign::Same
    } else {
        Sign::After
    }
}

/// How two priorities stand to each other.
pub fn priority_order(a: &Option<String>, b: &Option<String>) -> (r: Sign)
    ensures
        r == priority_sign(opt_text(*a), opt_text(*b)),
{
    match (a, b) {
        (Some(x), Some(y)) => compare_texts(x.as_str(), y.as_str()),
        (Some(_), None) => Sign::Before,
        (None, Some(_)) => Sign::After,
        (None, None) => Sign::Same,
    }
}

/// How two tasks stand to each other by the given fields.
pub fn task_order(fields: &Vec<SortField>, a: &Task, b: &Task) -> (r: Sign)
    ensures
        r == task_sign(fields@, a@, b@),
{
    let mut i: usize = 0;
    assert(fields@.skip(0) =~= fields@);
    while i < fields.len()
        invariant
            i <= fields.len(),
            task_sign(fields@, a@, b@) == task_sign(fields@.skip(i as int), a@, b@),
        decreases fields.len() - i,
    {
        proof {
            assert(fields@.skip(i as int)[0] == fields@[i as int]);
            assert(fields@.skip(i as int).drop_first() =~= fields@.skip(i + 1));
        }
        let sign = match fields[i] {
            SortField::Urgency => urgency_order(&a.urgency, &b.urgency),
            SortField::Priority => priority_order(&a.priority, &b.priority),
            SortField::Id => {
                match compare_texts(a.note_title.as_str(), b.note_title.as_str()) {
                    Sign::Same => {
                        if a.index < b.index {
                            Sign::Before
                        } else if a.index == b.index {
                            Sign::Same
                        } else {
                            Sign::After
                        }
                    },
                    other => other,
                }
            },
        };
        match sign {
            Sign::Same => {},
            other => {
                return other;
            },
        }
        i += 1;
    }
    Sign::Same
}

// ---------------------------------------------------------------------------
// Sorting
// ---------------------------------------------------------------------------

/// A sorted list with one task more: the task goes behind every task that
/// does not come after it.
pub open spec fn with_task(sorted: Seq<TaskView>, task: TaskView, fields: Seq<SortField>) -> Seq<
    TaskView,
>
    decreases sorted.len(),
{
    if sorted.len() > 0 && task_sign(fields, sorted.last(), task) == Sign::After {
        with_task(sorted.drop_last(), task, fields).push(sorted.last())
    } else {
        sorted.push(task)
    }
}

/// The tasks in the order of the fields; tasks that the fields do not tell
/// apart stay in the order in which they came.
pub open spec fn sorted_tasks(tasks: Seq<TaskView>, fields: Seq<SortField>) -> Seq<TaskView>
    decreases tasks.len(),
{
    if tasks.len() == 0 {
        Seq::empty()
    } else {
        with_task(sorted_tasks(tasks.drop_last(), fields), tasks.last(), fields)
    }
}

/// The place of a task in a sorted list is where the tasks that come after
/// it begin.
proof fn lemma_with_task_at(sorted: Seq<TaskView>, task: TaskView, fields: Seq<SortField>, at: int)
    requires
        0 <= at <= sorted.len(),
        forall|k: int| at <= k < sorted.len() ==> task_sign(fields, #[trigger] sorted[k], task)
            == Sign::After,
        at > 0 ==> task_sign(fields, sorted[at - 1], task) != Sign::After,
    ensures
        with_task(sorted, task, fields) == sorted.insert(at, task),
    decreases sorted.len(),
{
    if at < sorted.len() {
        let head = sorted.drop_last();
        assert(task_sign(fields, sorted[sorted.len() - 1], task) == Sign::After);
        assert forall|k: int| at <= k < head.len() implies task_sign(
            fields,
            #[trigger] head[k],
            task,
        ) == Sign::After by {
            assert(head[k] == sorted[k]);
        }
        lemma_with_task_at(head, task, fields, at);
        assert(head.insert(at, task).push(sorted.last()) =~= sorted.insert(at, task));
    } else {
        assert(sorted.push(task) =~= sorted.insert(at, task));
    }
}

/// Sorting keeps every task, each as often as it was there.
pub proof fn lemma_sorted_tasks_permutes(tasks: Seq<TaskView>, fields: Seq<SortField>)
    ensures
        sorted_tasks(tasks, fields).to_multiset() == tasks.to_multiset(),
        sorted_tasks(tasks, fields).len() == tasks.len(),
    decreases tasks.len(),
{
    if tasks.len() > 0 {
        let head = tasks.drop_last();
        lemma_sorted_tasks_permutes(head, fields);
        lemma_with_task_permutes(sorted_tasks(head, fields), tasks.last(), fields);
        assert(tasks =~= head.push(tasks.last()));
        vstd::seq_lib::to_multiset_build(head, tasks.last());
    } else {
        assert(tasks =~= Seq::<TaskView>::empty());
    }
}

proof fn lemma_with_task_permutes(sorted: Seq<TaskView>, task: TaskView, fields: Seq<SortField>)
    ensures
        with_task(sorted, task, fields).to_multiset() == sorted.to_multiset().insert(task),
        with_task(sorted, task, fields).len() == sorted.len() + 1,
    decreases sorted.len(),
{
    if sorted.len() > 0 && task_sign(fields, sorted.last(), task) == Sign::After {
        let head = sorted.drop_last();
        lemma_with_task_permutes(head, task, fields);
        vstd::seq_lib::to_multiset_build(with_task(head, task, fields), sorted.last());
        vstd::seq_lib::to_multiset_build(head, sorted.last());
        assert(sorted =~= head.push(sorted.last()));
        assert(head.to_multiset().insert(task).insert(sorted.last()) =~= head.to_multiset().insert(
            sorted.last(),
        ).insert(task));
    } else {
        vstd::seq_lib::to_multiset_build(sorted, task);
    }
}

/// Sorts tasks by the given fields. The sort is stable.
pub fn sort_tasks(tasks: &Vec<Task>, order: &TaskSortOrder) -> (r: Vec<Task>)
    ensures
        task_views(r@) == sorted_tasks(task_views(tasks@), order.fields@),
        r@.len() == tasks@.len(),
        task_views(r@).to_multiset() == task_views(tasks@).to_multiset(),
        in_order(task_views(r@), order.fields@),
{
    let ghost views = task_views(tasks@);
    let ghost fields = order.fields@;
    let mut out: Vec<Task> = Vec::new();
    let mut i: usize = 0;
    assert(views.take(0) =~= Seq::<TaskView>::empty());
    assert(task_views(out@) =~= Seq::<TaskView>::empty());
    while i < tasks.len()
        invariant
            i <= tasks.len(),
            views == task_views(tasks@),
            fields == order.fields@,
            task_views(out@) == sorted_tasks(views.take(i as int), fields),
        decreases tasks.len() - i,
    {
        proof {
            assert(views.take(i + 1).drop_last() =~= views.take(i as int));
            assert(views.take(i + 1).last() == tasks@[i as int]@);
        }
        let task = tasks[i].clone();
        let ghost before = task_views(out@);
        let mut at: usize = out.len();
        loop
            invariant_except_break
                at <= out.len(),
                before == task_views(out@),
                fields == order.fields@,
                task@ == tasks@[i as int]@,
                forall|k: int|
                    at <= k < out.len() ==> task_sign(fields, #[trigger] before[k], task@)
                        == Sign::After,
            ensures
                at <= out.len(),
                before == task_views(out@),
                forall|k: int|
                    at <= k < out.len() ==> task_sign(fields, #[trigger] before[k], task@)
                        == Sign::After,
                at > 0 ==> task_sign(fields, before[at - 1], task@) != Sign::After,
            decreases at,
        {
            if at == 0 {
                break;
            }
            assert(before[at - 1] == out@[at - 1]@);
            match task_order(&order.fields, &out[at - 1], &task) {
                Sign::After => {},
                _ => {
                    break;
                },
            }
            at -= 1;
        }
        proof {
            lemma_with_task_at(before, task@, fields, at as int);
        }
        out.insert(at, task);
        assert(task_views(out@) =~= before.insert(at as int, task@));
        i += 1;
    }
    proof {
        assert(views.take(tasks.len() as int) =~= views);
        lemma_sorted_tasks_permutes(views, fields);
        lemma_sorted_tasks_in_order(views, fields);
    }
    out
}

// ---------------------------------------------------------------------------
// Gathering and choosing
// ---------------------------------------------------------------------------

/// The tasks of all notes, note by note.
pub open spec fn all_tasks(notes: Seq<NoteView>) -> Seq<TaskView>
    decreases notes.len(),
{
    if notes.len() == 0 {
        Seq::empty()
    } else {
        all_tasks(notes.drop_last()) + note_tasks(
            notes.last().path,
            notes.last().title,
            notes.last().content,
        )
    }
}

/// The tasks of all notes, note by note, each note's tasks in document
/// order.
pub fn extract_tasks_from_notes(notes: &[Note]) -> (r: Vec<Task>)
    ensures
        task_views(r@) == all_tasks(note_views(notes@)),
{
    let ghost views = note_views(notes@);
    let mut all: Vec<Task> = Vec::new();
    let mut i: usize = 0;
    assert(views.take(0) =~= Seq::<NoteView>::empty());
    assert(task_views(all@) =~= Seq::<TaskView>::empty());
    while i < notes.len()
        invariant
            i <= notes.len(),
            views == note_views(notes@),
            task_views(all@) == all_tasks(views.take(i as int)),
        decreases notes.len() - i,
    {
        proof {
            assert(views.take(i + 1).drop_last() =~= views.take(i as int));
            assert(views.take(i + 1).last() == notes@[i as int]@);
        }
        let tasks = Task::extract_from_note(&notes[i]);
        let ghost before = task_views(all@);
        let mut j: usize = 0;
        while j < tasks.len()
            invariant
                j <= tasks.len(),
                task_views(all@) =~= before + task_views(tasks@).take(j as int),
            decreases tasks.len() - j,
        {
            let ghost so_far = task_views(all@);
            all.push(tasks[j].clone());
            assert(task_views(all@) =~= so_far.push(tasks@[j as int]@));
            j += 1;
        }
        assert(task_views(tasks@).take(tasks.len() as int) =~= task_views(tasks@));
        i += 1;
    }
    assert(views.take(notes.len() as int) =~= views);
    all
}

/// What a status filter asks for: `all` asks for every task (`Some(None)`),
/// `open`, `completed` or `done`, and `migrated` for the tasks of one
/// status; the case of the letters does not count. Any other text asks for
/// nothing that exists (`None`).
pub open spec fn status_named(filter: Seq<char>) -> Option<Option<TaskStatus>> {
    let f = ascii_lower(filter);
    if f == ascii_lower("all"@) {
        Some(None)
    } else if f == ascii_lower("open"@) {
        Some(Some(TaskStatus::Uncompleted))
    } else if f == ascii_lower("completed"@) || f == ascii_lower("done"@) {
        Some(Some(TaskStatus::Completed))
    } else if f == ascii_lower("migrated"@) {
        Some(Some(TaskStatus::Migrated))
    } else {
        None
    }
}

/// Reads a status filter. A text that is none of `all`, `open`,
/// `completed`, `done`, `migrated` is reported as `InvalidStatusFilter`.
pub fn parse_status_filter(filter: &str) -> (r: Result<Option<TaskStatus>, Error>)
    ensures
        match r {
            Ok(wanted) => status_named(filter@) == Some(wanted),
            Err(Error::InvalidStatusFilter(text)) => status_named(filter@) is None && text@
                == filter@,
            Err(_) => false,
        },
{
    if eq_ignore_ascii_case(filter, "all") {
        Ok(None)
    } else if eq_ignore_ascii_case(filter, "open") {
        Ok(Some(TaskStatus::Uncompleted))
    } else if eq_ignore_ascii_case(filter, "completed") || eq_ignore_ascii_case(filter, "done") {
        Ok(Some(TaskStatus::Completed))
    } else if eq_ignore_ascii_case(filter, "migrated") {
        Ok(Some(TaskStatus::Migrated))
    } else {
        Err(Error::InvalidStatusFilter(filter.to_owned()))
    }
}

/// The tasks of the given status, in order.
pub open spec fn tasks_with_status(tasks: Seq<TaskView>, status: TaskStatus) -> Seq<TaskView>
    decreases tasks.len(),
{
    if tasks.len() == 0 {
        Seq::empty()
    } else {
        let prev = tasks_with_status(tasks.drop_last(), status);
        if tasks.last().status == status {
            prev.push(tasks.last())
        } else {
            prev
        }
    }
}

/// The tasks that a filter asks for.
pub open spec fn chosen_tasks(tasks: Seq<TaskView>, wanted: Option<TaskStatus>) -> Seq<TaskView> {
    match wanted {
        Some(status) => tasks_with_status(tasks, status),
        None => tasks,
    }
}

/// Keeps the tasks of the given status; all tasks where none is given.
pub fn filter_by_status(tasks: Vec<Task>, wanted: Option<TaskStatus>) -> (r: Vec<Task>)
    ensures
        task_views(r@) == chosen_tasks(task_views(tasks@), wanted),
{
    match wanted {
        None => tasks,
        Some(status) => {
            let ghost views = task_views(tasks@);
            let mut out: Vec<Task> = Vec::new();
            let mut i: usize = 0;
            assert(views.take(0) =~= Seq::<TaskView>::empty());
            assert(task_views(out@) =~= Seq::<TaskView>::empty());
            while i < tasks.len()
                invariant
                    i <= tasks.len(),
                    views == task_views(tasks@),
                    task_views(out@) == tasks_with_status(views.take(i as int), status),
                decreases tasks.len() - i,
            {
                proof {
                    assert(views.take(i + 1).drop_last() =~= views.take(i as int));
                    assert(views.take(i + 1).last() == tasks@[i as int]@);
                }
                if tasks[i].status == status {
                    let ghost before = task_views(out@);
                    out.push(tasks[i].clone());
                    assert(task_views(out@) =~= before.push(tasks@[i as int]@));
                }
                i += 1;
            }
            assert(views.take(tasks.len() as int) =~= views);
            out
        },
    }
}

/// The task list of `notes`: the tasks that the status filter asks for
/// (all where none is given), in the given order.
pub open spec fn task_list(
    notes: Seq<NoteView>,
    wanted: Option<TaskStatus>,
    fields: Seq<SortField>,
) -> Seq<TaskView> {
    sorted_tasks(chosen_tasks(all_tasks(notes), wanted), fields)
}

/// Lists the tasks of `notes`: those that the status filter asks for, in
/// the given order. The filter is checked before any note is looked at.
pub fn select_tasks(notes: &[Note], status: Option<&str>, order: &TaskSortOrder) -> (r: Result<
    Vec<Task>,
    Error,
>)
    ensures
        match (status, r) {
            (None, Ok(tasks)) => task_views(tasks@) == task_list(
                note_views(notes@),
                None,
                order.fields@,
            ),
            (Some(filter), Ok(tasks)) => status_named(filter@) is Some && task_views(tasks@)
                == task_list(note_views(notes@), status_named(filter@)->0, order.fields@),
            (Some(filter), Err(Error::InvalidStatusFilter(text))) => status_named(filter@) is None
                && text@ == filter@,
            _ => false,
        },
{
    let wanted = match status {
        Some(filter) => match parse_status_filter(filter) {
            Ok(wanted) => wanted,
            Err(e) => {
                return Err(e);
            },
        },
        None => None,
    };
    let tasks = extract_tasks_from_notes(notes);
    let chosen = filter_by_status(tasks, wanted);
    Ok(sort_tasks(&chosen, order))
}

/// The markdown lines of the tasks, one below the other.
pub open spec fn migrated_section(tasks: Seq<TaskView>) -> Seq<char>
    decreases tasks.len(),
{
    if tasks.len() == 0 {
        Seq::empty()
    } else if tasks.len() == 1 {
        crate::task::markdown_line(tasks[0])
    } else {
        migrated_section(tasks.drop_last()) + seq!['\n'] + crate::task::markdown_line(tasks.last())
    }
}

/// The list of tasks as it is written into the note that they move to:
/// the markdown line of each, separated by line breaks, without a heading.
pub fn build_migrated_section(tasks: &[Task]) -> (r: String)
    ensures
        r@ == migrated_section(task_views(tasks@)),
{
    let ghost views = task_views(tasks@);
    let mut out = String::new();
    let mut i: usize = 0;
    assert(views.take(0) =~= Seq::<TaskView>::empty());
    while i < tasks.len()
        invariant
            i <= tasks.len(),
            views == task_views(tasks@),
            out@ == migrated_section(views.take(i as int)),
        decreases tasks.len() - i,
    {
        proof {
            assert(views.take(i + 1).drop_last() =~= views.take(i as int));
            assert(views.take(i + 1).last() == tasks@[i as int]@);
            if i == 1 {
                assert(views.take(1)[0] == views.take(2).drop_last()[0]);
            }
        }
        if i > 0 {
            out.push('\n');
        }
        let line = tasks[i].to_markdown_line();
        out.push_str(line.as_str());
        proof {
            if i == 0 {
                assert(out@ =~= crate::task::markdown_line(tasks@[0]@));
                assert(views.take(1)[0] == tasks@[0]@);
            }
        }
        i += 1;
    }
    assert(views.take(tasks.len() as int) =~= views);
    out
}

// ---------------------------------------------------------------------------
// The order of tasks is an order
// ---------------------------------------------------------------------------

/// A sign turned round.
pub open spec fn flipped(sign: Sign) -> Sign {
    match sign {
        Sign::Before => Sign::After,
        Sign::Same => Sign::Same,
        Sign::After => Sign::Before,
    }
}

/// How the first stands to the third of three things, given how the first
/// stands to the second and the second to the third, where neither comes
/// after the other.
pub open spec fn chained(first: Sign, second: Sign) -> Sign {
    if first == Sign::Same {
        second
    } else {
        first
    }
}

/// Whether a way of comparing is an order: what it says of two things turns
/// round with them, and it carries over from one pair to the next.
pub open spec fn is_order<T>(sign: spec_fn(T, T) -> Sign) -> bool {
    &&& forall|a: T, b: T| #[trigger] sign(b, a) == flipped(sign(a, b))
    &&& forall|a: T, b: T, c: T|
        #![trigger sign(a, b), sign(b, c)]
        sign(a, b) != Sign::After && sign(b, c) != Sign::After ==> sign(a, c) == chained(
            sign(a, b),
            sign(b, c),
        )
}

/// The order of texts is an order.
pub proof fn lemma_text_sign_is_order()
    ensures
        is_order(|a: Seq<char>, b: Seq<char>| text_sign(a, b)),
{
    assert forall|a: Seq<char>, b: Seq<char>| text_sign(b, a) == flipped(text_sign(a, b)) by {
        lemma_text_le_total(a, b);
        if text_le(a, b) && text_le(b, a) {
            lemma_text_le_antisym(a, b);
        }
    }
    assert forall|a: Seq<char>, b: Seq<char>, c: Seq<char>|
        text_sign(a, b) != Sign::After && text_sign(b, c) != Sign::After implies text_sign(a, c)
        == chained(text_sign(a, b), text_sign(b, c)) by {
        lemma_text_le_total(a, b);
        lemma_text_le_total(b, c);
        lemma_text_le_total(a, a);
        if a != b && b != c {
            lemma_text_le_trans(a, b, c);
            if a == c {
                lemma_text_le_antisym(a, b);
            }
        }
    }
}

/// The order of priorities is an order.
pub proof fn lemma_priority_sign_is_order()
    ensures
        is_order(|a: Option<Seq<char>>, b: Option<Seq<char>>| priority_sign(a, b)),
{
    lemma_text_sign_is_order();
    let f = |a: Seq<char>, b: Seq<char>| text_sign(a, b);
    assert forall|a: Option<Seq<char>>, b: Option<Seq<char>>| priority_sign(b, a) == flipped(
        priority_sign(a, b),
    ) by {
        if a is Some && b is Some {
            assert(f(b->0, a->0) == flipped(f(a->0, b->0)));
        }
    }
    assert forall|a: Option<Seq<char>>, b: Option<Seq<char>>, c: Option<Seq<char>>|
        priority_sign(a, b) != Sign::After && priority_sign(b, c) != Sign::After implies priority_sign(
        a,
        c,
    ) == chained(priority_sign(a, b), priority_sign(b, c)) by {
        if a is Some && b is Some && c is Some {
            assert(f(a->0, b->0) != Sign::After && f(b->0, c->0) != Sign::After ==> f(a->0, c->0)
                == chained(f(a->0, b->0), f(b->0, c->0)));
        }
    }
}

/// The order by id is an order.
pub proof fn lemma_id_sign_is_order()
    ensures
        is_order(|a: TaskView, b: TaskView| id_sign(a, b)),
{
    lemma_text_sign_is_order();
    let f = |a: Seq<char>, b: Seq<char>| text_sign(a, b);
    assert forall|a: TaskView, b: TaskView| id_sign(b, a) == flipped(id_sign(a, b)) by {
        assert(f(b.note_title, a.note_title) == flipped(f(a.note_title, b.note_title)));
    }
    assert forall|a: TaskView, b: TaskView, c: TaskView|
        id_sign(a, b) != Sign::After && id_sign(b, c) != Sign::After implies id_sign(a, c)
        == chained(id_sign(a, b), id_sign(b, c)) by {
        assert(f(a.note_title, b.note_title) != Sign::After && f(b.note_title, c.note_title)
            != Sign::After ==> f(a.note_title, c.note_title) == chained(
            f(a.note_title, b.note_title),
            f(b.note_title, c.note_title),
        ));
    }
}

/// The order by one field is an order.
pub proof fn lemma_field_sign_is_order(field: SortField)
    ensures
        is_order(|a: TaskView, b: TaskView| field_sign(field, a, b)),
{
    match field {
        SortField::Urgency => {},
        SortField::Priority => {
            lemma_priority_sign_is_order();
            let f = |a: Option<Seq<char>>, b: Option<Seq<char>>| priority_sign(a, b);
            assert forall|a: TaskView, b: TaskView| field_sign(field, b, a) == flipped(
                field_sign(field, a, b),
            ) by {
                assert(f(b.priority, a.priority) == flipped(f(a.priority, b.priority)));
            }
            assert forall|a: TaskView, b: TaskView, c: TaskView|
                field_sign(field, a, b) != Sign::After && field_sign(field, b, c)
                    != Sign::After implies field_sign(field, a, c) == chained(
                field_sign(field, a, b),
                field_sign(field, b, c),
            ) by {
                assert(f(a.priority, b.priority) != Sign::After && f(b.priority, c.priority)
                    != Sign::After ==> f(a.priority, c.priority) == chained(
                    f(a.priority, b.priority),
                    f(b.priority, c.priority),
                ));
            }
        },
        SortField::Id => {
            lemma_id_sign_is_order();
            let f = |a: TaskView, b: TaskView| id_sign(a, b);
            assert forall|a: TaskView, b: TaskView| field_sign(field, b, a) == flipped(
                field_sign(field, a, b),
            ) by {
                assert(f(b, a) == flipped(f(a, b)));
            }
            assert forall|a: TaskView, b: TaskView, c: TaskView|
                field_sign(field, a, b) != Sign::After && field_sign(field, b, c)
                    != Sign::After implies field_sign(field, a, c) == chained(
                field_sign(field, a, b),
                field_sign(field, b, c),
            ) by {
                assert(f(a, b) != Sign::After && f(b, c) != Sign::After ==> f(a, c) == chained(
                    f(a, b),
                    f(b, c),
                ));
            }
        },
    }
}

/// The order by a list of fields turns round with the tasks.
pub proof fn lemma_task_sign_flips(fields: Seq<SortField>, a: TaskView, b: TaskView)
    ensures
        task_sign(fields, b, a) == flipped(task_sign(fields, a, b)),
    decreases fields.len(),
{
    if fields.len() > 0 {
        lemma_field_sign_is_order(fields[0]);
        let f = |a: TaskView, b: TaskView| field_sign(fields[0], a, b);
        assert(f(b, a) == flipped(f(a, b)));
        lemma_task_sign_flips(fields.drop_first(), a, b);
    }
}

/// The order by a list of fields carries over from one pair of tasks to
/// the next.
pub proof fn lemma_task_sign_chains(fields: Seq<SortField>, a: TaskView, b: TaskView, c: TaskView)
    requires
        task_sign(fields, a, b) != Sign::After,
        task_sign(fields, b, c) != Sign::After,
    ensures
        task_sign(fields, a, c) == chained(task_sign(fields, a, b), task_sign(fields, b, c)),
    decreases fields.len(),
{
    if fields.len() > 0 {
        lemma_field_sign_is_order(fields[0]);
        let f = |a: TaskView, b: TaskView| field_sign(fields[0], a, b);
        assert(f(a, b) != Sign::After && f(b, c) != Sign::After ==> f(a, c) == chained(
            f(a, b),
            f(b, c),
        ));
        if f(a, b) == Sign::Same && f(b, c) == Sign::Same {
            lemma_task_sign_chains(fields.drop_first(), a, b, c);
        }
    }
}

/// Whether no task of a list comes after a later one.
pub open spec fn in_order(tasks: Seq<TaskView>, fields: Seq<SortField>) -> bool {
    forall|i: int, j: int|
        0 <= i < j < tasks.len() ==> task_sign(fields, #[trigger] tasks[i], #[trigger] tasks[j])
            != Sign::After
}

/// A task put into a list that is in order leaves it in order.
proof fn lemma_with_task_in_order(sorted: Seq<TaskView>, task: TaskView, fields: Seq<SortField>)
    requires
        in_order(sorted, fields),
    ensures
        in_order(with_task(sorted, task, fields), fields),
    decreases sorted.len(),
{
    if sorted.len() > 0 && task_sign(fields, sorted.last(), task) == Sign::After {
        let head = sorted.drop_last();
        let last = sorted.last();
        assert(in_order(head, fields)) by {
            assert forall|i: int, j: int| 0 <= i < j < head.len() implies task_sign(
                fields,
                #[trigger] head[i],
                #[trigger] head[j],
            ) != Sign::After by {
                assert(head[i] == sorted[i] && head[j] == sorted[j]);
            }
        }
        lemma_with_task_in_order(head, task, fields);
        lemma_with_task_members(head, task, fields);
        let placed = with_task(head, task, fields);
        let grown = placed.push(last);
        assert forall|i: int, j: int| 0 <= i < j < grown.len() implies task_sign(
            fields,
            #[trigger] grown[i],
            #[trigger] grown[j],
        ) != Sign::After by {
            if j < placed.len() {
                assert(grown[i] == placed[i] && grown[j] == placed[j]);
            } else {
                // Every task of `placed` is the new one or one of `head`.
                assert(grown[i] == placed[i]);
                if placed[i] == task {
                    lemma_task_sign_flips(fields, last, task);
                } else {
                    let k = choose|k: int| 0 <= k < head.len() && head[k] == placed[i];
                    assert(sorted[k] == head[k]);
                    assert(sorted[sorted.len() - 1] == last);
                }
            }
        }
    } else {
        let grown = sorted.push(task);
        assert forall|i: int, j: int| 0 <= i < j < grown.len() implies task_sign(
            fields,
            #[trigger] grown[i],
            #[trigger] grown[j],
        ) != Sign::After by {
            if j < sorted.len() {
                assert(grown[i] == sorted[i] && grown[j] == sorted[j]);
            } else {
                assert(grown[i] == sorted[i]);
                if i < sorted.len() - 1 {
                    assert(sorted[sorted.len() - 1] == sorted.last());
                    lemma_task_sign_chains(fields, sorted[i], sorted.last(), task);
                }
            }
        }
    }
}

/// A list with one task more holds that task and the tasks it held.
proof fn lemma_with_task_members(sorted: Seq<TaskView>, task: TaskView, fields: Seq<SortField>)
    ensures
        forall|i: int|
            0 <= i < with_task(sorted, task, fields).len() ==> (#[trigger] with_task(
                sorted,
                task,
                fields,
            )[i]) == task || exists|k: int|
                0 <= k < sorted.len() && sorted[k] == with_task(sorted, task, fields)[i],
    decreases sorted.len(),
{
    if sorted.len() > 0 && task_sign(fields, sorted.last(), task) == Sign::After {
        let head = sorted.drop_last();
        lemma_with_task_members(head, task, fields);
        let placed = with_task(head, task, fields);
        let grown = placed.push(sorted.last());
        assert forall|i: int| 0 <= i < grown.len() implies (#[trigger] grown[i]) == task
            || exists|k: int| 0 <= k < sorted.len() && sorted[k] == grown[i] by {
            if i < placed.len() {
                assert(grown[i] == placed[i]);
                if placed[i] != task {
                    let k = choose|k: int| 0 <= k < head.len() && head[k] == placed[i];
                    assert(sorted[k] == head[k]);
                }
            } else {
                assert(sorted[sorted.len() - 1] == grown[i]);
            }
        }
    } else {
        let grown = sorted.push(task);
        assert forall|i: int| 0 <= i < grown.len() implies (#[trigger] grown[i]) == task
            || exists|k: int| 0 <= k < sorted.len() && sorted[k] == grown[i] by {
            if i < sorted.len() {
                assert(sorted[i] == grown[i]);
            }
        }
    }
}

/// Sorted tasks are in order: none comes after a later one.
pub proof fn lemma_sorted_tasks_in_order(tasks: Seq<TaskView>, fields: Seq<SortField>)
    ensures
        in_order(sorted_tasks(tasks, fields), fields),
    decreases tasks.len(),
{
    if tasks.len() > 0 {
        lemma_sorted_tasks_in_order(tasks.drop_last(), fields);
        lemma_with_task_in_order(sorted_tasks(tasks.drop_last(), fields), tasks.last(), fields);
    }
}

} // verus!
