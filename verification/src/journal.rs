//! The notes of days, weeks and quarters: opening them, listing them, and
//! carrying open tasks from one week to the next.

use crate::bnotes::BNotes;
use crate::config::{join_path, joined, ConfigView};
use crate::error::{is_storage_error, storage_error, Error};
use crate::note::Note;
use crate::path::{file_stem, stem_of};
use crate::periodic::{PeriodType, Weekly};
use crate::sorting::{text_before_or_equal, text_le};
use crate::storage::{listing, Files, Storage};
use crate::task::{opt_text, strings, task_views, Task, TaskView};
use crate::tasks::{build_migrated_section, migrated_section};
use crate::templates::{
    embedded_template, get_embedded_template, no_tasks, render_template_at, rendered,
    today_and_now,
};
use crate::marking::{carried_from_note, carried_tasks, mark_open_tasks, marked_migrated};
use crate::repository::{filled_in, note_added};
use crate::text::{chars_of, same_text, string_of};
use vstd::prelude::*;

verus! {

/// The template of a note whose kind has none of its own.
pub open spec fn bare_template() -> Seq<char> {
    "# {{title}}\n\n"@
}

/// The file name of the template of a kind of period, as configured.
pub open spec fn configured_template(
    daily: Seq<char>,
    weekly: Seq<char>,
    quarterly: Seq<char>,
    kind: Seq<char>,
) -> Seq<char> {
    if kind == "daily"@ {
        daily
    } else if kind == "weekly"@ {
        weekly
    } else if kind == "quarterly"@ {
        quarterly
    } else {
        kind + ".md"@
    }
}

/// The file name of the template of a periodic note: the one given, or
/// the one configured for the kind.
pub open spec fn template_file(config: ConfigView, kind: Seq<char>, given: Option<&str>) -> Seq<
    char,
> {
    match given {
        Some(name) => name@,
        None => configured_template(
            config.daily_template,
            config.weekly_template,
            config.quarterly_template,
            kind,
        ),
    }
}

/// The template that the library carries for a kind of period; the bare
/// template where it carries none.
pub open spec fn carried_template(kind: Seq<char>) -> Seq<char> {
    match embedded_template(kind) {
        Some(t) => t,
        None => bare_template(),
    }
}

/// The template of a periodic note: the file of the given name in the
/// template directory where the files have it, else the template that
/// the library carries for the kind.
pub open spec fn period_template_of(
    files: Files,
    template_dir: Seq<char>,
    file: Seq<char>,
    kind: Seq<char>,
) -> Seq<char> {
    let path = joined(template_dir, file);
    if files.contains_key(path) {
        files[path]
    } else {
        carried_template(kind)
    }
}

/// What opening the note of a period does to the files: nothing where
/// the note is there; else the note is added, the template of the kind
/// filled in with the identifier as title and some date and time.
pub open spec fn opened<P: PeriodType>(
    before: Files,
    after: Files,
    template_dir: Seq<char>,
    file: Seq<char>,
    period: P,
) -> bool {
    let path = period.id() + ".md"@;
    if before.contains_key(path) {
        after == before
    } else {
        note_added(
            before,
            after,
            path,
            period_template_of(before, template_dir, file, P::kind()),
            period.id(),
        )
    }
}

/// The period next to a period in a direction: the one before it for
/// `prev`, the one after it for `next`.
pub open spec fn neighbour<P: PeriodType>(current: P, direction: Seq<char>) -> Option<P> {
    if direction == "prev"@ {
        current.before()
    } else if direction == "next"@ {
        current.after()
    } else {
        None
    }
}

/// How opening the note next to the current period ends, `keeps` saying
/// whether the storage keeps account of its files: with the path of that
/// note, which is opened; with `InvalidDirection` where the direction is
/// neither `prev` nor `next`; with `InvalidPeriod` where the calendar has
/// no period there. Only a storage that keeps no account fails otherwise.
pub open spec fn navigation<P: PeriodType>(
    current: P,
    direction: Seq<char>,
    template_dir: Seq<char>,
    file: Seq<char>,
    before: Files,
    after: Files,
    keeps: bool,
    r: Result<String, Error>,
) -> bool {
    let target = neighbour(current, direction);
    match r {
        Ok(path) => target is Some && path@ == target->0.id() + ".md"@ && (keeps ==> opened(
            before,
            after,
            template_dir,
            file,
            target->0,
        )),
        Err(Error::InvalidDirection(text)) => text@ == direction && direction != "prev"@
            && direction != "next"@ && (keeps ==> after == before),
        Err(Error::InvalidPeriod(text)) => text@ == direction && (direction == "prev"@
            || direction == "next"@) && target is None && (keeps ==> after == before),
        Err(e) => !keeps && is_storage_error(e) && target is Some,
    }
}

/// The week so many weeks before a week.
pub open spec fn weeks_before(week: Weekly, count: nat) -> Option<Weekly>
    decreases count,
{
    if count == 0 {
        Some(week)
    } else {
        match weeks_before(week, (count - 1) as nat) {
            Some(w) => w.before(),
            None => None,
        }
    }
}

/// The note of the last week before `week` that has a file, as far back
/// as `reach` weeks: the name of the file, or `None` where no week that
/// near has one, or the calendar ends before one is found.
pub open spec fn previous_week_file(files: Files, week: Weekly, reach: nat) -> Option<Seq<char>>
    decreases reach,
{
    if reach == 0 {
        None
    } else {
        match week.before() {
            Some(earlier) => if files.contains_key(earlier.id() + ".md"@) {
                Some(earlier.id() + ".md"@)
            } else {
                previous_week_file(files, earlier, (reach - 1) as nat)
            },
            None => None,
        }
    }
}

/// How far back an earlier weekly note is looked for, in weeks.
pub open spec fn weeks_looked_back() -> nat {
    52
}

/// What is found for a new note of a week to take over, where it is
/// looked for: the last earlier weekly note within reach, with its open
/// tasks; no tasks where there is no such note.
pub open spec fn migration_of(files: Files, week: Weekly) -> (Option<Seq<char>>, Seq<TaskView>) {
    match previous_week_file(files, week, weeks_looked_back()) {
        Some(path) => (Some(path), carried_tasks_at(files, path)),
        None => (None, Seq::empty()),
    }
}

/// Nothing to take over: no earlier note and no tasks.
pub open spec fn no_migration() -> (Option<Seq<char>>, Seq<TaskView>) {
    (None, Seq::empty())
}

/// What was found, as values.
pub open spec fn migration_view(found: (Option<String>, Vec<Task>)) -> (
    Option<Seq<char>>,
    Seq<TaskView>,
) {
    (opt_text(found.0), task_views(found.1@))
}

/// Whether the open tasks of an earlier week are carried over: there are
/// some, and where the user is asked, there is an earlier note and the
/// answer was yes.
pub open spec fn migrates(
    open_tasks: nat,
    has_previous: bool,
    should_prompt: bool,
    answer: bool,
) -> bool {
    if should_prompt && open_tasks > 0 {
        has_previous && answer
    } else {
        open_tasks > 0
    }
}

/// The text of a new weekly note and the number of tasks carried over
/// into it: the template filled in, with the lines of the open tasks
/// where they are carried over, and without them where not.
pub fn weekly_note_content(
    template: &str,
    title: &str,
    date: &str,
    datetime: &str,
    open_tasks: &[Task],
    has_previous: bool,
    should_prompt: bool,
    answer: bool,
) -> (r: (String, usize))
    ensures
        r.0@ == rendered(
            template@,
            title@,
            date@,
            datetime@,
            if migrates(open_tasks@.len(), has_previous, should_prompt, answer) {
                migrated_section(task_views(open_tasks@))
            } else {
                no_tasks()
            },
        ),
        r.1 == if migrates(open_tasks@.len(), has_previous, should_prompt, answer) {
            open_tasks@.len()
        } else {
            0
        },
{
    let should_migrate = if should_prompt && open_tasks.len() > 0 {
        has_previous && answer
    } else {
        open_tasks.len() > 0
    };
    if should_migrate {
        let section = build_migrated_section(open_tasks);
        (render_template_at(template, title, date, datetime, Some(section.as_str())), open_tasks.len())
    } else {
        (render_template_at(template, title, date, datetime, None), 0)
    }
}

/// The open tasks of the note that the files hold at a path, as far as
/// they can be carried over: those whose checkbox is marked when the
/// note is marked.
pub open spec fn carried_tasks_at(files: Files, path: Seq<char>) -> Seq<TaskView> {
    carried_tasks(path, crate::note::parsed_note(path, files[path]).title, files[path])
}

/// What creating a weekly note does to the files, given the date and
/// time that were filled in and what was found to carry over: the new
/// note is the template, filled in with the identifier as title. Where
/// tasks are carried over, the new note holds their lines, and in the
/// earlier note they are marked as migrated.
pub open spec fn weekly_filled_in(
    before: Files,
    after: Files,
    path: Seq<char>,
    template: Seq<char>,
    title: Seq<char>,
    date: Seq<char>,
    datetime: Seq<char>,
    found: (Option<Seq<char>>, Seq<TaskView>),
    carries: bool,
) -> bool {
    if carries && found.0 is Some {
        after == before.insert(found.0->0, marked_migrated(before[found.0->0])).insert(
            path,
            rendered(template, title, date, datetime, migrated_section(found.1)),
        )
    } else {
        after == before.insert(path, rendered(template, title, date, datetime, no_tasks()))
    }
}

/// What creating a weekly note does to the files, for some date and time.
pub open spec fn weekly_added(
    before: Files,
    after: Files,
    path: Seq<char>,
    template: Seq<char>,
    title: Seq<char>,
    found: (Option<Seq<char>>, Seq<TaskView>),
    carries: bool,
) -> bool {
    exists|date: Seq<char>, datetime: Seq<char>| #[trigger]
        weekly_filled_in(before, after, path, template, title, date, datetime, found, carries)
}

/// How creating the note of a week ends on files that are all there is,
/// `looks` saying whether an earlier note is looked for. Where the note
/// is there, nothing happens and nothing is carried over. Else the open
/// tasks of the last earlier weekly note are carried over where
/// `migrates` says so, and their number is returned. It never fails.
pub open spec fn weekly_creation(
    before: Files,
    after: Files,
    template_dir: Seq<char>,
    file: Seq<char>,
    period: Weekly,
    should_prompt: bool,
    answer: bool,
    looks: bool,
    r: Result<(String, usize), Error>,
) -> bool {
    let path = period.id() + ".md"@;
    let found = if looks {
        migration_of(before, period)
    } else {
        no_migration()
    };
    let carries = migrates(found.1.len(), found.0 is Some, should_prompt, answer);
    match r {
        Ok(done) => done.0@ == path && if before.contains_key(path) {
            done.1 == 0 && after == before
        } else {
            done.1 == (if carries {
                found.1.len()
            } else {
                0
            }) && weekly_added(
                before,
                after,
                path,
                period_template_of(before, template_dir, file, "weekly"@),
                period.id(),
                found,
                carries,
            )
        },
        Err(_) => false,
    }
}

/// Whether identifiers stand in order: none comes after a later one.
pub open spec fn ids_sorted(ids: Seq<Seq<char>>) -> bool {
    forall|i: int, j: int| 0 <= i < j < ids.len() ==> text_le(#[trigger] ids[i], #[trigger] ids[j])
}

/// Whether the file at a path is the note of a period of the kind `P`:
/// the stem of its name names one.
pub open spec fn is_period_file<P: PeriodType>(path: Seq<char>) -> bool {
    match file_stem(path) {
        Some(stem) => P::parses(stem),
        None => false,
    }
}

/// The number of paths that are notes of periods of the kind `P`.
pub open spec fn period_files<P: PeriodType>(paths: Seq<Seq<char>>) -> nat
    decreases paths.len(),
{
    if paths.len() == 0 {
        0
    } else {
        period_files::<P>(paths.drop_last()) + if is_period_file::<P>(paths.last()) {
            1nat
        } else {
            0nat
        }
    }
}

/// Whether a period is the one of some file among the paths.
pub open spec fn is_period_among<P: PeriodType>(paths: Seq<Seq<char>>, period: P) -> bool {
    exists|k: int|
        0 <= k < paths.len() && file_stem(#[trigger] paths[k]) is Some && P::names(
            file_stem(paths[k])->0,
            period,
        )
}

/// Whether `read` holds, in the order of the paths, one period for each
/// path whose stem names a period of the kind: the period that the stem
/// names.
pub open spec fn are_read_from<P: PeriodType>(paths: Seq<Seq<char>>, read: Seq<P>) -> bool
    decreases paths.len(),
{
    if paths.len() == 0 {
        read.len() == 0
    } else if is_period_file::<P>(paths.last()) {
        &&& read.len() > 0
        &&& P::names(file_stem(paths.last())->0, read.last())
        &&& are_read_from(paths.drop_last(), read.drop_last())
    } else {
        are_read_from(paths.drop_last(), read)
    }
}

/// Whether periods are those of the files at the paths: one for each
/// file whose stem names a period of the kind, the period that the stem
/// names, all of them in the order of the identifiers.
pub open spec fn are_periods_of<P: PeriodType>(paths: Seq<Seq<char>>, periods: Seq<P>) -> bool {
    &&& ids_sorted(periods.map_values(|p: P| p.id()))
    &&& periods.len() == period_files::<P>(paths)
    &&& forall|i: int| 0 <= i < periods.len() ==> is_period_among(paths, #[trigger] periods[i])
    &&& exists|read: Seq<P>| #[trigger]
        are_read_from(paths, read) && periods.to_multiset() == read.to_multiset()
}

/// The periods of the kind `P` whose notes are among the given files: one
/// for each file whose stem names a period, in the order of the
/// identifiers.
pub fn periods_among<P: PeriodType>(entries: &[String]) -> (r: Vec<P>)
    ensures
        ids_sorted(r@.map_values(|p: P| p.id())),
        r@.len() == period_files::<P>(strings(entries@)),
        forall|i: int| 0 <= i < r@.len() ==> is_period_among(strings(entries@), #[trigger] r@[i]),
        are_periods_of(strings(entries@), r@),
{
    let ghost paths = strings(entries@);
    let ghost mut read = Seq::<P>::empty();
    let mut periods: Vec<P> = Vec::new();
    let mut keys: Vec<Vec<char>> = Vec::new();
    let mut i: usize = 0;
    assert(paths.take(0) =~= Seq::<Seq<char>>::empty());
    assert(periods@ =~= read);
    while i < entries.len()
        invariant
            i <= entries.len(),
            paths == strings(entries@),
            are_read_from(paths.take(i as int), read),
            periods@.to_multiset() == read.to_multiset(),
            keys@.len() == periods@.len(),
            forall|k: int| 0 <= k < keys@.len() ==> (#[trigger] keys@[k])@ == periods@[k].id(),
            ids_sorted(periods@.map_values(|p: P| p.id())),
            periods@.len() == period_files::<P>(paths.take(i as int)),
            forall|m: int|
                0 <= m < periods@.len() ==> is_period_among(paths, #[trigger] periods@[m]),
        decreases entries.len() - i,
    {
        proof {
            assert(paths.take(i + 1).drop_last() =~= paths.take(i as int));
            assert(paths.take(i + 1).last() == entries@[i as int]@);
            assert(paths[i as int] == entries@[i as int]@);
        }
        match stem_of(&chars_of(entries[i].as_str())) {
            Some(stem) => {
                match P::from_date_str(string_of(&stem).as_str()) {
                    Ok(period) => {
                        assert(is_period_among(paths, period));
                        let key = chars_of(period.identifier().as_str());
                        let ghost before = periods@.map_values(|p: P| p.id());
                        let ghost held = periods@;
                        let mut at: usize = keys.len();
                        while at > 0 && !text_before_or_equal(&keys[at - 1], &key)
                            invariant
                                at <= keys.len(),
                                keys@.len() == periods@.len(),
                                before == periods@.map_values(|p: P| p.id()),
                                forall|k: int|
                                    0 <= k < keys@.len() ==> (#[trigger] keys@[k])@
                                        == periods@[k].id(),
                                forall|k: int|
                                    at <= k < keys.len() ==> !text_le(#[trigger] before[k], key@),
                            decreases at,
                        {
                            assert(before[at - 1] == keys@[at - 1]@);
                            at -= 1;
                        }
                        proof {
                            if at > 0 {
                                assert(before[at - 1] == keys@[at - 1]@);
                            }
                            let after = before.insert(at as int, key@);
                            assert forall|p: int, q: int| 0 <= p < q < after.len() implies text_le(
                                #[trigger] after[p],
                                #[trigger] after[q],
                            ) by {
                                if q == at {
                                    if at > 0 {
                                        if p < at - 1 {
                                            crate::sorting::lemma_text_le_trans(
                                                before[p],
                                                before[at - 1],
                                                key@,
                                            );
                                        }
                                    }
                                } else if p == at {
                                    crate::sorting::lemma_text_le_total(before[q - 1], key@);
                                } else if p < at && q > at {
                                    assert(text_le(before[p], before[q - 1]));
                                } else if p < at {
                                    assert(text_le(before[p], before[q]));
                                } else {
                                    assert(text_le(before[p - 1], before[q - 1]));
                                }
                            }
                        }
                        keys.insert(at, key);
                        periods.insert(at, period);
                        proof {
                            vstd::seq_lib::to_multiset_insert(held, at as int, period);
                            vstd::seq_lib::to_multiset_build(read, period);
                            assert(read.push(period).drop_last() =~= read);
                            read = read.push(period);
                            assert(periods@.map_values(|p: P| p.id()) =~= before.insert(
                                at as int,
                                key@,
                            ));
                            assert forall|m: int| 0 <= m < periods@.len() implies is_period_among(
                                paths,
                                #[trigger] periods@[m],
                            ) by {
                                if m < at {
                                    assert(periods@[m] == held[m]);
                                } else if m > at {
                                    assert(periods@[m] == held[m - 1]);
                                }
                            }
                        }
                    },
                    Err(_) => {},
                }
            },
            None => {},
        }
        i += 1;
    }
    assert(paths.take(entries.len() as int) =~= paths);
    periods
}

/// An earlier weekly note that is found is a file.
pub proof fn lemma_previous_week_file(files: Files, week: Weekly, reach: nat)
    ensures
        match previous_week_file(files, week, reach) {
            Some(path) => files.contains_key(path),
            None => true,
        },
    decreases reach,
{
    if reach > 0 {
        match week.before() {
            Some(earlier) => {
                lemma_previous_week_file(files, earlier, (reach - 1) as nat);
            },
            None => {},
        }
    }
}

impl<S: Storage> BNotes<S> {
    /// The text of the template of a periodic note: the file of that name
    /// in the template directory where the storage has it, else the
    /// template that the library carries for the kind.
    fn period_template(&self, file: &str, kind: &str) -> (r: Result<String, Error>)
        ensures
            r is Err ==> is_storage_error(r->Err_0),
            self.repo.storage.keeps_account() ==> r is Ok && r->Ok_0@ == period_template_of(
                self.repo.storage.files(),
                self.config.template_dir@,
                file@,
                kind@,
            ),
    {
        let template_path = join_path(self.config.template_dir.as_str(), file);
        if self.repo.storage.path_exists(template_path.as_str()) {
            match self.repo.storage.read_to_string(template_path.as_str()) {
                Ok(text) => Ok(text),
                Err(e) => Err(storage_error(e, template_path.as_str())),
            }
        } else {
            match get_embedded_template(kind) {
                Some(text) => Ok(text.to_owned()),
                None => Ok("# {{title}}\n\n".to_owned()),
            }
        }
    }

    /// The file name of the template of a kind of period: the one given,
    /// or the one configured.
    fn period_template_file(&self, kind: &str, template_name: Option<&str>) -> (r: String)
        ensures
            r@ == template_file(self.config@, kind@, template_name),
    {
        match template_name {
            Some(name) => name.to_owned(),
            None => {
                if same_text(kind, "daily") {
                    self.config.periodic.daily_template.clone()
                } else if same_text(kind, "weekly") {
                    self.config.periodic.weekly_template.clone()
                } else if same_text(kind, "quarterly") {
                    self.config.periodic.quarterly_template.clone()
                } else {
                    let mut file = kind.to_owned();
                    file.push_str(".md");
                    file
                }
            },
        }
    }

    /// Opens the note of a period: returns its path, and creates the note
    /// first where the storage has none. A new note is the template of the
    /// period with the identifier as title: the template file given, or
    /// the one configured for the kind of period, from the template
    /// directory; where the storage has no such file, the template that
    /// the library carries. A note that is there is left as it is. On a
    /// storage that keeps account of its files this never fails.
    pub fn open_periodic<P: PeriodType>(&mut self, period: P, template_name: Option<&str>) -> (r:
        Result<String, Error>)
        ensures
            final(self).config == old(self).config,
            final(self).repo.storage.keeps_account() == old(self).repo.storage.keeps_account(),
            match r {
                Ok(path) => path@ == period.id() + ".md"@,
                Err(e) => is_storage_error(e) && (old(self).repo.storage.keeps_account() ==> final(self).repo.storage.files() == old(self).repo.storage.files()),
            },
            old(self).repo.storage.keeps_account() ==> r is Ok && opened(
                old(self).repo.storage.files(),
                final(self).repo.storage.files(),
                old(self).config.template_dir@,
                template_file(old(self).config@, P::kind(), template_name),
                period,
            ),
    {
        let note_path = period.filename();
        if self.repo.storage.path_exists(note_path.as_str()) {
            return Ok(note_path);
        }
        let kind = P::template_name();
        let file = self.period_template_file(kind, template_name);
        let template = match self.period_template(file.as_str(), kind) {
            Ok(template) => template,
            Err(e) => {
                return Err(e);
            },
        };
        let title = period.identifier();
        let (date, datetime) = today_and_now();
        let content = render_template_at(
            template.as_str(),
            title.as_str(),
            date.as_str(),
            datetime.as_str(),
            None,
        );
        match self.repo.storage.write(note_path.as_str(), content.as_str()) {
            Ok(()) => {
                assert(old(self).repo.storage.keeps_account() ==> filled_in(
                    old(self).repo.storage.files(),
                    self.repo.storage.files(),
                    note_path@,
                    template@,
                    period.id(),
                    date@,
                    datetime@,
                ));
                Ok(note_path)
            },
            Err(e) => Err(storage_error(e, note_path.as_str())),
        }
    }

    /// The periods of one kind that have a note among the entries of the
    /// root of the storage, in the order of their identifiers. An entry
    /// counts where the stem of its file name names a period of the kind.
    ///
    /// From a storage that keeps account of its files this never fails,
    /// and gives one period for each of its files whose stem names one:
    /// the period that the stem names.
    pub fn list_periodic<P: PeriodType>(&self) -> (r: Result<Vec<P>, Error>)
        ensures
            match r {
                Ok(periods) => ids_sorted(periods@.map_values(|p: P| p.id())),
                Err(e) => is_storage_error(e),
            },
            self.repo.storage.keeps_account() ==> r is Ok && are_periods_of(
                listing(self.repo.storage.files(), Seq::empty()),
                r->Ok_0@,
            ),
    {
        proof {
            reveal_strlit("");
            assert(""@ =~= Seq::<char>::empty());
        }
        match self.repo.storage.read_dir("") {
            Ok(entries) => Ok(periods_among(entries.as_slice())),
            Err(e) => Err(storage_error(e, "")),
        }
    }

    /// Opens the note of the period before or after the current one.
    /// The direction is `prev` or `next`; anything else is reported as
    /// `InvalidDirection` before anything is read.
    ///
    /// Which period is the current one is for the clock to say: see
    /// `navigate_from` for what is opened from each.
    pub fn navigate_periodic<P: PeriodType>(
        &mut self,
        direction: &str,
        template_name: Option<&str>,
    ) -> (r: Result<String, Error>)
        ensures
            final(self).config == old(self).config,
            final(self).repo.storage.keeps_account() == old(self).repo.storage.keeps_account(),
            direction@ != "prev"@ && direction@ != "next"@ ==> r is Err
                && r->Err_0 is InvalidDirection && final(self).repo.storage.files() == old(
                self,
            ).repo.storage.files(),
            exists|current: P| #[trigger]
                navigation(
                    current,
                    direction@,
                    old(self).config.template_dir@,
                    template_file(old(self).config@, P::kind(), template_name),
                    old(self).repo.storage.files(),
                    final(self).repo.storage.files(),
                    old(self).repo.storage.keeps_account(),
                    r,
                ),
    {
        let current = P::current();
        let r = self.navigate_from(&current, direction, template_name);
        assert(navigation(
            current,
            direction@,
            old(self).config.template_dir@,
            template_file(old(self).config@, P::kind(), template_name),
            old(self).repo.storage.files(),
            self.repo.storage.files(),
            old(self).repo.storage.keeps_account(),
            r,
        ));
        r
    }

    /// Opens the note of the period before or after `current`. The
    /// direction is `prev` or `next`; anything else is reported as
    /// `InvalidDirection` before anything is read. Where the calendar has
    /// no period there, that is reported as `InvalidPeriod`.
    pub fn navigate_from<P: PeriodType>(
        &mut self,
        current: &P,
        direction: &str,
        template_name: Option<&str>,
    ) -> (r: Result<String, Error>)
        ensures
            final(self).config == old(self).config,
            final(self).repo.storage.keeps_account() == old(self).repo.storage.keeps_account(),
            direction@ != "prev"@ && direction@ != "next"@ ==> final(self).repo.storage.files()
                == old(self).repo.storage.files(),
            navigation(
                *current,
                direction@,
                old(self).config.template_dir@,
                template_file(old(self).config@, P::kind(), template_name),
                old(self).repo.storage.files(),
                final(self).repo.storage.files(),
                old(self).repo.storage.keeps_account(),
                r,
            ),
    {
        let back = same_text(direction, "prev");
        let forth = same_text(direction, "next");
        if !back && !forth {
            return Err(Error::InvalidDirection(direction.to_owned()));
        }
        proof {
            reveal_strlit("prev");
            reveal_strlit("next");
            assert("prev"@[0] != "next"@[0]);
        }
        let period = if back {
            current.checked_prev()
        } else {
            current.checked_next()
        };
        match period {
            Some(period) => self.open_periodic(period, template_name),
            None => Err(Error::InvalidPeriod(direction.to_owned())),
        }
    }

    /// The note of the last week before the given one that has a note, as
    /// far back as 52 weeks.
    pub fn find_previous_weekly_note(&self, period: Weekly) -> (r: Option<String>)
        ensures
            r is Some ==> exists|count: nat|
                1 <= count <= 52 && weeks_before(period, count) is Some && r->0@ == weeks_before(
                    period,
                    count,
                )->0.id() + ".md"@,
            self.repo.storage.keeps_account() ==> opt_text(r) == previous_week_file(
                self.repo.storage.files(),
                period,
                weeks_looked_back(),
            ),
    {
        let mut current = period;
        let mut count: usize = 0;
        while count < 52
            invariant
                count <= 52,
                weeks_before(period, count as nat) == Some(current),
                self.repo.storage.keeps_account() ==> previous_week_file(
                    self.repo.storage.files(),
                    period,
                    weeks_looked_back(),
                ) == previous_week_file(
                    self.repo.storage.files(),
                    current,
                    (52 - count) as nat,
                ),
            decreases 52 - count,
        {
            current = match current.checked_prev() {
                Some(week) => week,
                None => {
                    return None;
                },
            };
            count += 1;
            let name = current.filename();
            if self.repo.storage.path_exists(name.as_str()) {
                return Some(name);
            }
        }
        None
    }

    /// Marks the open tasks of a note as migrated: the checkbox `[ ]` of
    /// each becomes `[>]`. On a storage that keeps account of its files
    /// this fails only where there is no file at the path.
    pub fn mark_tasks_migrated(&mut self, note_path: &str) -> (r: Result<(), Error>)
        ensures
            final(self).config == old(self).config,
            final(self).repo.storage.keeps_account() == old(self).repo.storage.keeps_account(),
            match r {
                Ok(()) => old(self).repo.storage.keeps_account() ==> old(self).repo.storage.files().contains_key(note_path@) && final(self).repo.storage.files() == old(self).repo.storage.files().insert(
                    note_path@,
                    marked_migrated(old(self).repo.storage.files()[note_path@]),
                ),
                Err(e) => is_storage_error(e) && (old(self).repo.storage.keeps_account() ==> final(self).repo.storage.files() == old(self).repo.storage.files()),
            },
            old(self).repo.storage.keeps_account() ==> (r is Ok <==> old(
                self,
            ).repo.storage.files().contains_key(note_path@)),
    {
        let content = match self.repo.storage.read_to_string(note_path) {
            Ok(content) => content,
            Err(e) => {
                return Err(storage_error(e, note_path));
            },
        };
        let updated = mark_open_tasks(content.as_str());
        match self.repo.storage.write(note_path, updated.as_str()) {
            Ok(()) => Ok(()),
            Err(e) => Err(storage_error(e, note_path)),
        }
    }

    /// The open tasks that a new note of the given week would take over:
    /// those of the last week before it that has a note. Nothing is looked
    /// for where the week is not the current one and the user is to be
    /// asked. Returns the path of that earlier note and its open tasks.
    /// An open task counts where its checkbox stands as `[ ]` at the start
    /// of its list item, so that it can be marked as migrated there.
    ///
    /// Which week is the current one is for the clock to say: see
    /// `find_migration_in_week` for what is found in each case.
    pub fn find_migration(&self, period: Weekly, should_prompt: bool) -> (r: Result<
        (Option<String>, Vec<Task>),
        Error,
    >)
        ensures
            match r {
                Ok(found) => (found.0 is None ==> found.1@.len() == 0) && (found.0 is Some
                    && self.repo.storage.keeps_account() ==> self.repo.storage.files().contains_key(
                    found.0->0@,
                ) && task_views(found.1@) == carried_tasks_at(
                    self.repo.storage.files(),
                    found.0->0@,
                )),
                Err(e) => is_storage_error(e),
            },
            self.repo.storage.keeps_account() ==> r is Ok && (migration_view(r->Ok_0)
                == migration_of(self.repo.storage.files(), period) || (should_prompt
                && migration_view(r->Ok_0) == no_migration())),
    {
        let this_week = Weekly::current();
        self.find_migration_in_week(period, should_prompt, &this_week)
    }

    /// The open tasks that a new note of the given week would take over,
    /// where `this_week` is the current week. They are looked for where the
    /// given week is the current one, or the user is not to be asked.
    pub fn find_migration_in_week(
        &self,
        period: Weekly,
        should_prompt: bool,
        this_week: &Weekly,
    ) -> (r: Result<(Option<String>, Vec<Task>), Error>)
        ensures
            match r {
                Ok(found) => (found.0 is None ==> found.1@.len() == 0) && (found.0 is Some
                    && self.repo.storage.keeps_account() ==> self.repo.storage.files().contains_key(
                    found.0->0@,
                ) && task_views(found.1@) == carried_tasks_at(
                    self.repo.storage.files(),
                    found.0->0@,
                )),
                Err(e) => is_storage_error(e),
            },
            self.repo.storage.keeps_account() ==> r is Ok && migration_view(r->Ok_0) == (if period
                == *this_week || !should_prompt {
                migration_of(self.repo.storage.files(), period)
            } else {
                no_migration()
            }),
    {
        let is_current_week = period.same_week(this_week);
        if !(is_current_week || !should_prompt) {
            let none: Vec<Task> = Vec::new();
            assert(task_views(none@) =~= Seq::<TaskView>::empty());
            return Ok((None, none));
        }
        match self.find_previous_weekly_note(period) {
            Some(previous) => {
                proof {
                    lemma_previous_week_file(
                        self.repo.storage.files(),
                        period,
                        weeks_looked_back(),
                    );
                }
                let content = match self.repo.storage.read_to_string(previous.as_str()) {
                    Ok(content) => content,
                    Err(e) => {
                        return Err(storage_error(e, previous.as_str()));
                    },
                };
                match Note::parse(previous.as_str(), content.as_str()) {
                    Ok(note) => {
                        let open = carried_from_note(&note);
                        Ok((Some(previous), open))
                    },
                    Err(e) => Err(storage_error(e, previous.as_str())),
                }
            },
            None => {
                let none: Vec<Task> = Vec::new();
                assert(task_views(none@) =~= Seq::<TaskView>::empty());
                Ok((None, none))
            },
        }
    }

    /// Creates the note of a week and carries the open tasks of the last
    /// earlier week over into it. Returns the path of the note and the
    /// number of tasks carried over.
    ///
    /// Where the storage has the note already, nothing happens. Else the
    /// open tasks of the last earlier weekly note are looked up (see
    /// `find_migration`). They are carried over where there are any and,
    /// if the user is to be asked, the answer was yes: the new note gets
    /// their lines in place of `{{migrated_tasks}}`, and in the earlier
    /// note they are marked as migrated.
    ///
    /// Which week is the current one is for the clock to say: see
    /// `create_weekly_in_week` for what is done in each case. Where the
    /// user is not to be asked, the clock has no say.
    pub fn create_weekly_with_migration(
        &mut self,
        period: Weekly,
        template_name: Option<&str>,
        should_prompt: bool,
        answer: bool,
    ) -> (r: Result<(String, usize), Error>)
        ensures
            final(self).config == old(self).config,
            final(self).repo.storage.keeps_account() == old(self).repo.storage.keeps_account(),
            match r {
                Ok(done) => done.0@ == period.id() + ".md"@,
                Err(e) => is_storage_error(e),
            },
            old(self).repo.storage.keeps_account() ==> weekly_creation(
                old(self).repo.storage.files(),
                final(self).repo.storage.files(),
                old(self).config.template_dir@,
                template_file(old(self).config@, "weekly"@, template_name),
                period,
                should_prompt,
                answer,
                true,
                r,
            ) || (should_prompt && weekly_creation(
                old(self).repo.storage.files(),
                final(self).repo.storage.files(),
                old(self).config.template_dir@,
                template_file(old(self).config@, "weekly"@, template_name),
                period,
                should_prompt,
                answer,
                false,
                r,
            )),
    {
        let this_week = Weekly::current();
        self.create_weekly_in_week(period, template_name, should_prompt, answer, &this_week)
    }

    /// Creates the note of a week and carries the open tasks of the last
    /// earlier week over into it, where `this_week` is the current week.
    /// An earlier note is looked for where the given week is the current
    /// one, or the user is not to be asked.
    pub fn create_weekly_in_week(
        &mut self,
        period: Weekly,
        template_name: Option<&str>,
        should_prompt: bool,
        answer: bool,
        this_week: &Weekly,
    ) -> (r: Result<(String, usize), Error>)
        ensures
            final(self).config == old(self).config,
            final(self).repo.storage.keeps_account() == old(self).repo.storage.keeps_account(),
            match r {
                Ok(done) => done.0@ == period.id() + ".md"@,
                Err(e) => is_storage_error(e),
            },
            old(self).repo.storage.keeps_account() ==> weekly_creation(
                old(self).repo.storage.files(),
                final(self).repo.storage.files(),
                old(self).config.template_dir@,
                template_file(old(self).config@, "weekly"@, template_name),
                period,
                should_prompt,
                answer,
                period == *this_week || !should_prompt,
                r,
            ),
    {
        let note_path = period.filename();
        if self.repo.storage.path_exists(note_path.as_str()) {
            return Ok((note_path, 0));
        }
        let (previous, open) = match self.find_migration_in_week(period, should_prompt, this_week) {
            Ok(found) => found,
            Err(e) => {
                return Err(e);
            },
        };
        let file = self.period_template_file("weekly", template_name);
        let template = match self.period_template(file.as_str(), "weekly") {
            Ok(template) => template,
            Err(e) => {
                return Err(e);
            },
        };
        let title = period.identifier();
        let (date, datetime) = today_and_now();
        let (content, migrated) = weekly_note_content(
            template.as_str(),
            title.as_str(),
            date.as_str(),
            datetime.as_str(),
            open.as_slice(),
            previous.is_some(),
            should_prompt,
            answer,
        );
        let ghost before = self.repo.storage.files();
        let ghost found = (opt_text(previous), task_views(open@));
        let ghost carries = migrates(open@.len(), previous is Some, should_prompt, answer);
        if migrated > 0 {
            match &previous {
                Some(path) => {
                    match self.mark_tasks_migrated(path.as_str()) {
                        Ok(()) => {},
                        Err(e) => {
                            return Err(e);
                        },
                    }
                },
                None => {},
            }
        }
        match self.repo.storage.write(note_path.as_str(), content.as_str()) {
            Ok(()) => {
                proof {
                    if old(self).repo.storage.keeps_account() {
                        assert(before == old(self).repo.storage.files());
                        assert(weekly_filled_in(
                            before,
                            self.repo.storage.files(),
                            note_path@,
                            template@,
                            title@,
                            date@,
                            datetime@,
                            found,
                            carries,
                        ));
                    }
                }
                Ok((note_path, migrated))
            },
            Err(e) => Err(storage_error(e, note_path.as_str())),
        }
    }
}

} // verus!
