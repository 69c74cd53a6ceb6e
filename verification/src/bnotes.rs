//! The library as one value: a storage with its configuration.

use crate::config::{config_or_default, is_loaded, ConfigView, LibraryConfig};
use crate::error::{is_storage_error, Error};
use crate::health::{
    bare, check_health, duplicates_of, orphans_of, titles_where, untagged, HealthReport,
};
use crate::links::{broken_of, inbound_of, note_titles, outbound_of, targets, LinkGraph};
use crate::note::{note_views, Note, NoteView};
use crate::repository::{
    filter_notes_by_tags, found, note_creation, note_file, notes_tagged, notes_titled,
    template_name_or_default, vouched_notes, Repository,
};
use crate::search::{search_match_views, search_results, SearchMatch};
use crate::storage::Storage;
use crate::task::{strings, task_views, Task};
use crate::tasks::{
    extract_tasks_from_notes, filter_by_status, parse_status_filter, sort_tasks, status_named,
    task_list, TaskSortOrder,
};
use crate::templates::embedded_template;
use crate::text::clone_strings;
use vstd::prelude::*;

verus! {

/// A notes directory: its storage and its configuration. Nothing is kept
/// between calls: every question reads the notes anew.
pub struct BNotes<S: Storage> {
    pub config: LibraryConfig,
    pub repo: Repository<S>,
}

/// The notes to list: all where no tag is asked for, else those that have
/// every tag asked for.
pub open spec fn notes_listed(notes: Seq<NoteView>, tags: Seq<Seq<char>>) -> Seq<NoteView> {
    if tags.len() == 0 {
        notes
    } else {
        notes_tagged(notes, tags)
    }
}

/// The outcome of opening a library, with its configuration as a value.
pub open spec fn opened_with<S: Storage>(r: Result<BNotes<S>, Error>) -> Result<
    ConfigView,
    Error,
> {
    match r {
        Ok(library) => Ok(library.config@),
        Err(e) => Err(e),
    }
}

/// Whether two lists are the links of the note with a title among the
/// notes: those going out and those coming in, each without repetitions.
pub open spec fn are_links_of(
    notes: Seq<NoteView>,
    title: Seq<char>,
    outbound: Seq<Seq<char>>,
    inbound: Seq<Seq<char>>,
) -> bool {
    &&& outbound.no_duplicates()
    &&& inbound.no_duplicates()
    &&& outbound.to_set() == targets(outbound_of(note_titles(notes), notes), title)
    &&& inbound.to_set() == targets(inbound_of(note_titles(notes), notes), title)
}

/// Whether a report is the one on the given notes.
pub open spec fn is_report_of(notes: Seq<NoteView>, report: HealthReport) -> bool {
    &&& report.wf()
    &&& report.broken_links@ == broken_of(note_titles(notes), notes)
    &&& strings(report.notes_without_tags@) == titles_where(notes, |n: NoteView| untagged(n))
    &&& strings(report.notes_without_frontmatter@) == titles_where(notes, |n: NoteView| bare(n))
    &&& report.duplicate_titles@ == duplicates_of(notes)
    &&& strings(report.orphaned_notes@) == orphans_of(notes)
}

impl<S: Storage> BNotes<S> {
    /// The library over a storage, with the given configuration.
    pub fn new(config: LibraryConfig, storage: S) -> (r: BNotes<S>)
        ensures
            r.config == config,
            r.repo.storage == storage,
    {
        BNotes { config, repo: Repository::new(storage) }
    }

    /// The library over a storage, with the configuration that the storage
    /// holds. Fails where the storage holds none that is in order: with
    /// `ConfigNotFound` where it has no configuration file, with
    /// `ConfigInvalid` where the file is not in order.
    pub fn from_storage(storage: S) -> (r: Result<BNotes<S>, Error>)
        ensures
            r is Ok ==> r->Ok_0.repo.storage == storage,
            storage.keeps_account() ==> is_loaded(storage.files(), opened_with(r)),
    {
        match LibraryConfig::load(&storage) {
            Ok(config) => Ok(BNotes::new(config, storage)),
            Err(e) => Err(e),
        }
    }

    /// The library over a storage, with the configuration that the storage
    /// holds, or the defaults.
    pub fn with_defaults(storage: S) -> (r: BNotes<S>)
        ensures
            r.repo.storage == storage,
            storage.keeps_account() ==> r.config@ == config_or_default(storage.files()),
    {
        let config = LibraryConfig::load_or_default(&storage);
        BNotes::new(config, storage)
    }

    /// The configuration.
    pub fn config(&self) -> (r: &LibraryConfig)
        ensures
            *r == self.config,
    {
        &self.config
    }

    /// The storage.
    pub fn storage(&self) -> (r: &S)
        ensures
            *r == self.repo.storage,
    {
        &self.repo.storage
    }

    /// Searches all notes for `query`, without regard to case, in titles,
    /// tags and text. The empty query matches nothing.
    pub fn search(&self, query: &str) -> (r: Result<Vec<SearchMatch>, Error>)
        ensures
            r is Err ==> is_storage_error(r->Err_0),
            r is Ok ==> exists|notes: Seq<NoteView>|
                vouched_notes(self.repo.storage, notes) && search_match_views(
                    r->Ok_0@,
                ) == search_results(notes, query@),
            r is Ok && query@.len() == 0 ==> r->Ok_0@.len() == 0,
            self.repo.storage.keeps_account() ==> r is Ok && search_match_views(r->Ok_0@)
                == search_results(found(self.repo.storage.files()), query@),
    {
        self.repo.search(query)
    }

    /// All notes; or, where tags are given, the notes that have every one
    /// of them.
    pub fn list_notes(&self, tags: &[String]) -> (r: Result<Vec<Note>, Error>)
        ensures
            r is Err ==> is_storage_error(r->Err_0),
            r is Ok ==> exists|notes: Seq<NoteView>|
                vouched_notes(self.repo.storage, notes) && note_views(r->Ok_0@)
                    == notes_listed(notes, strings(tags@)),
            self.repo.storage.keeps_account() ==> r is Ok && note_views(r->Ok_0@) == notes_listed(
                found(self.repo.storage.files()),
                strings(tags@),
            ),
    {
        if tags.len() == 0 {
            match self.repo.discover_notes() {
                Ok(notes) => {
                    assert(vouched_notes(self.repo.storage, note_views(notes@))
                        && note_views(notes@) == notes_listed(note_views(notes@), strings(tags@)));
                    Ok(notes)
                },
                Err(e) => Err(e),
            }
        } else {
            let r = self.repo.filter_by_tags(tags);
            proof {
                assert(strings(tags@).len() > 0);
                if r is Ok {
                    let notes = choose|notes: Seq<NoteView>|
                        vouched_notes(self.repo.storage, notes) && note_views(r->Ok_0@)
                            == notes_tagged(notes, strings(tags@));
                    assert(vouched_notes(self.repo.storage, notes) && note_views(
                        r->Ok_0@,
                    ) == notes_listed(notes, strings(tags@)));
                }
            }
            r
        }
    }

    /// The notes whose title is `title`, without regard to case.
    pub fn find_note_by_title(&self, title: &str) -> (r: Result<Vec<Note>, Error>)
        ensures
            r is Err ==> is_storage_error(r->Err_0),
            r is Ok ==> exists|notes: Seq<NoteView>|
                vouched_notes(self.repo.storage, notes) && note_views(r->Ok_0@)
                    == notes_titled(notes, title@),
            self.repo.storage.keeps_account() ==> r is Ok && note_views(r->Ok_0@) == notes_titled(
                found(self.repo.storage.files()),
                title@,
            ),
    {
        self.repo.find_by_title(title)
    }

    /// The links of the note with the given title: first those going out,
    /// then those coming in, each as a list without repetitions.
    pub fn get_note_links(&self, title: &str) -> (r: Result<(Vec<String>, Vec<String>), Error>)
        ensures
            r is Err ==> is_storage_error(r->Err_0),
            r is Ok ==> exists|notes: Seq<NoteView>|
                vouched_notes(self.repo.storage, notes) && strings(
                    r->Ok_0.0@,
                ).to_set() == targets(outbound_of(note_titles(notes), notes), title@) && strings(
                    r->Ok_0.1@,
                ).to_set() == targets(inbound_of(note_titles(notes), notes), title@),
            r is Ok ==> strings(r->Ok_0.0@).no_duplicates() && strings(r->Ok_0.1@).no_duplicates(),
            self.repo.storage.keeps_account() ==> r is Ok && are_links_of(
                found(self.repo.storage.files()),
                title@,
                strings(r->Ok_0.0@),
                strings(r->Ok_0.1@),
            ),
    {
        match self.repo.discover_notes() {
            Ok(notes) => {
                let graph = LinkGraph::build(notes.as_slice());
                let outbound = match graph.outbound.get(title) {
                    Some(set) => {
                        let copy = clone_strings(set);
                        assert(strings(copy@) =~= strings(set@));
                        copy
                    },
                    None => {
                        let none: Vec<String> = Vec::new();
                        assert(strings(none@).to_set() =~= Set::<Seq<char>>::empty());
                        none
                    },
                };
                let inbound = match graph.inbound.get(title) {
                    Some(set) => {
                        let copy = clone_strings(set);
                        assert(strings(copy@) =~= strings(set@));
                        copy
                    },
                    None => {
                        let none: Vec<String> = Vec::new();
                        assert(strings(none@).to_set() =~= Set::<Seq<char>>::empty());
                        none
                    },
                };
                let ghost views = note_views(notes@);
                assert(are_links_of(views, title@, strings(outbound@), strings(inbound@)));
                assert(vouched_notes(self.repo.storage, views) && strings(
                    outbound@,
                ).to_set() == targets(outbound_of(note_titles(views), views), title@) && strings(
                    inbound@,
                ).to_set() == targets(inbound_of(note_titles(views), views), title@));
                Ok((outbound, inbound))
            },
            Err(e) => Err(e),
        }
    }

    /// The link graph of all notes.
    pub fn get_link_graph(&self) -> (r: Result<LinkGraph, Error>)
        ensures
            r is Err ==> is_storage_error(r->Err_0),
            r is Ok ==> r->Ok_0.wf() && exists|notes: Seq<NoteView>|
                vouched_notes(self.repo.storage, notes) && r->Ok_0.outbound@
                    == outbound_of(note_titles(notes), notes) && r->Ok_0.inbound@ == inbound_of(
                    note_titles(notes),
                    notes,
                ),
            self.repo.storage.keeps_account() ==> r is Ok && r->Ok_0.outbound@ == outbound_of(
                note_titles(found(self.repo.storage.files())),
                found(self.repo.storage.files()),
            ) && r->Ok_0.inbound@ == inbound_of(
                note_titles(found(self.repo.storage.files())),
                found(self.repo.storage.files()),
            ),
    {
        match self.repo.discover_notes() {
            Ok(notes) => {
                let graph = LinkGraph::build(notes.as_slice());
                let ghost views = note_views(notes@);
                assert(vouched_notes(self.repo.storage, views) && graph.outbound@
                    == outbound_of(note_titles(views), views) && graph.inbound@ == inbound_of(
                    note_titles(views),
                    views,
                ));
                Ok(graph)
            },
            Err(e) => Err(e),
        }
    }

    /// Creates a note with the given title, from the template of the given
    /// name or from the default template, and returns its path. See
    /// [`Repository::create_note`].
    pub fn create_note(&mut self, title: &str, template_name: Option<&str>) -> (r: Result<
        String,
        Error,
    >)
        ensures
            final(self).config == old(self).config,
            final(self).repo.storage.keeps_account() == old(self).repo.storage.keeps_account(),
            match r {
                Ok(path) => path@ == note_file(title@),
                Err(e) => (old(self).repo.storage.keeps_account() ==> final(self).repo.storage.files() == old(self).repo.storage.files()) && match e {
                    Error::NoteExists(path) => path@ == note_file(title@),
                    Error::TemplateNotFound(name) => name@ == template_name_or_default(
                        template_name,
                    ) && embedded_template(name@) is None,
                    _ => is_storage_error(e),
                },
            },
            old(self).repo.storage.keeps_account() ==> note_creation(
                old(self).repo.storage.files(),
                final(self).repo.storage.files(),
                old(self).config.template_dir@,
                template_name_or_default(template_name),
                title@,
                r,
            ),
    {
        let template_dir = self.config.template_dir.clone();
        self.repo.create_note(title, template_dir.as_str(), template_name)
    }

    /// The tasks of the notes (of those that have every given tag, where
    /// tags are given), chosen by status and put in order. The status is
    /// one of `open`, `completed` or `done`, `migrated`, `all`; anything
    /// else is reported as `InvalidStatusFilter` before any note is read.
    pub fn list_tasks(&self, tags: &[String], status: Option<&str>, sort_order: TaskSortOrder) -> (r:
        Result<Vec<Task>, Error>)
        ensures
            match r {
                Ok(tasks) => (status is Some ==> status_named(status->0@) is Some) && exists|
                    notes: Seq<NoteView>,
                |
                    vouched_notes(self.repo.storage, notes) && task_views(tasks@)
                        == task_list(
                        notes_listed(notes, strings(tags@)),
                        match status {
                            Some(filter) => status_named(filter@)->0,
                            None => None,
                        },
                        sort_order.fields@,
                    ),
                Err(Error::InvalidStatusFilter(text)) => status is Some && status_named(
                    status->0@,
                ) is None && text@ == status->0@,
                Err(e) => is_storage_error(e),
            },
            status is Some && status_named(status->0@) is None ==> r is Err
                && r->Err_0 is InvalidStatusFilter,
            self.repo.storage.keeps_account() && (status is None || status_named(status->0@) is Some)
                ==> r is Ok && task_views(r->Ok_0@) == task_list(
                notes_listed(found(self.repo.storage.files()), strings(tags@)),
                match status {
                    Some(filter) => status_named(filter@)->0,
                    None => None,
                },
                sort_order.fields@,
            ),
    {
        let wanted = match status {
            Some(filter) => match parse_status_filter(filter) {
                Ok(wanted) => wanted,
                Err(e) => {
                    return Err(e);
                },
            },
            None => None,
        };
        let all = match self.repo.discover_notes() {
            Ok(notes) => notes,
            Err(e) => {
                return Err(e);
            },
        };
        let notes = if tags.len() == 0 {
            let copy = filter_notes_by_tags(all.as_slice(), tags);
            proof {
                lemma_no_tags_wanted(note_views(all@), strings(tags@));
            }
            copy
        } else {
            filter_notes_by_tags(all.as_slice(), tags)
        };
        let tasks = extract_tasks_from_notes(notes.as_slice());
        let chosen = filter_by_status(tasks, wanted);
        let sorted = sort_tasks(&chosen, &sort_order);
        assert(vouched_notes(self.repo.storage, note_views(all@)) && task_views(sorted@)
            == task_list(
            notes_listed(note_views(all@), strings(tags@)),
            wanted,
            sort_order.fields@,
        ));
        Ok(sorted)
    }

    /// Checks the notes: broken links, missing tags and metadata, titles
    /// used twice, orphaned notes.
    pub fn check_health(&self) -> (r: Result<HealthReport, Error>)
        ensures
            r is Err ==> is_storage_error(r->Err_0),
            r is Ok ==> r->Ok_0.wf() && exists|notes: Seq<NoteView>|
                vouched_notes(self.repo.storage, notes) && r->Ok_0.broken_links@
                    == broken_of(note_titles(notes), notes) && strings(
                    r->Ok_0.notes_without_tags@,
                ) == titles_where(notes, |n: NoteView| untagged(n)) && strings(
                    r->Ok_0.notes_without_frontmatter@,
                ) == titles_where(notes, |n: NoteView| bare(n)) && r->Ok_0.duplicate_titles@
                    == duplicates_of(notes) && strings(r->Ok_0.orphaned_notes@) == orphans_of(notes),
            self.repo.storage.keeps_account() ==> r is Ok && is_report_of(
                found(self.repo.storage.files()),
                r->Ok_0,
            ),
    {
        match self.repo.discover_notes() {
            Ok(notes) => {
                let report = check_health(notes.as_slice());
                let ghost views = note_views(notes@);
                assert(is_report_of(views, report));
                assert(vouched_notes(self.repo.storage, views) && report.broken_links@
                    == broken_of(note_titles(views), views) && strings(report.notes_without_tags@)
                    == titles_where(views, |n: NoteView| untagged(n)) && strings(
                    report.notes_without_frontmatter@,
                ) == titles_where(views, |n: NoteView| bare(n)) && report.duplicate_titles@
                    == duplicates_of(views) && strings(report.orphaned_notes@) == orphans_of(views));
                Ok(report)
            },
            Err(e) => Err(e),
        }
    }
}

/// Where no tag is wanted, every note has all the tags wanted.
pub proof fn lemma_no_tags_wanted(notes: Seq<NoteView>, wanted: Seq<Seq<char>>)
    requires
        wanted.len() == 0,
    ensures
        notes_tagged(notes, wanted) == notes,
    decreases notes.len(),
{
    if notes.len() > 0 {
        lemma_no_tags_wanted(notes.drop_last(), wanted);
        assert(notes =~= notes.drop_last().push(notes.last()));
    } else {
        assert(notes =~= Seq::<NoteView>::empty());
    }
}

} // verus!
