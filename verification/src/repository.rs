//! The notes of a storage: finding them, choosing among them, adding one.

use crate::config::{join_path, joined};
use crate::error::{is_storage_error, storage_error, Error};
use crate::note::{note_views, parsed_note, Note, NoteView};
use crate::path::{extension, extension_of, hidden, is_hidden};
use crate::search::{search_match_views, search_notes, search_results, SearchMatch};
use crate::storage::{is_folder, listing, Files, Storage};
use crate::task::strings;
use crate::templates::{
    embedded_template, get_embedded_template, no_tasks, render_template_at, rendered,
    today_and_now,
};
use crate::text::{
    alphanumeric, ascii_lower, chars_of, drop_empty, eq_ignore_ascii_case, join, join_with,
    lowercase, non_empty, pieces, same_chars, split_on, string_of, to_lower,
};
use vstd::prelude::*;

verus! {

// ---------------------------------------------------------------------------
// Choosing among notes
// ---------------------------------------------------------------------------

/// The notes whose title is `title` up to case, in order.
pub open spec fn notes_titled(notes: Seq<NoteView>, title: Seq<char>) -> Seq<NoteView>
    decreases notes.len(),
{
    if notes.len() == 0 {
        Seq::empty()
    } else {
        let prev = notes_titled(notes.drop_last(), title);
        if lowercase(notes.last().title) == lowercase(title) {
            prev.push(notes.last())
        } else {
            prev
        }
    }
}

/// Whether a note has the tag, up to the case of ASCII letters.
pub open spec fn has_tag(tags: Seq<Seq<char>>, tag: Seq<char>) -> bool {
    exists|i: int| 0 <= i < tags.len() && ascii_lower(#[trigger] tags[i]) == ascii_lower(tag)
}

/// Whether a note has every one of the wanted tags.
pub open spec fn has_all_tags(tags: Seq<Seq<char>>, wanted: Seq<Seq<char>>) -> bool {
    forall|i: int| 0 <= i < wanted.len() ==> has_tag(tags, #[trigger] wanted[i])
}

/// The notes that have every one of the wanted tags, in order.
pub open spec fn notes_tagged(notes: Seq<NoteView>, wanted: Seq<Seq<char>>) -> Seq<NoteView>
    decreases notes.len(),
{
    if notes.len() == 0 {
        Seq::empty()
    } else {
        let prev = notes_tagged(notes.drop_last(), wanted);
        if has_all_tags(notes.last().tags, wanted) {
            prev.push(notes.last())
        } else {
            prev
        }
    }
}

/// The notes whose title is `title`, without regard to case.
pub fn find_notes_by_title(notes: &[Note], title: &str) -> (r: Vec<Note>)
    ensures
        note_views(r@) == notes_titled(note_views(notes@), title@),
{
    let ghost views = note_views(notes@);
    let wanted = to_lower(&chars_of(title));
    let mut out: Vec<Note> = Vec::new();
    let mut i: usize = 0;
    assert(views.take(0) =~= Seq::<NoteView>::empty());
    assert(note_views(out@) =~= Seq::<NoteView>::empty());
    while i < notes.len()
        invariant
            i <= notes.len(),
            views == note_views(notes@),
            wanted@ == lowercase(title@),
            note_views(out@) == notes_titled(views.take(i as int), title@),
        decreases notes.len() - i,
    {
        proof {
            assert(views.take(i + 1).drop_last() =~= views.take(i as int));
            assert(views.take(i + 1).last() == notes@[i as int]@);
        }
        let lowered = to_lower(&chars_of(notes[i].title.as_str()));
        if same_chars(&lowered, &wanted) {
            let ghost before = note_views(out@);
            out.push(notes[i].clone());
            assert(note_views(out@) =~= before.push(notes@[i as int]@));
        }
        i += 1;
    }
    assert(views.take(notes.len() as int) =~= views);
    out
}

fn holds_tag(tags: &Vec<String>, tag: &str) -> (r: bool)
    ensures
        r == has_tag(strings(tags@), tag@),
{
    let mut i: usize = 0;
    while i < tags.len()
        invariant
            i <= tags.len(),
            forall|k: int| 0 <= k < i ==> ascii_lower(strings(tags@)[k]) != ascii_lower(tag@),
        decreases tags.len() - i,
    {
        if eq_ignore_ascii_case(tags[i].as_str(), tag) {
            assert(ascii_lower(strings(tags@)[i as int]) == ascii_lower(tag@));
            return true;
        }
        i += 1;
    }
    false
}

fn holds_all_tags(tags: &Vec<String>, wanted: &[String]) -> (r: bool)
    ensures
        r == has_all_tags(strings(tags@), strings(wanted@)),
{
    let mut i: usize = 0;
    while i < wanted.len()
        invariant
            i <= wanted.len(),
            forall|k: int| 0 <= k < i ==> has_tag(strings(tags@), #[trigger] strings(wanted@)[k]),
        decreases wanted.len() - i,
    {
        if !holds_tag(tags, wanted[i].as_str()) {
            assert(!has_tag(strings(tags@), strings(wanted@)[i as int]));
            return false;
        }
        i += 1;
    }
    true
}

/// The notes that have every one of the given tags, without regard to the
/// case of ASCII letters.
pub fn filter_notes_by_tags(notes: &[Note], tags: &[String]) -> (r: Vec<Note>)
    ensures
        note_views(r@) == notes_tagged(note_views(notes@), strings(tags@)),
{
    let ghost views = note_views(notes@);
    let mut out: Vec<Note> = Vec::new();
    let mut i: usize = 0;
    assert(views.take(0) =~= Seq::<NoteView>::empty());
    assert(note_views(out@) =~= Seq::<NoteView>::empty());
    while i < notes.len()
        invariant
            i <= notes.len(),
            views == note_views(notes@),
            note_views(out@) == notes_tagged(views.take(i as int), strings(tags@)),
        decreases notes.len() - i,
    {
        proof {
            assert(views.take(i + 1).drop_last() =~= views.take(i as int));
            assert(views.take(i + 1).last() == notes@[i as int]@);
        }
        if holds_all_tags(&notes[i].tags, tags) {
            let ghost before = note_views(out@);
            out.push(notes[i].clone());
            assert(note_views(out@) =~= before.push(notes@[i as int]@));
        }
        i += 1;
    }
    assert(views.take(notes.len() as int) =~= views);
    out
}

// ---------------------------------------------------------------------------
// File names
// ---------------------------------------------------------------------------

/// A character of a file name: a letter or number as it is, a hyphen for
/// anything else.
pub open spec fn file_char(c: char) -> char {
    if alphanumeric(c) {
        c
    } else {
        '-'
    }
}

/// The file name of a note with the given title, without `.md`: the title
/// in lowercase, every run of other characters than letters and numbers
/// turned into one hyphen, none at either end.
pub open spec fn slug(title: Seq<char>) -> Seq<char> {
    join(non_empty(pieces(lowercase(title).map_values(|c: char| file_char(c)), '-')), seq!['-'])
}

/// The path of a note with the given title.
pub open spec fn note_file(title: Seq<char>) -> Seq<char> {
    slug(title) + ".md"@
}

/// The path of a note with the given title: its file name in the root of
/// the notes directory.
pub fn note_path_for(title: &str) -> (r: String)
    ensures
        r@ == note_file(title@),
{
    let lowered = to_lower(&chars_of(title));
    let mut dashed: Vec<char> = Vec::new();
    let mut i: usize = 0;
    while i < lowered.len()
        invariant
            i <= lowered.len(),
            dashed@ =~= lowered@.take(i as int).map_values(|c: char| file_char(c)),
        decreases lowered.len() - i,
    {
        let c = lowered[i];
        if c.is_alphanumeric() {
            dashed.push(c);
        } else {
            dashed.push('-');
        }
        i += 1;
    }
    assert(lowered@.take(lowered.len() as int) =~= lowered@);
    let parts = drop_empty(split_on(&dashed, '-'));
    let name = join_with(&parts, '-');
    let mut out = string_of(&name);
    out.push_str(".md");
    out
}

// ---------------------------------------------------------------------------
// The repository
// ---------------------------------------------------------------------------

/// Whether a file at this path is a note: no component of the path begins
/// with `.`, and the file name ends in `.md`.
pub open spec fn names_note(path: Seq<char>) -> bool {
    !is_hidden(path) && extension(path) == Some("md"@)
}

/// Whether a file at this path is a note.
pub fn is_note_path(path: &str) -> (r: bool)
    ensures
        r == names_note(path@),
{
    let chars = chars_of(path);
    if hidden(&chars) {
        return false;
    }
    match extension_of(&chars) {
        Some(ext) => same_chars(&ext, &chars_of("md")),
        None => false,
    }
}

/// Whether a note is what the storage holds at its path: the path is that
/// of a note, and the note is the file parsed.
pub open spec fn is_stored_note(files: Files, note: NoteView) -> bool {
    &&& files.contains_key(note.path)
    &&& names_note(note.path)
    &&& note == parsed_note(note.path, files[note.path])
}

/// Whether every note of the list is what the storage holds at its path.
pub open spec fn are_stored_notes(files: Files, notes: Seq<NoteView>) -> bool {
    forall|i: int| 0 <= i < notes.len() ==> is_stored_note(files, #[trigger] notes[i])
}

/// What is known of notes that were read from a storage: where the
/// storage keeps account of its files, each note is what it holds at the
/// note's path.
pub open spec fn vouched_notes<S: Storage>(storage: S, notes: Seq<NoteView>) -> bool {
    storage.keeps_account() ==> are_stored_notes(storage.files(), notes)
}

/// The notes of the files at or below `path`, as a walk finds them: none
/// where the path is hidden; those of the entries of a directory, entry
/// by entry; the file itself, parsed, where its name ends in `.md`.
pub open spec fn found_at(files: Files, path: Seq<char>) -> Seq<NoteView>
    decreases usize::MAX - path.len() + 1, 0nat,
{
    if path.len() > usize::MAX || is_hidden(path) {
        Seq::empty()
    } else if is_folder(files, path) {
        found_among(files, listing(files, path), path.len())
    } else if files.contains_key(path) && names_note(path) {
        seq![parsed_note(path, files[path])]
    } else {
        Seq::empty()
    }
}

/// The notes at or below the entries of a directory whose path has
/// `above` characters, in the order of the entries.
pub open spec fn found_among(files: Files, entries: Seq<Seq<char>>, above: nat) -> Seq<NoteView>
    decreases usize::MAX - above, entries.len(),
{
    if entries.len() == 0 {
        Seq::empty()
    } else if above < entries.last().len() <= usize::MAX {
        found_among(files, entries.drop_last(), above) + found_at(files, entries.last())
    } else {
        found_among(files, entries.drop_last(), above)
    }
}

/// The notes of the files: all that a walk from the root finds.
pub open spec fn found(files: Files) -> Seq<NoteView> {
    found_at(files, Seq::empty())
}

/// The notes of a storage.
pub struct Repository<S: Storage> {
    pub storage: S,
}

impl<S: Storage> Repository<S> {
    /// The repository over a storage.
    pub fn new(storage: S) -> (r: Repository<S>)
        ensures
            r.storage == storage,
    {
        Repository { storage }
    }

    /// The storage of the repository.
    pub fn storage(&self) -> (r: &S)
        ensures
            *r == self.storage,
    {
        &self.storage
    }

    /// Adds the notes at or below `path` to `notes`: hidden paths are
    /// passed over, directories are walked, files that end in `.md` are
    /// read and parsed. A file that cannot be read is passed over, and its
    /// path is added to `skipped`; a directory that cannot be listed is an
    /// error. From a storage that keeps account of its files this adds
    /// exactly the notes of the files at or below `path`, passes over
    /// nothing, and never fails.
    fn discover_into(&self, path: &str, notes: &mut Vec<Note>, skipped: &mut Vec<String>) -> (r:
        Result<(), Error>)
        requires
            vouched_notes(self.storage, note_views(old(notes)@)),
        ensures
            r is Err ==> is_storage_error(r->Err_0),
            vouched_notes(self.storage, note_views(final(notes)@)),
            final(notes)@.len() >= old(notes)@.len(),
            final(notes)@.take(old(notes)@.len() as int) == old(notes)@,
            self.storage.keeps_account() ==> r is Ok && note_views(final(notes)@) == note_views(
                old(notes)@,
            ) + found_at(self.storage.files(), path@),
            self.storage.keeps_account() ==> final(skipped)@ == old(skipped)@,
        decreases usize::MAX - path@.len(),
    {
        let path_chars = chars_of(path);
        let ghost files = self.storage.files();
        let ghost start = note_views(notes@);
        assert(path@.len() == path_chars.len() <= usize::MAX);
        if hidden(&path_chars) {
            assert(notes@.take(notes@.len() as int) =~= notes@);
            assert(start + Seq::<NoteView>::empty() =~= start);
            return Ok(());
        }
        if self.storage.is_dir(path) {
            let entries = match self.storage.read_dir(path) {
                Ok(entries) => entries,
                Err(e) => {
                    assert(notes@.take(notes@.len() as int) =~= notes@);
                    return Err(storage_error(e, path));
                },
            };
            let mut i: usize = 0;
            assert(notes@.take(notes@.len() as int) =~= notes@);
            assert(start + found_among(files, strings(entries@).take(0), path@.len()) =~= start);
            while i < entries.len()
                invariant
                    i <= entries.len(),
                    path_chars@ == path@,
                    files == self.storage.files(),
                    start == note_views(old(notes)@),
                    forall|k: int|
                        0 <= k < entries@.len() ==> (#[trigger] entries@[k])@.len() > path@.len(),
                    vouched_notes(self.storage, note_views(notes@)),
                    notes@.len() >= old(notes)@.len(),
                    notes@.take(old(notes)@.len() as int) == old(notes)@,
                    self.storage.keeps_account() ==> note_views(notes@) == start + found_among(
                        files,
                        strings(entries@).take(i as int),
                        path@.len(),
                    ),
                    self.storage.keeps_account() ==> skipped@ == old(skipped)@,
                decreases entries.len() - i,
            {
                let entry = entries[i].as_str();
                let entry_len = chars_of(entry).len();
                let ghost before = notes@;
                let r = self.discover_into(entry, notes, skipped);
                assert(notes@.take(old(notes)@.len() as int) =~= before.take(
                    old(notes)@.len() as int,
                ));
                proof {
                    let listed = strings(entries@);
                    assert(listed.take(i + 1).drop_last() =~= listed.take(i as int));
                    assert(listed.take(i + 1).last() == entry@);
                    if self.storage.keeps_account() {
                        assert(note_views(notes@) =~= start + found_among(
                            files,
                            listed.take(i + 1),
                            path@.len(),
                        ));
                    }
                }
                match r {
                    Ok(()) => {},
                    Err(e) => {
                        return Err(e);
                    },
                }
                i += 1;
            }
            assert(strings(entries@).take(i as int) =~= strings(entries@));
        } else if self.storage.path_exists(path) {
            if is_note_path(path) {
                match self.storage.read_to_string(path) {
                    Ok(content) => match Note::parse(path, content.as_str()) {
                        Ok(note) => {
                            let ghost n = old(notes)@.len() as int;
                            notes.push(note);
                            assert(note_views(notes@) =~= start.push(note@));
                            assert(start.push(note@) =~= start + seq![note@]);
                            assert(notes@.take(n) =~= old(notes)@);
                        },
                        Err(_) => {
                            assert(notes@.take(notes@.len() as int) =~= notes@);
                        },
                    },
                    Err(_) => {
                        assert(notes@.take(notes@.len() as int) =~= notes@);
                        skipped.push(path.to_owned());
                    },
                }
            } else {
                assert(notes@.take(notes@.len() as int) =~= notes@);
                assert(start + Seq::<NoteView>::empty() =~= start);
            }
        } else {
            assert(notes@.take(notes@.len() as int) =~= notes@);
            assert(start + Seq::<NoteView>::empty() =~= start);
        }
        Ok(())
    }

    /// All notes of the storage: every file below the root whose path is
    /// not hidden and ends in `.md`, parsed. Each note returned is what the
    /// storage holds at its path; a file that cannot be read is left out.
    /// From a storage that keeps account of its files these are exactly the
    /// notes of its files, in the order of their paths, and the call never
    /// fails.
    pub fn discover_notes(&self) -> (r: Result<Vec<Note>, Error>)
        ensures
            r is Ok ==> vouched_notes(self.storage, note_views(r->Ok_0@)),
            r is Err ==> is_storage_error(r->Err_0),
            self.storage.keeps_account() ==> r is Ok && note_views(r->Ok_0@) == found(
                self.storage.files(),
            ),
    {
        match self.discover_with_skipped() {
            Ok((notes, _)) => Ok(notes),
            Err(e) => Err(e),
        }
    }

    /// All notes of the storage, as `discover_notes` gives them, and with
    /// them the paths of the files that were passed over because they
    /// could not be read. A storage that keeps account of its files has
    /// none of those.
    pub fn discover_with_skipped(&self) -> (r: Result<(Vec<Note>, Vec<String>), Error>)
        ensures
            r is Ok ==> vouched_notes(self.storage, note_views(r->Ok_0.0@)),
            r is Err ==> is_storage_error(r->Err_0),
            self.storage.keeps_account() ==> r is Ok && note_views(r->Ok_0.0@) == found(
                self.storage.files(),
            ) && r->Ok_0.1@.len() == 0,
    {
        let mut notes: Vec<Note> = Vec::new();
        let mut skipped: Vec<String> = Vec::new();
        proof {
            reveal_strlit("");
            assert(""@ =~= Seq::<char>::empty());
            assert(note_views(notes@) + found(self.storage.files()) =~= found(
                self.storage.files(),
            ));
        }
        match self.discover_into("", &mut notes, &mut skipped) {
            Ok(()) => Ok((notes, skipped)),
            Err(e) => Err(e),
        }
    }

    /// The notes whose title is `title`, without regard to case.
    pub fn find_by_title(&self, title: &str) -> (r: Result<Vec<Note>, Error>)
        ensures
            r is Err ==> is_storage_error(r->Err_0),
            r is Ok ==> exists|notes: Seq<NoteView>|
                vouched_notes(self.storage, notes) && note_views(r->Ok_0@)
                    == notes_titled(notes, title@),
            self.storage.keeps_account() ==> r is Ok && note_views(r->Ok_0@) == notes_titled(
                found(self.storage.files()),
                title@,
            ),
    {
        match self.discover_notes() {
            Ok(notes) => {
                let found = find_notes_by_title(notes.as_slice(), title);
                assert(vouched_notes(self.storage, note_views(notes@)) && note_views(
                    found@,
                ) == notes_titled(note_views(notes@), title@));
                Ok(found)
            },
            Err(e) => Err(e),
        }
    }

    /// Searches all notes for `query`. The empty query matches nothing.
    pub fn search(&self, query: &str) -> (r: Result<Vec<SearchMatch>, Error>)
        ensures
            r is Err ==> is_storage_error(r->Err_0),
            r is Ok ==> exists|notes: Seq<NoteView>|
                vouched_notes(self.storage, notes) && search_match_views(r->Ok_0@)
                    == search_results(notes, query@),
            r is Ok && query@.len() == 0 ==> r->Ok_0@.len() == 0,
            self.storage.keeps_account() ==> r is Ok && search_match_views(r->Ok_0@)
                == search_results(found(self.storage.files()), query@),
    {
        match self.discover_notes() {
            Ok(notes) => {
                let found = search_notes(notes.as_slice(), query);
                assert(vouched_notes(self.storage, note_views(notes@))
                    && search_match_views(found@) == search_results(note_views(notes@), query@));
                Ok(found)
            },
            Err(e) => Err(e),
        }
    }

    /// The notes that have every one of the given tags.
    pub fn filter_by_tags(&self, tags: &[String]) -> (r: Result<Vec<Note>, Error>)
        ensures
            r is Err ==> is_storage_error(r->Err_0),
            r is Ok ==> exists|notes: Seq<NoteView>|
                vouched_notes(self.storage, notes) && note_views(r->Ok_0@)
                    == notes_tagged(notes, strings(tags@)),
            self.storage.keeps_account() ==> r is Ok && note_views(r->Ok_0@) == notes_tagged(
                found(self.storage.files()),
                strings(tags@),
            ),
    {
        match self.discover_notes() {
            Ok(notes) => {
                let found = filter_notes_by_tags(notes.as_slice(), tags);
                assert(vouched_notes(self.storage, note_views(notes@)) && note_views(
                    found@,
                ) == notes_tagged(note_views(notes@), strings(tags@)));
                Ok(found)
            },
            Err(e) => Err(e),
        }
    }

    /// Creates a note with the given title from a template, and returns
    /// its path. The template is the file `<name>.md` of the template
    /// directory where the storage has it, else the template of that name
    /// that the library carries; the name is `default` where none is given.
    ///
    /// Fails with `NoteExists` where the storage has something at the path
    /// of the note, with `TemplateNotFound` where neither the storage nor
    /// the library has the template, and where the storage fails. A call
    /// that fails leaves the files as they were. On a storage that keeps
    /// account of its files nothing else makes it fail.
    pub fn create_note(&mut self, title: &str, template_dir: &str, template_name: Option<&str>) -> (r:
        Result<String, Error>)
        ensures
            final(self).storage.keeps_account() == old(self).storage.keeps_account(),
            match r {
                Ok(path) => path@ == note_file(title@),
                Err(e) => (old(self).storage.keeps_account() ==> final(self).storage.files()
                    == old(self).storage.files()) && match e {
                    Error::NoteExists(path) => path@ == note_file(title@),
                    Error::TemplateNotFound(name) => name@ == template_name_or_default(
                        template_name,
                    ) && embedded_template(name@) is None,
                    _ => is_storage_error(e),
                },
            },
            old(self).storage.keeps_account() ==> note_creation(
                old(self).storage.files(),
                final(self).storage.files(),
                template_dir@,
                template_name_or_default(template_name),
                title@,
                r,
            ),
    {
        let note_path = note_path_for(title);
        if self.storage.path_exists(note_path.as_str()) {
            return Err(Error::NoteExists(note_path));
        }
        let name = match template_name {
            Some(name) => name,
            None => "default",
        };
        let mut file_name = name.to_owned();
        file_name.push_str(".md");
        let template_path = join_path(template_dir, file_name.as_str());
        let template = if self.storage.path_exists(template_path.as_str()) {
            match self.storage.read_to_string(template_path.as_str()) {
                Ok(text) => text,
                Err(e) => {
                    return Err(storage_error(e, template_path.as_str()));
                },
            }
        } else {
            match get_embedded_template(name) {
                Some(text) => text.to_owned(),
                None => {
                    return Err(Error::TemplateNotFound(name.to_owned()));
                },
            }
        };
        let (date, datetime) = today_and_now();
        let content = render_template_at(
            template.as_str(),
            title,
            date.as_str(),
            datetime.as_str(),
            None,
        );
        match self.storage.write(note_path.as_str(), content.as_str()) {
            Ok(()) => {
                assert(old(self).storage.keeps_account() ==> filled_in(
                    old(self).storage.files(),
                    self.storage.files(),
                    note_path@,
                    template@,
                    title@,
                    date@,
                    datetime@,
                ));
                Ok(note_path)
            },
            Err(e) => Err(storage_error(e, note_path.as_str())),
        }
    }
}

/// The template of the given name: the file `<name>.md` of the template
/// directory where the files have it, else the template of that name that
/// the library carries, if it carries one.
pub open spec fn template_of(files: Files, template_dir: Seq<char>, name: Seq<char>) -> Option<
    Seq<char>,
> {
    let path = joined(template_dir, name + ".md"@);
    if files.contains_key(path) {
        Some(files[path])
    } else {
        embedded_template(name)
    }
}

/// Whether the files after the call are those before it with the note at
/// `path` added: the template filled in with the title and some date and
/// time.
pub open spec fn note_added(
    before: Files,
    after: Files,
    path: Seq<char>,
    template: Seq<char>,
    title: Seq<char>,
) -> bool {
    exists|date: Seq<char>, datetime: Seq<char>| #[trigger]
        filled_in(before, after, path, template, title, date, datetime)
}

/// Whether the files after the call are those before it with the note at
/// `path` added: the template filled in with the title, the date and the
/// time.
pub open spec fn filled_in(
    before: Files,
    after: Files,
    path: Seq<char>,
    template: Seq<char>,
    title: Seq<char>,
    date: Seq<char>,
    datetime: Seq<char>,
) -> bool {
    after == before.insert(path, rendered(template, title, date, datetime, no_tasks()))
}

/// How creating a note ends on files that are all there is: with
/// `NoteExists` where a file is at the path of the note already; else
/// with `TemplateNotFound` where there is no template of the name; else
/// with the path of the note, which is added to the files. A call that
/// fails leaves the files as they were.
pub open spec fn note_creation(
    before: Files,
    after: Files,
    template_dir: Seq<char>,
    name: Seq<char>,
    title: Seq<char>,
    r: Result<String, Error>,
) -> bool {
    let path = note_file(title);
    match r {
        Ok(made) => made@ == path && !before.contains_key(path) && template_of(
            before,
            template_dir,
            name,
        ) is Some && note_added(
            before,
            after,
            path,
            template_of(before, template_dir, name)->0,
            title,
        ),
        Err(Error::NoteExists(at)) => at@ == path && before.contains_key(path) && after == before,
        Err(Error::TemplateNotFound(asked)) => asked@ == name && !before.contains_key(path)
            && template_of(before, template_dir, name) is None && after == before,
        Err(_) => false,
    }
}

/// The name of the template that is used: the one given, or `default`.
pub open spec fn template_name_or_default(template_name: Option<&str>) -> Seq<char> {
    match template_name {
        Some(name) => name@,
        None => "default"@,
    }
}

} // verus!
