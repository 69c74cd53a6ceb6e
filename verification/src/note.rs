//! Notes: one markdown file each, with the metadata recovered from its text.

use crate::error::Error;
use crate::frontmatter::{body_of, extract_frontmatter, note_frontmatter};
use crate::markdown::{markdown_spans, parse_markdown, span_models, EventModel, MdEvent, SpanModel};
use crate::path::{file_stem, lemma_after_last, stem_of, file_name};
use crate::task::strings;
use crate::text::{chars_of, clone_strings, string_of};
use vstd::prelude::*;

verus! {

/// A point in time: seconds since 1970-01-01T00:00:00Z, and the nanoseconds
/// within that second.
#[derive(Debug, Clone, Copy, PartialEq, Eq, Structural)]
pub struct Timestamp {
    pub seconds: i64,
    pub nanos: u32,
}

/// A note, as parsed from one file.
#[derive(Debug, PartialEq, Eq)]
pub struct Note {
    /// The path of the file, relative to the notes directory, with `/`
    /// between its components.
    pub path: String,
    /// Never empty for a note that [`Note::parse`] made.
    pub title: String,
    pub tags: Vec<String>,
    pub created: Option<Timestamp>,
    pub updated: Option<Timestamp>,
    /// The whole text of the file, metadata block included.
    pub content: String,
}

/// The mathematical value of a [`Note`].
pub struct NoteView {
    pub path: Seq<char>,
    pub title: Seq<char>,
    pub tags: Seq<Seq<char>>,
    pub created: Option<Timestamp>,
    pub updated: Option<Timestamp>,
    pub content: Seq<char>,
}

impl View for Note {
    type V = NoteView;

    open spec fn view(&self) -> NoteView {
        NoteView {
            path: self.path@,
            title: self.title@,
            tags: strings(self.tags@),
            created: self.created,
            updated: self.updated,
            content: self.content@,
        }
    }
}

impl Clone for Note {
    fn clone(&self) -> (r: Note)
        ensures
            r@ == self@,
    {
        let tags = clone_strings(&self.tags);
        assert(strings(tags@) =~= strings(self.tags@));
        Note {
            path: self.path.clone(),
            title: self.title.clone(),
            tags,
            created: self.created,
            updated: self.updated,
            content: self.content.clone(),
        }
    }
}

/// The values of a list of notes.
pub open spec fn note_views(notes: Seq<Note>) -> Seq<NoteView> {
    notes.map_values(|n: Note| n@)
}

// ---------------------------------------------------------------------------
// The first heading
// ---------------------------------------------------------------------------

/// The state of the scan for the first level-1 heading: whether such a
/// heading is open, the text gathered in such headings, and the heading
/// once it is found.
pub struct TitleScan {
    pub inside: bool,
    pub text: Seq<char>,
    pub found: Option<Seq<char>>,
}

/// One step of the scan. The first level-1 heading that closes with text
/// gathered is the one looked for; nothing changes after it.
pub open spec fn title_step(state: TitleScan, event: EventModel) -> TitleScan {
    if state.found is Some {
        state
    } else {
        match event {
            EventModel::HeadingStart(level) => if level == 1 {
                TitleScan { inside: true, ..state }
            } else {
                state
            },
            EventModel::HeadingEnd(level) => if level == 1 {
                if state.text.len() > 0 {
                    TitleScan { found: Some(state.text), ..state }
                } else {
                    TitleScan { inside: false, ..state }
                }
            } else {
                state
            },
            EventModel::Text(t) => if state.inside {
                TitleScan { text: state.text + t, ..state }
            } else {
                state
            },
            _ => state,
        }
    }
}

pub open spec fn title_scan(spans: Seq<SpanModel>) -> TitleScan
    decreases spans.len(),
{
    if spans.len() == 0 {
        TitleScan { inside: false, text: Seq::empty(), found: None }
    } else {
        title_step(title_scan(spans.drop_last()), spans.last().event)
    }
}

/// The text of the first level-1 heading of a markdown text that has any.
pub open spec fn first_h1(body: Seq<char>) -> Option<Seq<char>> {
    title_scan(markdown_spans(body)).found
}

/// The text of the first level-1 heading of `body` that is not empty.
pub fn extract_first_h1(body: &str) -> (r: Option<String>)
    ensures
        match r {
            Some(h) => first_h1(body@) == Some(h@) && h@.len() > 0,
            None => first_h1(body@) is None,
        },
{
    let spans = parse_markdown(body);
    let ghost model = span_models(spans@);
    let mut inside = false;
    let mut text = String::new();
    let mut i: usize = 0;
    assert(model.take(0) =~= Seq::<SpanModel>::empty());
    while i < spans.len()
        invariant
            i <= spans.len(),
            model == span_models(spans@),
            model == markdown_spans(body@),
            title_scan(model.take(i as int)) == (TitleScan { inside, text: text@, found: None }),
        decreases spans.len() - i,
    {
        proof {
            assert(model.take(i + 1).drop_last() =~= model.take(i as int));
            assert(model.take(i + 1).last() == spans@[i as int]@);
        }
        match &spans[i].event {
            MdEvent::HeadingStart(level) => {
                if *level == 1 {
                    inside = true;
                }
            },
            MdEvent::HeadingEnd(level) => {
                if *level == 1 {
                    if chars_of(text.as_str()).len() > 0 {
                        proof {
                            lemma_found_stays(model, i + 1);
                        }
                        return Some(text);
                    }
                    inside = false;
                }
            },
            MdEvent::Text(t) => {
                if inside {
                    text.push_str(t.as_str());
                }
            },
            _ => {},
        }
        i += 1;
    }
    assert(model.take(spans.len() as int) =~= model);
    None
}

/// Once the heading is found, the rest of the events changes nothing.
proof fn lemma_found_stays(spans: Seq<SpanModel>, n: int)
    requires
        0 <= n <= spans.len(),
        title_scan(spans.take(n)).found is Some,
    ensures
        title_scan(spans) == title_scan(spans.take(n)),
    decreases spans.len() - n,
{
    if n < spans.len() {
        assert(spans.take(n + 1).drop_last() =~= spans.take(n));
        lemma_found_stays(spans, n + 1);
    } else {
        assert(spans.take(n) =~= spans);
    }
}

// ---------------------------------------------------------------------------
// Parsing a note
// ---------------------------------------------------------------------------

/// The title that is used where nothing else gives one.
pub open spec fn untitled() -> Seq<char> {
    "Untitled"@
}

/// The title of a note: the title of its metadata, if that is not empty;
/// else its first level-1 heading; else the stem of its file name; else
/// `Untitled`.
pub open spec fn resolved_title(path: Seq<char>, content: Seq<char>) -> Seq<char> {
    let fm = note_frontmatter(content);
    if fm is Some && fm->0.title is Some && fm->0.title->0.len() > 0 {
        fm->0.title->0
    } else {
        match first_h1(body_of(content)) {
            Some(heading) => heading,
            None => match file_stem(path) {
                Some(stem) => stem,
                None => untitled(),
            },
        }
    }
}

/// The note that a file gives.
pub open spec fn parsed_note(path: Seq<char>, content: Seq<char>) -> NoteView {
    let fm = note_frontmatter(content);
    NoteView {
        path,
        title: resolved_title(path, content),
        tags: match fm {
            Some(f) => f.tags,
            None => Seq::empty(),
        },
        created: match fm {
            Some(f) => f.created,
            None => None,
        },
        updated: match fm {
            Some(f) => f.updated,
            None => None,
        },
        content,
    }
}

/// The stem of a file name is never empty.
pub proof fn lemma_file_stem_not_empty(path: Seq<char>)
    ensures
        file_stem(path) is Some ==> file_stem(path)->0.len() > 0,
{
    let name = file_name(path);
    lemma_after_last(name, '.');
}

impl Note {
    /// Parses the text of a file into a note. This never fails: a metadata
    /// block that is malformed counts as absent. The title is the title of
    /// the metadata, else the first level-1 heading of the body, else the
    /// stem of the file name; tags and timestamps are those of the metadata.
    pub fn parse(path: &str, content: &str) -> (r: Result<Note, Error>)
        ensures
            r is Ok,
            r->Ok_0@ == parsed_note(path@, content@),
            r->Ok_0.title@.len() > 0,
    {
        let (frontmatter, body) = extract_frontmatter(content);
        let mut title: Option<String> = None;
        let mut tags: Vec<String> = Vec::new();
        let mut created: Option<Timestamp> = None;
        let mut updated: Option<Timestamp> = None;
        assert(strings(tags@) =~= Seq::<Seq<char>>::empty());
        match frontmatter {
            Some(fm) => {
                match fm.title {
                    Some(t) => {
                        if chars_of(t.as_str()).len() > 0 {
                            title = Some(t);
                        }
                    },
                    None => {},
                }
                tags = fm.tags;
                created = fm.created;
                updated = fm.updated;
            },
            None => {},
        }
        let title = match title {
            Some(t) => t,
            None => match extract_first_h1(body.as_str()) {
                Some(h) => h,
                None => {
                    proof {
                        lemma_file_stem_not_empty(path@);
                    }
                    match stem_of(&chars_of(path)) {
                        Some(stem) => string_of(&stem),
                        None => {
                            proof {
                                reveal_strlit("Untitled");
                            }
                            "Untitled".to_owned()
                        },
                    }
                },
            },
        };
        Ok(
            Note {
                path: path.to_owned(),
                title,
                tags,
                created,
                updated,
                content: content.to_owned(),
            },
        )
    }
}

} // verus!
