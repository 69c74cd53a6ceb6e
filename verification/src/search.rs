//! Full-text search with context: for each hit in the text of a note, the
//! headings above it and a snippet around it.
//!
//! Matching is by case: query and text are both lowercased first. All
//! positions count characters.

use crate::listmap::{ListMap, Lists};
use crate::markdown::{
    markdown_spans, parse_markdown, span_models, EventModel, MdEvent, MdSpan, SpanModel,
};
use crate::note::{note_views, Note, NoteView};
use crate::task::strings;
use crate::text::{
    char_offset, char_offset_of, chars_of, clone_strings, copy_range, find_from, first_occurrence,
    lemma_first_occurrence, lowercase, push_all, push_str_chars, skip_spaces, skip_spaces_back,
    skip_word, skip_word_back, string_of, to_lower, trailing_word_len, trim, trim_end, trim_start,
    trimmed, word_len,
};
use vstd::prelude::*;

verus! {

// ---------------------------------------------------------------------------
// Headings
// ---------------------------------------------------------------------------

/// A heading that is still open: its level and its formatted text.
pub struct OpenHeading {
    pub level: u8,
    pub title: String,
}

/// `n` hash marks.
pub open spec fn hashes(n: nat) -> Seq<char> {
    Seq::new(n, |i: int| '#')
}

/// A heading as a breadcrumb shows it: its hash marks, a space, its text
/// trimmed.
pub open spec fn formatted_heading(level: u8, text: Seq<char>) -> Seq<char> {
    hashes(level as nat) + seq![' '] + trim(text)
}

/// The headings of `stack` that stay open under a heading of `level`: those
/// of a lower level.
pub open spec fn still_open(stack: Seq<(u8, Seq<char>)>, level: u8) -> Seq<(u8, Seq<char>)>
    decreases stack.len(),
{
    if stack.len() == 0 {
        Seq::empty()
    } else {
        let prev = still_open(stack.drop_last(), level);
        if stack.last().0 < level {
            prev.push(stack.last())
        } else {
            prev
        }
    }
}

/// The formatted texts of a stack of headings.
pub open spec fn stack_titles(stack: Seq<(u8, Seq<char>)>) -> Seq<Seq<char>> {
    stack.map_values(|h: (u8, Seq<char>)| h.1)
}

/// The state of the walk over the headings of a document.
pub struct HeadingScan {
    /// Whether a heading is open.
    pub inside: bool,
    /// The level of the heading that opened last.
    pub level: u8,
    /// The text gathered for it.
    pub text: Seq<char>,
    /// The headings that are open above the current position.
    pub stack: Seq<(u8, Seq<char>)>,
    /// The path of each heading seen, by its formatted text.
    pub paths: Lists,
    /// For each heading seen, the byte offset of its end and its path.
    pub positions: Seq<(int, Seq<Seq<char>>)>,
}

/// One step of the walk. A heading counts when it closes, and only with a
/// text that is not empty: the headings of its level or deeper leave the
/// stack, its path is the stack and itself, and it enters the stack.
pub open spec fn heading_step(state: HeadingScan, span: SpanModel) -> HeadingScan {
    match span.event {
        EventModel::HeadingStart(level) => HeadingScan {
            inside: true,
            level,
            text: Seq::empty(),
            ..state
        },
        EventModel::Text(t) => if state.inside {
            HeadingScan { text: state.text + t, ..state }
        } else {
            state
        },
        EventModel::HeadingEnd(_) => if state.inside && state.text.len() > 0 {
            let open = still_open(state.stack, state.level);
            let title = formatted_heading(state.level, state.text);
            HeadingScan {
                inside: false,
                stack: open.push((state.level, title)),
                paths: state.paths.insert(title, stack_titles(open).push(title)),
                positions: state.positions.push((span.end, stack_titles(open).push(title))),
                ..state
            }
        } else {
            HeadingScan { inside: false, ..state }
        },
        _ => state,
    }
}

/// The walk over a whole event list.
pub open spec fn heading_scan(spans: Seq<SpanModel>) -> HeadingScan
    decreases spans.len(),
{
    if spans.len() == 0 {
        HeadingScan {
            inside: false,
            level: 1,
            text: Seq::empty(),
            stack: Seq::empty(),
            paths: Map::empty(),
            positions: Seq::empty(),
        }
    } else {
        heading_step(heading_scan(spans.drop_last()), spans.last())
    }
}

/// The path of each heading of a document, by the heading's formatted text:
/// the headings open above it, outermost first, and itself. Of two headings
/// with one text the later one counts.
pub open spec fn heading_paths(content: Seq<char>) -> Lists {
    heading_scan(markdown_spans(content)).paths
}

/// For each heading of a document, in order: the character offset of its
/// end, and its path: the headings open above it, outermost first, and
/// itself.
pub open spec fn heading_positions(content: Seq<char>) -> Seq<(int, Seq<Seq<char>>)> {
    let found = heading_scan(markdown_spans(content)).positions;
    found.map_values(|p: (int, Seq<Seq<char>>)| (char_offset(content, p.0) as int, p.1))
}

/// The formatted text of a heading.
fn format_heading(level: u8, text: &Vec<char>) -> (r: Vec<char>)
    ensures
        r@ == formatted_heading(level, text@),
{
    let mut out: Vec<char> = Vec::new();
    let mut i: u8 = 0;
    while i < level
        invariant
            i <= level,
            out@ == hashes(i as nat),
        decreases level - i,
    {
        out.push('#');
        assert(out@ =~= hashes((i + 1) as nat));
        i += 1;
    }
    out.push(' ');
    let t = trimmed(text);
    push_all(&mut out, &t);
    assert(out@ =~= formatted_heading(level, text@));
    out
}

/// The values of a stack of open headings.
pub open spec fn stack_model(stack: Seq<OpenHeading>) -> Seq<(u8, Seq<char>)> {
    stack.map_values(|h: OpenHeading| (h.level, h.title@))
}

/// Drops the headings of `level` or deeper from `stack`, and returns the
/// titles of those that stay.
fn close_headings(stack: Vec<OpenHeading>, level: u8) -> (r: (Vec<OpenHeading>, Vec<String>))
    ensures
        stack_model(r.0@) == still_open(stack_model(stack@), level),
        strings(r.1@) == stack_titles(still_open(stack_model(stack@), level)),
{
    let ghost model = stack_model(stack@);
    let mut kept: Vec<OpenHeading> = Vec::new();
    let mut titles: Vec<String> = Vec::new();
    let mut i: usize = 0;
    assert(model.take(0) =~= Seq::<(u8, Seq<char>)>::empty());
    assert(stack_model(kept@) =~= Seq::<(u8, Seq<char>)>::empty());
    assert(strings(titles@) =~= stack_titles(Seq::<(u8, Seq<char>)>::empty()));
    while i < stack.len()
        invariant
            i <= stack.len(),
            model == stack_model(stack@),
            stack_model(kept@) == still_open(model.take(i as int), level),
            strings(titles@) == stack_titles(stack_model(kept@)),
        decreases stack.len() - i,
    {
        proof {
            assert(model.take(i + 1).drop_last() =~= model.take(i as int));
            assert(model.take(i + 1).last() == (stack@[i as int].level, stack@[i as int].title@));
        }
        if stack[i].level < level {
            let h = OpenHeading { level: stack[i].level, title: stack[i].title.clone() };
            let t = stack[i].title.clone();
            proof {
                assert(stack_model(kept@.push(h)) =~= stack_model(kept@).push((h.level, h.title@)));
                assert(strings(titles@.push(t)) =~= strings(titles@).push(t@));
                assert(stack_titles(stack_model(kept@).push((h.level, h.title@))) =~= stack_titles(
                    stack_model(kept@),
                ).push(h.title@));
            }
            kept.push(h);
            titles.push(t);
        }
        i += 1;
    }
    assert(model.take(stack.len() as int) =~= model);
    (kept, titles)
}

/// Walks the headings of `content`. Returns the path of each heading by its
/// formatted text, and the byte offset of each heading's end with its path.
fn walk_headings(spans: &Vec<MdSpan>) -> (r: (ListMap, Vec<(usize, Vec<String>)>))
    ensures
        r.0.wf(),
        r.0@ == heading_scan(span_models(spans@)).paths,
        positions_model(r.1@) == heading_scan(span_models(spans@)).positions,
{
    let ghost model = span_models(spans@);
    let mut paths = ListMap::new();
    let mut positions: Vec<(usize, Vec<String>)> = Vec::new();
    let mut stack: Vec<OpenHeading> = Vec::new();
    let mut inside = false;
    let mut level: u8 = 1;
    let mut text: Vec<char> = Vec::new();
    let mut i: usize = 0;
    assert(model.take(0) =~= Seq::<SpanModel>::empty());
    assert(stack_model(stack@) =~= Seq::<(u8, Seq<char>)>::empty());
    assert(positions_model(positions@) =~= Seq::<(int, Seq<Seq<char>>)>::empty());
    while i < spans.len()
        invariant
            i <= spans.len(),
            model == span_models(spans@),
            paths.wf(),
            heading_scan(model.take(i as int)) == (HeadingScan {
                inside,
                level,
                text: text@,
                stack: stack_model(stack@),
                paths: paths@,
                positions: positions_model(positions@),
            }),
        decreases spans.len() - i,
    {
        proof {
            assert(model.take(i + 1).drop_last() =~= model.take(i as int));
            assert(model.take(i + 1).last() == spans@[i as int]@);
        }
        match &spans[i].event {
            MdEvent::HeadingStart(l) => {
                inside = true;
                level = *l;
                text = Vec::new();
            },
            MdEvent::Text(t) => {
                if inside {
                    push_str_chars(&mut text, t.as_str());
                }
            },
            MdEvent::HeadingEnd(_) => {
                if inside && text.len() > 0 {
                    let title_chars = format_heading(level, &text);
                    let title = string_of(&title_chars);
                    let (open, mut path) = close_headings(stack, level);
                    let ghost open_titles = strings(path@);
                    path.push(title.clone());
                    assert(strings(path@) =~= open_titles.push(title@));
                    let crumbs = clone_strings(&path);
                    assert(strings(crumbs@) =~= strings(path@));
                    paths.insert(title.as_str(), path);
                    stack = open;
                    let ghost old_stack = stack_model(stack@);
                    stack.push(OpenHeading { level, title: title.clone() });
                    assert(stack_model(stack@) =~= old_stack.push((level, title@)));
                    let ghost old_positions = positions_model(positions@);
                    positions.push((spans[i].end, crumbs));
                    assert(positions_model(positions@) =~= old_positions.push(
                        (spans@[i as int].end as int, strings(crumbs@)),
                    ));
                }
                inside = false;
            },
            _ => {},
        }
        i += 1;
    }
    assert(model.take(spans.len() as int) =~= model);
    (paths, positions)
}

/// The values of a list of heading positions.
pub open spec fn positions_model(v: Seq<(usize, Vec<String>)>) -> Seq<(int, Seq<Seq<char>>)> {
    v.map_values(|p: (usize, Vec<String>)| (p.0 as int, strings(p.1@)))
}

/// The path of each heading of `content`, by the heading's formatted text
/// (`## Section`): the headings open above it, outermost first, and itself.
pub fn build_heading_breadcrumbs(content: &str) -> (r: ListMap)
    ensures
        r.wf(),
        r@ == heading_paths(content@),
{
    let spans = parse_markdown(content);
    walk_headings(&spans).0
}

/// For each heading of `content`, in order: the character offset at which it
/// ends and its path. From that offset on, the path is the active breadcrumb.
pub fn build_heading_positions(content: &str) -> (r: Vec<(usize, Vec<String>)>)
    ensures
        positions_model(r@) == heading_positions(content@),
{
    let spans = parse_markdown(content);
    let found = walk_headings(&spans).1;
    let chars = chars_of(content);
    let ghost raw = positions_model(found@);
    let ghost goal = raw.map_values(
        |p: (int, Seq<Seq<char>>)| (char_offset(content@, p.0) as int, p.1),
    );
    let mut out: Vec<(usize, Vec<String>)> = Vec::new();
    let mut i: usize = 0;
    while i < found.len()
        invariant
            i <= found.len(),
            chars@ == content@,
            raw == positions_model(found@),
            goal == raw.map_values(
                |p: (int, Seq<Seq<char>>)| (char_offset(content@, p.0) as int, p.1),
            ),
            positions_model(out@) =~= goal.take(i as int),
        decreases found.len() - i,
    {
        let at = char_offset_of(&chars, found[i].0);
        let crumbs = clone_strings(&found[i].1);
        assert(strings(crumbs@) =~= strings(found@[i as int].1@));
        let ghost before = positions_model(out@);
        out.push((at, crumbs));
        assert(positions_model(out@) =~= before.push((at as int, strings(crumbs@))));
        assert(goal[i as int] == (at as int, strings(crumbs@)));
        i += 1;
    }
    assert(goal.take(found.len() as int) =~= goal);
    out
}

// ---------------------------------------------------------------------------
// Breadcrumbs
// ---------------------------------------------------------------------------

/// The breadcrumb of a position above every heading.
pub open spec fn document_start() -> Seq<char> {
    "Document Start"@
}

/// The breadcrumb that is active at `pos`: the path of the last heading that
/// ends at or before `pos`, or the one breadcrumb `Document Start`.
pub open spec fn breadcrumb_at(positions: Seq<(int, Seq<Seq<char>>)>, pos: int) -> Seq<Seq<char>>
    decreases positions.len(),
{
    if positions.len() == 0 {
        seq![document_start()]
    } else if positions.last().0 <= pos {
        positions.last().1
    } else {
        breadcrumb_at(positions.drop_last(), pos)
    }
}

/// The breadcrumb that is active at `pos`, given the ends and paths of the
/// headings: the path of the last heading that ends at or before `pos`; the
/// one breadcrumb `Document Start` where there is none.
pub fn get_breadcrumb_at_position(positions: &[(usize, Vec<String>)], pos: usize) -> (r: Vec<
    String,
>)
    ensures
        strings(r@) == breadcrumb_at(positions_model(positions@), pos as int),
{
    let ghost model = positions_model(positions@);
    let mut i: usize = positions.len();
    assert(model.take(i as int) =~= model);
    while i > 0
        invariant
            i <= positions.len(),
            model == positions_model(positions@),
            breadcrumb_at(model, pos as int) == breadcrumb_at(model.take(i as int), pos as int),
        decreases i,
    {
        proof {
            assert(model.take(i as int).drop_last() =~= model.take(i - 1));
            assert(model.take(i as int).last() == (
                positions@[i - 1].0 as int,
                strings(positions@[i - 1].1@),
            ));
        }
        if positions[i - 1].0 <= pos {
            let r = clone_strings(&positions[i - 1].1);
            assert(strings(r@) =~= strings(positions@[i - 1].1@));
            return r;
        }
        i -= 1;
    }
    let mut r: Vec<String> = Vec::new();
    let s = "Document Start".to_owned();
    r.push(s);
    assert(strings(r@) =~= seq![document_start()]);
    r
}

// ---------------------------------------------------------------------------
// Snippets
// ---------------------------------------------------------------------------

/// The mark of a snippet that was cut.
pub open spec fn ellipsis() -> Seq<char> {
    "..."@
}

/// Where the window around a match ends: `context` characters after the
/// match, or at the end of the text.
pub open spec fn window_end(len: int, pos: int, query_len: int, context: int) -> int {
    if pos + query_len + context < len {
        pos + query_len + context
    } else {
        len
    }
}

/// Where the window around a match starts: `context` characters before the
/// match, or at the start of the text; never after the window's end.
pub open spec fn window_start(len: int, pos: int, query_len: int, context: int) -> int {
    let start = if pos >= context {
        pos - context
    } else {
        0
    };
    if start < window_end(len, pos, query_len, context) {
        start
    } else {
        window_end(len, pos, query_len, context)
    }
}

/// A window whose start was cut: it now begins with the first word that
/// follows whitespace. A window without whitespace stays.
pub open spec fn cut_front(w: Seq<char>) -> Seq<char> {
    if word_len(w) < w.len() {
        trim_start(w.skip(word_len(w) as int))
    } else {
        w
    }
}

/// A window whose end was cut: it now ends with the last word that is
/// followed by whitespace. A window without whitespace stays.
pub open spec fn cut_back(w: Seq<char>) -> Seq<char> {
    if trailing_word_len(w) < w.len() {
        trim_end(w.take(w.len() - trailing_word_len(w)))
    } else {
        w
    }
}

/// The snippet around the match of `query_len` characters at `pos`: the
/// window of `context` characters to either side, cut back to whole words
/// on each side where the text goes on, and marked with an ellipsis there.
pub open spec fn snippet_of(content: Seq<char>, pos: int, query_len: int, context: int) -> Seq<
    char,
> {
    let start = window_start(content.len() as int, pos, query_len, context);
    let end = window_end(content.len() as int, pos, query_len, context);
    let window = content.subrange(start, end);
    let front = if start > 0 {
        cut_front(window)
    } else {
        window
    };
    let both = if end < content.len() {
        cut_back(front)
    } else {
        front
    };
    (if start > 0 {
        ellipsis()
    } else {
        Seq::empty()
    }) + both + (if end < content.len() {
        ellipsis()
    } else {
        Seq::empty()
    })
}

/// The snippet around a match, on characters.
pub fn snippet_chars(content: &Vec<char>, match_pos: usize, query_len: usize, context: usize) -> (r:
    Vec<char>)
    ensures
        r@ == snippet_of(content@, match_pos as int, query_len as int, context as int),
{
    let len = content.len();
    let end: usize = if match_pos >= len {
        len
    } else if query_len >= len - match_pos {
        len
    } else if context >= len - match_pos - query_len {
        len
    } else {
        match_pos + query_len + context
    };
    let start0: usize = if match_pos >= context {
        match_pos - context
    } else {
        0
    };
    let start: usize = if start0 < end {
        start0
    } else {
        end
    };
    assert(end == window_end(len as int, match_pos as int, query_len as int, context as int));
    assert(start == window_start(len as int, match_pos as int, query_len as int, context as int));
    let window = copy_range(content, start, end);
    let front = if start > 0 {
        let space = skip_word(&window, 0);
        assert(window@.skip(0) =~= window@);
        if space < window.len() {
            let word = skip_spaces(&window, space);
            let cut = copy_range(&window, word, window.len());
            assert(cut@ =~= trim_start(window@.skip(space as int)));
            cut
        } else {
            window
        }
    } else {
        window
    };
    let both = if end < len {
        let space = skip_word_back(&front, front.len());
        assert(front@.take(front.len() as int) =~= front@);
        if space > 0 {
            let word = skip_spaces_back(&front, space);
            let cut = copy_range(&front, 0, word);
            assert(cut@ =~= trim_end(front@.take(space as int)));
            cut
        } else {
            front
        }
    } else {
        front
    };
    let mut out: Vec<char> = Vec::new();
    if start > 0 {
        push_str_chars(&mut out, "...");
    }
    let ghost prefix = out@;
    push_all(&mut out, &both);
    if end < len {
        push_str_chars(&mut out, "...");
    } else {
        assert(out@ =~= prefix + both@ + Seq::<char>::empty());
    }
    assert(prefix =~= if start > 0 {
        ellipsis()
    } else {
        Seq::<char>::empty()
    });
    out
}

/// The snippet around the match of `query_len` characters at character
/// `match_pos` of `content`, with `context_chars` characters of context to
/// either side. A side on which the text goes on is cut back to the nearest
/// whitespace, so that no word is cut, and marked with `...`.
pub fn extract_snippet(content: &str, match_pos: usize, query_len: usize, context_chars: usize) -> (r:
    String)
    ensures
        r@ == snippet_of(content@, match_pos as int, query_len as int, context_chars as int),
{
    string_of(&snippet_chars(&chars_of(content), match_pos, query_len, context_chars))
}

// ---------------------------------------------------------------------------
// Matches in the text
// ---------------------------------------------------------------------------

/// The positions at which `needle` is found in `hay` when the search starts
/// at `from` and goes on `step` characters after the start of each find.
pub open spec fn occurrences(hay: Seq<char>, needle: Seq<char>, step: int, from: int) -> Seq<int>
    decreases hay.len() + 1 - from,
    via occurrences_decreases
{
    if step <= 0 || from < 0 {
        Seq::empty()
    } else {
        match first_occurrence(hay, needle, from) {
            Some(at) => seq![at] + (if at + step <= hay.len() {
                occurrences(hay, needle, step, at + step)
            } else {
                Seq::empty()
            }),
            None => Seq::empty(),
        }
    }
}

#[via_fn]
proof fn occurrences_decreases(hay: Seq<char>, needle: Seq<char>, step: int, from: int) {
    if from >= 0 {
        lemma_first_occurrence(hay, needle, from);
    }
}

/// The positions at which `needle` is found in `hay`, each search starting
/// `step` characters after the start of the find before it.
pub fn find_all(hay: &Vec<char>, needle: &Vec<char>, step: usize) -> (r: Vec<usize>)
    ensures
        r@.map_values(|p: usize| p as int) == occurrences(hay@, needle@, step as int, 0),
{
    let mut out: Vec<usize> = Vec::new();
    if step == 0 {
        assert(out@.map_values(|p: usize| p as int) =~= Seq::<int>::empty());
        return out;
    }
    let mut from: usize = 0;
    assert(out@.map_values(|p: usize| p as int) + occurrences(hay@, needle@, step as int, 0)
        =~= occurrences(hay@, needle@, step as int, 0));
    loop
        invariant_except_break
            step > 0,
            from <= hay.len(),
            out@.map_values(|p: usize| p as int) + occurrences(
                hay@,
                needle@,
                step as int,
                from as int,
            ) == occurrences(hay@, needle@, step as int, 0),
        ensures
            out@.map_values(|p: usize| p as int) == occurrences(hay@, needle@, step as int, 0),
        decreases hay.len() - from,
    {
        proof {
            lemma_first_occurrence(hay@, needle@, from as int);
        }
        match find_from(hay, needle, from) {
            Some(at) => {
                let ghost before = out@.map_values(|p: usize| p as int);
                out.push(at);
                assert(out@.map_values(|p: usize| p as int) =~= before.push(at as int));
                if step > hay.len() - at {
                    // The next search would start after the end.
                    assert(before.push(at as int) + Seq::<int>::empty() =~= before + occurrences(
                        hay@,
                        needle@,
                        step as int,
                        from as int,
                    ));
                    break;
                }
                assert(before.push(at as int) + occurrences(
                    hay@,
                    needle@,
                    step as int,
                    at + step,
                ) =~= before + occurrences(hay@, needle@, step as int, from as int));
                from = at + step;
            },
            None => {
                assert(out@.map_values(|p: usize| p as int) + Seq::<int>::empty()
                    =~= out@.map_values(|p: usize| p as int));
                break;
            },
        }
    }
    out
}

/// A match in the text of a note.
#[derive(Debug, Clone)]
pub struct ContentMatch {
    /// The headings above the match, outermost first.
    pub breadcrumb: Vec<String>,
    /// The text around the match.
    pub snippet: String,
    /// Position and length of each occurrence of the query in the snippet.
    pub match_positions: Vec<(usize, usize)>,
}

/// The mathematical value of a [`ContentMatch`].
pub struct ContentMatchView {
    pub breadcrumb: Seq<Seq<char>>,
    pub snippet: Seq<char>,
    pub match_positions: Seq<(int, int)>,
}

/// The values of a list of positions with lengths.
pub open spec fn spans_of(v: Seq<(usize, usize)>) -> Seq<(int, int)> {
    v.map_values(|p: (usize, usize)| (p.0 as int, p.1 as int))
}

impl View for ContentMatch {
    type V = ContentMatchView;

    open spec fn view(&self) -> ContentMatchView {
        ContentMatchView {
            breadcrumb: strings(self.breadcrumb@),
            snippet: self.snippet@,
            match_positions: spans_of(self.match_positions@),
        }
    }
}

/// The values of a list of content matches.
pub open spec fn content_match_views(v: Seq<ContentMatch>) -> Seq<ContentMatchView> {
    v.map_values(|m: ContentMatch| m@)
}

/// The number of characters of context on either side of a match.
pub const SNIPPET_CONTEXT: usize = 60;

/// The occurrences of the query in a snippet, each with the query's length.
pub open spec fn highlights(snippet: Seq<char>, query: Seq<char>) -> Seq<(int, int)> {
    occurrences(lowercase(snippet), lowercase(query), query.len() as int, 0).map_values(
        |p: int| (p, query.len() as int),
    )
}

/// The match of `query` at position `at` of `content`.
pub open spec fn content_match_at(content: Seq<char>, query: Seq<char>, at: int) -> ContentMatchView {
    let snippet = snippet_of(content, at, query.len() as int, SNIPPET_CONTEXT as int);
    ContentMatchView {
        breadcrumb: breadcrumb_at(heading_positions(content), at),
        snippet,
        match_positions: highlights(snippet, query),
    }
}

/// The matches of `query` in `content`: one for each occurrence of the
/// lowercase query in the lowercase text that does not overlap the one
/// before it; none for the empty query.
pub open spec fn content_matches(content: Seq<char>, query: Seq<char>) -> Seq<ContentMatchView> {
    if query.len() == 0 {
        Seq::empty()
    } else {
        occurrences(lowercase(content), lowercase(query), query.len() as int, 0).map_values(
            |at: int| content_match_at(content, query, at),
        )
    }
}

/// All matches of `query` in `content`, in order, each with the breadcrumb
/// that is active at its position, a snippet of 60 characters of context,
/// and the positions of the query within the snippet. The empty query
/// matches nothing.
pub fn find_content_matches(content: &str, query: &str) -> (r: Vec<ContentMatch>)
    ensures
        content_match_views(r@) == content_matches(content@, query@),
        query@.len() == 0 ==> r@.len() == 0,
{
    let mut matches: Vec<ContentMatch> = Vec::new();
    let query_chars = chars_of(query);
    if query_chars.len() == 0 {
        assert(content_match_views(matches@) =~= Seq::<ContentMatchView>::empty());
        return matches;
    }
    let query_len = query_chars.len();
    let query_lower = to_lower(&query_chars);
    let content_chars = chars_of(content);
    let content_lower = to_lower(&content_chars);
    let heading_ends = build_heading_positions(content);
    let found = find_all(&content_lower, &query_lower, query_len);
    let ghost places = occurrences(lowercase(content@), lowercase(query@), query_len as int, 0);
    let ghost goal = places.map_values(|at: int| content_match_at(content@, query@, at));
    let mut i: usize = 0;
    assert(content_match_views(matches@) =~= goal.take(0));
    while i < found.len()
        invariant
            i <= found.len(),
            query_len == query@.len(),
            query_len > 0,
            query_lower@ == lowercase(query@),
            content_chars@ == content@,
            positions_model(heading_ends@) == heading_positions(content@),
            found@.map_values(|p: usize| p as int) == places,
            goal == places.map_values(|at: int| content_match_at(content@, query@, at)),
            content_match_views(matches@) == goal.take(i as int),
        decreases found.len() - i,
    {
        let at = found[i];
        assert(places[i as int] == at as int);
        let breadcrumb = get_breadcrumb_at_position(heading_ends.as_slice(), at);
        let snippet = snippet_chars(&content_chars, at, query_len, SNIPPET_CONTEXT);
        let snippet_lower = to_lower(&snippet);
        let hits = find_all(&snippet_lower, &query_lower, query_len);
        let mut match_positions: Vec<(usize, usize)> = Vec::new();
        let mut j: usize = 0;
        let ghost hit_places = hits@.map_values(|p: usize| p as int);
        let ghost hit_goal = hit_places.map_values(|p: int| (p, query_len as int));
        assert(spans_of(match_positions@) =~= hit_goal.take(0));
        while j < hits.len()
            invariant
                j <= hits.len(),
                hit_places == hits@.map_values(|p: usize| p as int),
                hit_goal == hit_places.map_values(|p: int| (p, query_len as int)),
                spans_of(match_positions@) == hit_goal.take(j as int),
            decreases hits.len() - j,
        {
            let ghost before = spans_of(match_positions@);
            match_positions.push((hits[j], query_len));
            assert(spans_of(match_positions@) =~= before.push((hits@[j as int] as int, query_len as int)));
            assert(hit_goal.take(j + 1) =~= hit_goal.take(j as int).push(hit_goal[j as int]));
            j += 1;
        }
        assert(hit_goal.take(hits.len() as int) =~= hit_goal);
        let m = ContentMatch { breadcrumb, snippet: string_of(&snippet), match_positions };
        proof {
            assert(m@ == content_match_at(content@, query@, at as int));
            assert(content_match_views(matches@.push(m)) =~= content_match_views(matches@).push(m@));
            assert(goal.take(i + 1) =~= goal.take(i as int).push(goal[i as int]));
        }
        matches.push(m);
        i += 1;
    }
    assert(goal.take(found.len() as int) =~= goal);
    matches
}

// ---------------------------------------------------------------------------
// Search over notes
// ---------------------------------------------------------------------------

/// Where a query was found in a note.
#[derive(Debug, Clone, PartialEq, Eq)]
pub enum MatchLocation {
    /// In the title, at this position of it.
    Title { position: usize },
    /// In this tag.
    Tag { tag: String },
    /// In the text.
    Content {
        /// The headings above the match, outermost first (`# Main`,
        /// `## Section`), or the one breadcrumb `Document Start`.
        breadcrumb: Vec<String>,
        /// The text around the match.
        snippet: String,
        /// Position and length of each occurrence of the query in the
        /// snippet.
        match_positions: Vec<(usize, usize)>,
    },
}

/// The mathematical value of a [`MatchLocation`].
pub enum LocationView {
    Title { position: int },
    Tag { tag: Seq<char> },
    Content { breadcrumb: Seq<Seq<char>>, snippet: Seq<char>, match_positions: Seq<(int, int)> },
}

impl View for MatchLocation {
    type V = LocationView;

    open spec fn view(&self) -> LocationView {
        match self {
            MatchLocation::Title { position } => LocationView::Title { position: *position as int },
            MatchLocation::Tag { tag } => LocationView::Tag { tag: tag@ },
            MatchLocation::Content { breadcrumb, snippet, match_positions } => LocationView::Content {
                breadcrumb: strings(breadcrumb@),
                snippet: snippet@,
                match_positions: spans_of(match_positions@),
            },
        }
    }
}

/// The values of a list of locations.
pub open spec fn location_views(v: Seq<MatchLocation>) -> Seq<LocationView> {
    v.map_values(|l: MatchLocation| l@)
}

/// A note that matches a query, with every place where it does.
#[derive(Debug, Clone, PartialEq, Eq)]
pub struct SearchMatch {
    pub note: Note,
    /// Never empty: first the title, then the tags, then the text.
    pub locations: Vec<MatchLocation>,
}

/// The mathematical value of a [`SearchMatch`].
pub struct SearchMatchView {
    pub note: NoteView,
    pub locations: Seq<LocationView>,
}

impl View for SearchMatch {
    type V = SearchMatchView;

    open spec fn view(&self) -> SearchMatchView {
        SearchMatchView { note: self.note@, locations: location_views(self.locations@) }
    }
}

/// The values of a list of search matches.
pub open spec fn search_match_views(v: Seq<SearchMatch>) -> Seq<SearchMatchView> {
    v.map_values(|m: SearchMatch| m@)
}

/// The match in the title: the first position of the lowercase query in the
/// lowercase title.
pub open spec fn title_locations(title: Seq<char>, query: Seq<char>) -> Seq<LocationView> {
    match first_occurrence(lowercase(title), lowercase(query), 0) {
        Some(position) => seq![LocationView::Title { position }],
        None => Seq::empty(),
    }
}

/// The matches in the tags: each tag whose lowercase form holds the
/// lowercase query, in order.
pub open spec fn tag_locations(tags: Seq<Seq<char>>, query: Seq<char>) -> Seq<LocationView>
    decreases tags.len(),
{
    if tags.len() == 0 {
        Seq::empty()
    } else {
        let prev = tag_locations(tags.drop_last(), query);
        if first_occurrence(lowercase(tags.last()), lowercase(query), 0) is Some {
            prev.push(LocationView::Tag { tag: tags.last() })
        } else {
            prev
        }
    }
}

/// The matches in the text.
pub open spec fn content_locations(content: Seq<char>, query: Seq<char>) -> Seq<LocationView> {
    content_matches(content, query).map_values(
        |m: ContentMatchView|
            LocationView::Content {
                breadcrumb: m.breadcrumb,
                snippet: m.snippet,
                match_positions: m.match_positions,
            },
    )
}

/// Every place where a query is found in a note: title, tags, text.
pub open spec fn note_locations(note: NoteView, query: Seq<char>) -> Seq<LocationView> {
    title_locations(note.title, query) + tag_locations(note.tags, query) + content_locations(
        note.content,
        query,
    )
}

/// The notes that match a query, in the order given, each with its
/// locations. The empty query matches nothing.
pub open spec fn search_results(notes: Seq<NoteView>, query: Seq<char>) -> Seq<SearchMatchView>
    decreases notes.len(),
{
    if notes.len() == 0 || query.len() == 0 {
        Seq::empty()
    } else {
        let prev = search_results(notes.drop_last(), query);
        let locations = note_locations(notes.last(), query);
        if locations.len() > 0 {
            prev.push(SearchMatchView { note: notes.last(), locations })
        } else {
            prev
        }
    }
}

/// Every place where the query is found in one note.
fn locate(note: &Note, query: &str, query_lower: &Vec<char>) -> (r: Vec<MatchLocation>)
    requires
        query_lower@ == lowercase(query@),
    ensures
        location_views(r@) == note_locations(note@, query@),
{
    let mut locations: Vec<MatchLocation> = Vec::new();
    assert(location_views(locations@) =~= Seq::<LocationView>::empty());
    let title_lower = to_lower(&chars_of(note.title.as_str()));
    match find_from(&title_lower, query_lower, 0) {
        Some(position) => {
            locations.push(MatchLocation::Title { position });
            assert(location_views(locations@) =~= title_locations(note.title@, query@));
        },
        None => {},
    }
    let ghost in_title = location_views(locations@);
    let ghost tags = strings(note.tags@);
    let mut i: usize = 0;
    assert(tags.take(0) =~= Seq::<Seq<char>>::empty());
    assert(location_views(locations@) =~= in_title + tag_locations(tags.take(0), query@));
    while i < note.tags.len()
        invariant
            i <= note.tags.len(),
            tags == strings(note.tags@),
            query_lower@ == lowercase(query@),
            location_views(locations@) == in_title + tag_locations(tags.take(i as int), query@),
        decreases note.tags.len() - i,
    {
        proof {
            assert(tags.take(i + 1).drop_last() =~= tags.take(i as int));
            assert(tags.take(i + 1).last() == note.tags@[i as int]@);
        }
        let tag_lower = to_lower(&chars_of(note.tags[i].as_str()));
        if find_from(&tag_lower, query_lower, 0).is_some() {
            let ghost before = location_views(locations@);
            let tag = note.tags[i].clone();
            locations.push(MatchLocation::Tag { tag });
            assert(location_views(locations@) =~= before.push(
                LocationView::Tag { tag: note.tags@[i as int]@ },
            ));
            assert(location_views(locations@) =~= in_title + tag_locations(
                tags.take(i + 1),
                query@,
            ));
        }
        i += 1;
    }
    assert(tags.take(note.tags.len() as int) =~= tags);
    let ghost in_tags = location_views(locations@);
    let found = find_content_matches(note.content.as_str(), query);
    let ghost goal = content_locations(note.content@, query@);
    let mut j: usize = 0;
    assert(location_views(locations@) =~= in_tags + goal.take(0));
    while j < found.len()
        invariant
            j <= found.len(),
            content_match_views(found@) == content_matches(note.content@, query@),
            goal == content_locations(note.content@, query@),
            location_views(locations@) == in_tags + goal.take(j as int),
        decreases found.len() - j,
    {
        let ghost before = location_views(locations@);
        let m = &found[j];
        let breadcrumb = clone_strings(&m.breadcrumb);
        assert(strings(breadcrumb@) =~= strings(m.breadcrumb@));
        let mut match_positions: Vec<(usize, usize)> = Vec::new();
        let mut k: usize = 0;
        while k < m.match_positions.len()
            invariant
                k <= m.match_positions.len(),
                match_positions@ =~= m.match_positions@.take(k as int),
            decreases m.match_positions.len() - k,
        {
            match_positions.push(m.match_positions[k]);
            k += 1;
        }
        assert(match_positions@ =~= m.match_positions@);
        let location = MatchLocation::Content {
            breadcrumb,
            snippet: m.snippet.clone(),
            match_positions,
        };
        proof {
            assert(content_match_views(found@)[j as int] == m@);
            assert(location@ == goal[j as int]);
            assert(goal.take(j + 1) =~= goal.take(j as int).push(goal[j as int]));
        }
        locations.push(location);
        assert(location_views(locations@) =~= before.push(location@));
        j += 1;
    }
    assert(goal.take(found.len() as int) =~= goal);
    locations
}

/// Searches `notes` for `query`, without regard to case, in titles, tags
/// and text. A note that matches anywhere is returned once, with every
/// place where it matches; the order of the notes is kept. The empty query
/// matches nothing.
pub fn search_notes(notes: &[Note], query: &str) -> (r: Vec<SearchMatch>)
    ensures
        search_match_views(r@) == search_results(note_views(notes@), query@),
        query@.len() == 0 ==> r@.len() == 0,
{
    let mut results: Vec<SearchMatch> = Vec::new();
    let ghost views = note_views(notes@);
    assert(search_match_views(results@) =~= Seq::<SearchMatchView>::empty());
    let query_chars = chars_of(query);
    if query_chars.len() == 0 {
        return results;
    }
    let query_lower = to_lower(&query_chars);
    let mut i: usize = 0;
    assert(views.take(0) =~= Seq::<NoteView>::empty());
    while i < notes.len()
        invariant
            i <= notes.len(),
            views == note_views(notes@),
            query@.len() > 0,
            query_lower@ == lowercase(query@),
            search_match_views(results@) == search_results(views.take(i as int), query@),
        decreases notes.len() - i,
    {
        proof {
            assert(views.take(i + 1).drop_last() =~= views.take(i as int));
            assert(views.take(i + 1).last() == notes@[i as int]@);
        }
        let locations = locate(&notes[i], query, &query_lower);
        if locations.len() > 0 {
            let ghost before = search_match_views(results@);
            let m = SearchMatch { note: notes[i].clone(), locations };
            results.push(m);
            assert(search_match_views(results@) =~= before.push(m@));
        }
        i += 1;
    }
    assert(views.take(notes.len() as int) =~= views);
    results
}

} // verus!
