//! Wiki links and the graph that they form between notes.
//!
//! A note links to another by writing its title in double brackets,
//! `[[Title]]`. A link resolves where some note's title equals its text up to
//! case. Only resolved links become edges.

use crate::markdown::{markdown_spans, parse_markdown, span_models, EventModel, MdEvent, SpanModel};
use crate::listmap::{ListMap, Lists};
use crate::note::{note_views, Note, NoteView};
use crate::task::strings;
use crate::text::{
    chars_of, copy_range, find_from, first_occurrence, lemma_first_occurrence, lowercase, push_all,
    same_chars, same_text, string_of, to_lower,
};
use vstd::prelude::*;

verus! {

// ---------------------------------------------------------------------------
// Link extraction
// ---------------------------------------------------------------------------

pub open spec fn open_brackets() -> Seq<char> {
    seq!['[', '[']
}

pub open spec fn close_brackets() -> Seq<char> {
    seq![']', ']']
}

/// The link texts of `text` from index `from` on: each `[[` that has a `]]`
/// after it gives what stands between the two, and the search goes on after
/// that `]]`.
pub open spec fn links_from(text: Seq<char>, from: int) -> Seq<Seq<char>>
    decreases text.len() - from,
    via links_from_decreases
{
    match first_occurrence(text, open_brackets(), from) {
        Some(begin) => match first_occurrence(text, close_brackets(), begin + 2) {
            Some(end) => seq![text.subrange(begin + 2, end)] + links_from(text, end + 2),
            None => Seq::empty(),
        },
        None => Seq::empty(),
    }
}

#[via_fn]
proof fn links_from_decreases(text: Seq<char>, from: int) {
    if from >= 0 {
        lemma_first_occurrence(text, open_brackets(), from);
        if let Some(begin) = first_occurrence(text, open_brackets(), from) {
            lemma_first_occurrence(text, close_brackets(), begin + 2);
        }
    }
}

/// The link texts of a run of plain text.
pub open spec fn links_in(text: Seq<char>) -> Seq<Seq<char>> {
    links_from(text, 0)
}

/// Appends the link texts of `text` to `links`.
pub fn extract_wiki_links_from_chars(text: &Vec<char>, links: &mut Vec<String>)
    ensures
        strings(final(links)@) == strings(old(links)@) + links_in(text@),
{
    let open: Vec<char> = vec!['[', '['];
    let close: Vec<char> = vec![']', ']'];
    assert(open@ =~= open_brackets());
    assert(close@ =~= close_brackets());
    let mut start: usize = 0;
    assert(strings(links@) + links_in(text@) =~= strings(old(links)@) + links_in(text@));
    loop
        invariant
            start <= text.len(),
            open@ == open_brackets(),
            close@ == close_brackets(),
            strings(links@) + links_from(text@, start as int) == strings(old(links)@) + links_in(
                text@,
            ),
        ensures
            strings(links@) == strings(old(links)@) + links_in(text@),
        decreases text.len() - start,
    {
        proof {
            lemma_first_occurrence(text@, open_brackets(), start as int);
        }
        match find_from(text, &open, start) {
            Some(begin) => {
                assert(begin + 2 <= text.len());
                proof {
                    lemma_first_occurrence(text@, close_brackets(), begin + 2);
                }
                match find_from(text, &close, begin + 2) {
                    Some(end) => {
                        let link = copy_range(text, begin + 2, end);
                        let s = string_of(&link);
                        assert(strings(links@.push(s)) =~= strings(links@).push(s@));
                        assert(strings(links@).push(s@) + links_from(text@, end + 2) =~= strings(
                            links@,
                        ) + links_from(text@, start as int));
                        links.push(s);
                        start = end + 2;
                    },
                    None => {
                        assert(strings(links@) + Seq::<Seq<char>>::empty() =~= strings(links@));
                        break;
                    },
                }
            },
            None => {
                assert(strings(links@) + Seq::<Seq<char>>::empty() =~= strings(links@));
                break;
            },
        }
    }
}

/// Appends the link texts of `text` to `links`.
pub fn extract_wiki_links_from_text(text: &str, links: &mut Vec<String>)
    ensures
        strings(final(links)@) == strings(old(links)@) + links_in(text@),
{
    extract_wiki_links_from_chars(&chars_of(text), links)
}

/// The state of the scan for links: the plain text gathered since the last
/// event that was neither text nor code, and the links found before it.
pub struct LinkScan {
    pub pending: Seq<char>,
    pub found: Seq<Seq<char>>,
}

/// One step of the scan: text and code spans are gathered, any other event
/// has the gathered text searched for links and starts afresh.
pub open spec fn link_step(state: LinkScan, event: EventModel) -> LinkScan {
    match event {
        EventModel::Text(t) => LinkScan { pending: state.pending + t, found: state.found },
        EventModel::Code(t) => LinkScan { pending: state.pending + t, found: state.found },
        _ => LinkScan { pending: Seq::empty(), found: state.found + links_in(state.pending) },
    }
}

pub open spec fn link_scan(events: Seq<SpanModel>) -> LinkScan
    decreases events.len(),
{
    if events.len() == 0 {
        LinkScan { pending: Seq::empty(), found: Seq::empty() }
    } else {
        link_step(link_scan(events.drop_last()), events.last().event)
    }
}

/// The link texts of a note, in document order. Text runs and code spans
/// that follow each other are searched as one text, so that a code span
/// may stand inside a link; anything else (emphasis, the end of a
/// paragraph) ends the text that is searched.
pub open spec fn wiki_links(content: Seq<char>) -> Seq<Seq<char>> {
    let end = link_scan(markdown_spans(content));
    end.found + links_in(end.pending)
}

/// All `[[link]]` texts of a markdown document, in order.
pub fn extract_wiki_links(content: &str) -> (links: Vec<String>)
    ensures
        strings(links@) == wiki_links(content@),
{
    let spans = parse_markdown(content);
    let ghost model = span_models(spans@);
    let mut links: Vec<String> = Vec::new();
    let mut pending: Vec<char> = Vec::new();
    let mut i: usize = 0;
    assert(model.take(0) =~= Seq::<SpanModel>::empty());
    assert(strings(links@) =~= Seq::<Seq<char>>::empty());
    while i < spans.len()
        invariant
            i <= spans.len(),
            model == span_models(spans@),
            model == markdown_spans(content@),
            link_scan(model.take(i as int)).pending == pending@,
            link_scan(model.take(i as int)).found == strings(links@),
        decreases spans.len() - i,
    {
        proof {
            assert(model.take(i + 1).drop_last() =~= model.take(i as int));
            assert(model.take(i + 1).last() == spans@[i as int]@);
        }
        match &spans[i].event {
            MdEvent::Text(t) => {
                let more = chars_of(t.as_str());
                push_all(&mut pending, &more);
            },
            MdEvent::Code(t) => {
                let more = chars_of(t.as_str());
                push_all(&mut pending, &more);
            },
            _ => {
                extract_wiki_links_from_chars(&pending, &mut links);
                pending = Vec::new();
            },
        }
        i += 1;
    }
    assert(model.take(spans.len() as int) =~= model);
    extract_wiki_links_from_chars(&pending, &mut links);
    links
}

// ---------------------------------------------------------------------------
// Maps from a title to a set of titles
// ---------------------------------------------------------------------------

/// A mapping from titles to sets of titles, as mathematics has it.
pub type Edges = Map<Seq<char>, Set<Seq<char>>>;

/// The set that `m` gives for `key`; empty where it gives none.
pub open spec fn targets(m: Edges, key: Seq<char>) -> Set<Seq<char>> {
    if m.contains_key(key) {
        m[key]
    } else {
        Set::empty()
    }
}

/// `m` with `key` present: a key that was absent gets the empty set.
pub open spec fn touch(m: Edges, key: Seq<char>) -> Edges {
    m.insert(key, targets(m, key))
}

/// `m` with `value` added to the set of `key`.
pub open spec fn add_edge(m: Edges, key: Seq<char>, value: Seq<char>) -> Edges {
    m.insert(key, targets(m, key).insert(value))
}

/// Whether `list` holds `item`.
pub fn list_holds(list: &Vec<String>, item: &str) -> (r: bool)
    ensures
        r == strings(list@).contains(item@),
{
    let mut i: usize = 0;
    while i < list.len()
        invariant
            i <= list.len(),
            forall|k: int| 0 <= k < i ==> strings(list@)[k] != item@,
        decreases list.len() - i,
    {
        if same_text(list[i].as_str(), item) {
            assert(strings(list@)[i as int] == item@);
            return true;
        }
        i += 1;
    }
    false
}

/// One key with its set.
#[derive(Debug, Clone)]
pub struct LinkEntry {
    key: String,
    values: Vec<String>,
}

/// A mapping from titles to sets of titles. No key occurs twice, and no
/// title occurs twice in one set.
#[derive(Debug, Clone)]
pub struct LinkMap {
    entries: Vec<LinkEntry>,
}

impl LinkMap {
    /// The keys, in the order in which they were added.
    pub closed spec fn keys(&self) -> Seq<Seq<char>> {
        self.entries@.map_values(|e: LinkEntry| e.key@)
    }

    /// The set of the `i`-th key, in the order in which its titles were
    /// added.
    pub closed spec fn values_at(&self, i: int) -> Seq<Seq<char>> {
        strings(self.entries@[i].values@)
    }

    /// The invariant of the type.
    pub closed spec fn wf(&self) -> bool {
        &&& self.keys().no_duplicates()
        &&& forall|i: int| 0 <= i < self.entries@.len() ==> (#[trigger] self.values_at(i)).no_duplicates()
    }

    pub closed spec fn spec_index_of(&self, key: Seq<char>) -> int {
        choose|i: int| 0 <= i < self.keys().len() && self.keys()[i] == key
    }

    proof fn lemma_index_of(&self, i: int)
        requires
            self.wf(),
            0 <= i < self.entries@.len(),
        ensures
            self.keys().contains(self.keys()[i]),
            self.spec_index_of(self.keys()[i]) == i,
    {
        let key = self.keys()[i];
        let j = self.spec_index_of(key);
        assert(0 <= j < self.keys().len() && self.keys()[j] == key);
    }

}

impl View for LinkMap {
    type V = Edges;

    closed spec fn view(&self) -> Edges {
        Map::new(
            |k: Seq<char>| self.keys().contains(k),
            |k: Seq<char>| self.values_at(self.spec_index_of(k)).to_set(),
        )
    }
}

impl LinkMap {
    /// The empty mapping.
    pub fn new() -> (r: LinkMap)
        ensures
            r.wf(),
            r@ == Map::<Seq<char>, Set<Seq<char>>>::empty(),
    {
        let r = LinkMap { entries: Vec::new() };
        assert(r@ =~= Map::<Seq<char>, Set<Seq<char>>>::empty());
        r
    }

    /// The number of keys.
    pub fn len(&self) -> (r: usize)
        requires
            self.wf(),
        ensures
            r == self@.dom().len(),
            self@.dom().finite(),
    {
        proof {
            self.keys().unique_seq_to_set();
            assert(self@.dom() =~= self.keys().to_set());
        }
        self.entries.len()
    }

    /// Where `key` stands among the entries.
    fn position(&self, key: &str) -> (r: Option<usize>)
        ensures
            match r {
                Some(i) => i < self.entries@.len() && self.keys()[i as int] == key@,
                None => !self.keys().contains(key@),
            },
    {
        let mut i: usize = 0;
        while i < self.entries.len()
            invariant
                i <= self.entries.len(),
                forall|k: int| 0 <= k < i ==> self.keys()[k] != key@,
            decreases self.entries.len() - i,
        {
            if same_text(self.entries[i].key.as_str(), key) {
                return Some(i);
            }
            i += 1;
        }
        None
    }

    /// Whether `key` is present.
    pub fn contains_key(&self, key: &str) -> (r: bool)
        ensures
            r == self@.contains_key(key@),
    {
        self.position(key).is_some()
    }

    /// The set of `key`, as a list without repetitions.
    pub fn get(&self, key: &str) -> (r: Option<&Vec<String>>)
        requires
            self.wf(),
        ensures
            match r {
                Some(set) => self@.contains_key(key@) && strings(set@).to_set() == self@[key@]
                    && strings(set@).no_duplicates(),
                None => !self@.contains_key(key@),
            },
    {
        match self.position(key) {
            Some(i) => {
                proof {
                    self.lemma_index_of(i as int);
                }
                Some(&self.entries[i].values)
            },
            None => None,
        }
    }

    /// Whether `key` is present with a set that is not empty.
    pub fn is_linked(&self, key: &str) -> (r: bool)
        requires
            self.wf(),
        ensures
            r == (targets(self@, key@) != Set::<Seq<char>>::empty()),
    {
        match self.get(key) {
            Some(set) => {
                proof {
                    if set.len() > 0 {
                        assert(strings(set@)[0] == set@[0]@);
                        assert(strings(set@).to_set().contains(strings(set@)[0]));
                    } else {
                        assert(strings(set@).to_set() =~= Set::<Seq<char>>::empty());
                    }
                }
                set.len() > 0
            },
            None => false,
        }
    }

    /// Whether some key that equals `key` up to case is present with a
    /// set that is not empty.
    pub fn is_linked_up_to_case(&self, key: &str) -> (r: bool)
        requires
            self.wf(),
        ensures
            r == has_edges_up_to_case(self@, key@),
    {
        let lowered = to_lower(&chars_of(key));
        let mut i: usize = 0;
        while i < self.entries.len()
            invariant
                i <= self.entries.len(),
                self.wf(),
                lowered@ == lowercase(key@),
                forall|k: int|
                    0 <= k < i ==> !(lowercase(#[trigger] self.keys()[k]) == lowercase(key@)
                        && self.values_at(k).len() > 0),
            decreases self.entries.len() - i,
        {
            if self.entries[i].values.len() > 0 {
                let other = to_lower(&chars_of(self.entries[i].key.as_str()));
                if same_chars(&other, &lowered) {
                    proof {
                        let found = self.keys()[i as int];
                        self.lemma_index_of(i as int);
                        assert(self.values_at(i as int)[0] == self.entries@[i as int].values@[0]@);
                        assert(self.values_at(i as int).to_set().contains(
                            self.values_at(i as int)[0],
                        ));
                        assert(lowercase(found) == lowercase(key@) && targets(self@, found)
                            != Set::<Seq<char>>::empty());
                    }
                    return true;
                }
            }
            i += 1;
        }
        proof {
            if has_edges_up_to_case(self@, key@) {
                let found = choose|k: Seq<char>| #[trigger]
                    lowercase(k) == lowercase(key@) && targets(self@, k) != Set::<
                        Seq<char>,
                    >::empty();
                assert(self.keys().contains(found));
                let at = choose|at: int| 0 <= at < self.keys().len() && self.keys()[at] == found;
                self.lemma_index_of(at);
                if self.values_at(at).len() == 0 {
                    assert(self.values_at(at).to_set() =~= Set::<Seq<char>>::empty());
                }
                assert(false);
            }
        }
        false
    }

    /// The keys, in the order in which they were added.
    pub fn titles(&self) -> (r: Vec<String>)
        requires
            self.wf(),
        ensures
            strings(r@).no_duplicates(),
            strings(r@).to_set() == self@.dom(),
    {
        let mut out: Vec<String> = Vec::new();
        let mut i: usize = 0;
        while i < self.entries.len()
            invariant
                i <= self.entries.len(),
                strings(out@) =~= self.keys().take(i as int),
            decreases self.entries.len() - i,
        {
            let k = self.entries[i].key.clone();
            assert(strings(out@.push(k)) =~= strings(out@).push(k@));
            out.push(k);
            i += 1;
        }
        assert(self.keys().take(self.entries.len() as int) =~= self.keys());
        assert(self@.dom() =~= self.keys().to_set());
        out
    }

    /// Makes `key` present; a key that was absent gets the empty set.
    pub fn touch(&mut self, key: &str)
        requires
            old(self).wf(),
        ensures
            final(self).wf(),
            final(self)@ == touch(old(self)@, key@),
    {
        match self.position(key) {
            Some(i) => {
                proof {
                    self.lemma_index_of(i as int);
                    assert(self@ =~= touch(self@, key@));
                }
            },
            None => {
                let ghost before = *self;
                self.entries.push(LinkEntry { key: string_of(&chars_of(key)), values: Vec::new() });
                proof {
                    let n = before.entries@.len() as int;
                    assert(self.keys() =~= before.keys().push(key@));
                    assert forall|i: int| 0 <= i < self.entries@.len() implies (
                    #[trigger] self.values_at(i)).no_duplicates() by {
                        if i < n {
                            assert(self.values_at(i) == before.values_at(i));
                        }
                    }
                    assert(self.wf());
                    self.lemma_index_of(n);
                    assert(self.values_at(n) =~= Seq::<Seq<char>>::empty());
                    assert(self.values_at(n).to_set() =~= Set::<Seq<char>>::empty());
                    assert forall|k: Seq<char>| before.keys().contains(k) implies self@[k]
                        == before@[k] by {
                        let j = before.spec_index_of(k);
                        before.lemma_index_of(j);
                        assert(self.keys()[j] == k);
                        self.lemma_index_of(j);
                        assert(self.values_at(j) == before.values_at(j));
                    }
                    assert forall|k: Seq<char>| self.keys().contains(k) <==> (before.keys().contains(
                        k,
                    ) || k == key@) by {
                        if self.keys().contains(k) {
                            let m = choose|m: int| 0 <= m < self.keys().len() && self.keys()[m] == k;
                            if m < n {
                                assert(before.keys()[m] == k);
                            }
                        }
                        if before.keys().contains(k) {
                            let m = choose|m: int|
                                0 <= m < before.keys().len() && before.keys()[m] == k;
                            assert(self.keys()[m] == k);
                        }
                        if k == key@ {
                            assert(self.keys()[n] == k);
                        }
                    }
                    assert(self@ =~= touch(before@, key@));
                }
            },
        }
    }

    /// Adds `value` to the set of `key`.
    pub fn add(&mut self, key: &str, value: &str)
        requires
            old(self).wf(),
        ensures
            final(self).wf(),
            final(self)@ == add_edge(old(self)@, key@, value@),
    {
        self.touch(key);
        let ghost touched = *self;
        let at = self.position(key);
        assert(touched@.contains_key(key@));
        match at {
            Some(i) => {
                proof {
                    touched.lemma_index_of(i as int);
                }
                let present = list_holds(&self.entries[i].values, value);
                if present {
                    proof {
                        assert(touched.values_at(i as int).to_set().contains(value@));
                        assert(touched@[key@].insert(value@) =~= touched@[key@]);
                        assert(self@ =~= add_edge(old(self)@, key@, value@));
                    }
                } else {
                    let mut entry = LinkEntry { key: String::new(), values: Vec::new() };
                    core::mem::swap(&mut entry, &mut self.entries[i]);
                    entry.values.push(string_of(&chars_of(value)));
                    self.entries.set(i, entry);
                    proof {
                        assert(self.keys() =~= touched.keys());
                        assert(self.values_at(i as int) =~= touched.values_at(i as int).push(
                            value@,
                        ));
                        assert forall|k: int| 0 <= k < self.entries@.len() implies (
                        #[trigger] self.values_at(k)).no_duplicates() by {
                            if k != i {
                                assert(self.values_at(k) == touched.values_at(k));
                            } else {
                                assert(touched.values_at(i as int).no_duplicates());
                            }
                        }
                        assert(self.wf());
                        self.lemma_index_of(i as int);
                        assert(self.values_at(i as int).to_set() =~= touched.values_at(
                            i as int,
                        ).to_set().insert(value@)) by {
                            let grown = touched.values_at(i as int).push(value@);
                            assert forall|x: Seq<char>| grown.to_set().contains(x) implies touched.values_at(
                                i as int,
                            ).to_set().insert(value@).contains(x) by {
                                let m = choose|m: int| 0 <= m < grown.len() && grown[m] == x;
                                if m < grown.len() - 1 {
                                    assert(touched.values_at(i as int)[m] == x);
                                }
                            }
                            assert forall|x: Seq<char>|
                                touched.values_at(i as int).to_set().insert(value@).contains(
                                    x,
                                ) implies grown.to_set().contains(x) by {
                                if x == value@ {
                                    assert(grown[grown.len() - 1] == x);
                                } else {
                                    let m = choose|m: int|
                                        0 <= m < touched.values_at(i as int).len()
                                            && touched.values_at(i as int)[m] == x;
                                    assert(grown[m] == x);
                                }
                            }
                        }
                        assert forall|k: Seq<char>|
                            touched.keys().contains(k) && k != key@ implies self@[k]
                            == touched@[k] by {
                            let m = touched.spec_index_of(k);
                            touched.lemma_index_of(m);
                            self.lemma_index_of(m);
                            assert(self.values_at(m) == touched.values_at(m));
                        }
                        assert(self@[key@] == self.values_at(i as int).to_set());
                        assert(touched@[key@] == touched.values_at(i as int).to_set());
                        assert(touched@[key@] == targets(old(self)@, key@));
                        assert forall|k: Seq<char>| self@.contains_key(k) implies #[trigger] self@[k]
                            == add_edge(old(self)@, key@, value@)[k] by {
                            if k != key@ {
                                assert(touched.keys().contains(k));
                                assert(self@[k] == touched@[k]);
                            }
                        }
                        assert(self@.dom() =~= add_edge(old(self)@, key@, value@).dom());
                        assert(self@ =~= add_edge(old(self)@, key@, value@));
                    }
                }
            },
            None => {
                assert(false);
            },
        }
    }
}

// ---------------------------------------------------------------------------
// The graph
// ---------------------------------------------------------------------------

/// The titles of a list of notes.
pub open spec fn note_titles(notes: Seq<NoteView>) -> Seq<Seq<char>> {
    notes.map_values(|n: NoteView| n.title)
}

/// Whether a link text names a known title, up to case.
pub open spec fn resolves(known: Seq<Seq<char>>, link: Seq<char>) -> bool {
    exists|i: int| 0 <= i < known.len() && lowercase(#[trigger] known[i]) == lowercase(link)
}

/// Whether `m` holds the edge from `key` to `value`.
pub open spec fn has_edge(m: Edges, key: Seq<char>, value: Seq<char>) -> bool {
    m.contains_key(key) && m[key].contains(value)
}

/// `out` after one note: the title becomes a key, and each of its links that
/// resolves is added to its set, under the link's own text.
pub open spec fn outbound_with(
    out: Edges,
    known: Seq<Seq<char>>,
    title: Seq<char>,
    links: Seq<Seq<char>>,
) -> Edges
    decreases links.len(),
{
    if links.len() == 0 {
        touch(out, title)
    } else {
        let prev = outbound_with(out, known, title, links.drop_last());
        if resolves(known, links.last()) {
            add_edge(prev, title, links.last())
        } else {
            prev
        }
    }
}

/// The unconnected titles of a list are those of its titles that the graph
/// leaves without a link.
pub proof fn lemma_unconnected(
    outbound: Edges,
    inbound: Edges,
    titles: Seq<Seq<char>>,
    title: Seq<char>,
)
    ensures
        unconnected(outbound, inbound, titles).contains(title) <==> (titles.contains(title)
            && !is_linked_title(outbound, inbound, title)),
    decreases titles.len(),
{
    if titles.len() > 0 {
        let head = titles.drop_last();
        lemma_unconnected(outbound, inbound, head, title);
        lemma_contains_last(titles, title);
        if !is_linked_title(outbound, inbound, titles.last()) {
            let grown = unconnected(outbound, inbound, head).push(titles.last());
            assert(grown.drop_last() =~= unconnected(outbound, inbound, head));
            lemma_contains_last(grown, title);
        }
    }
}

/// `inb` after one note: each of its links that resolves becomes a key, under
/// the link's own text, with the note's title in its set.
pub open spec fn inbound_with(
    inb: Edges,
    known: Seq<Seq<char>>,
    title: Seq<char>,
    links: Seq<Seq<char>>,
) -> Edges
    decreases links.len(),
{
    if links.len() == 0 {
        inb
    } else {
        let prev = inbound_with(inb, known, title, links.drop_last());
        if resolves(known, links.last()) {
            add_edge(prev, links.last(), title)
        } else {
            prev
        }
    }
}

/// The outbound edges of `notes`, where links resolve against `known`.
pub open spec fn outbound_of(known: Seq<Seq<char>>, notes: Seq<NoteView>) -> Edges
    decreases notes.len(),
{
    if notes.len() == 0 {
        Map::empty()
    } else {
        outbound_with(
            outbound_of(known, notes.drop_last()),
            known,
            notes.last().title,
            wiki_links(notes.last().content),
        )
    }
}

/// The inbound edges of `notes`, where links resolve against `known`.
pub open spec fn inbound_of(known: Seq<Seq<char>>, notes: Seq<NoteView>) -> Edges
    decreases notes.len(),
{
    if notes.len() == 0 {
        Map::empty()
    } else {
        inbound_with(
            inbound_of(known, notes.drop_last()),
            known,
            notes.last().title,
            wiki_links(notes.last().content),
        )
    }
}

/// The links of `links` that do not resolve, in order.
pub open spec fn unresolved(known: Seq<Seq<char>>, links: Seq<Seq<char>>) -> Seq<Seq<char>>
    decreases links.len(),
{
    if links.len() == 0 {
        Seq::empty()
    } else {
        let prev = unresolved(known, links.drop_last());
        if resolves(known, links.last()) {
            prev
        } else {
            prev.push(links.last())
        }
    }
}

/// The broken links of `notes` by title: each note with a link that does
/// not resolve gives its title the list of those links; of two notes with
/// one title the later one counts.
pub open spec fn broken_of(known: Seq<Seq<char>>, notes: Seq<NoteView>) -> Lists
    decreases notes.len(),
{
    if notes.len() == 0 {
        Map::empty()
    } else {
        let prev = broken_of(known, notes.drop_last());
        let broken = unresolved(known, wiki_links(notes.last().content));
        if broken.len() > 0 {
            prev.insert(notes.last().title, broken)
        } else {
            prev
        }
    }
}

/// Whether a title has a link going out or coming in.
pub open spec fn is_connected(outbound: Edges, inbound: Edges, title: Seq<char>) -> bool {
    targets(outbound, title) != Set::<Seq<char>>::empty() || targets(inbound, title) != Set::<
        Seq<char>,
    >::empty()
}

/// Whether a title has a link going out or coming in, without regard to
/// case: some text that equals it up to case has one. A link reaches a
/// note under whatever case it is written in.
pub open spec fn is_linked_title(outbound: Edges, inbound: Edges, title: Seq<char>) -> bool {
    exists|key: Seq<char>| #[trigger]
        lowercase(key) == lowercase(title) && is_connected(outbound, inbound, key)
}

/// Whether some key that equals `title` up to case has a set that is not
/// empty.
pub open spec fn has_edges_up_to_case(m: Edges, title: Seq<char>) -> bool {
    exists|key: Seq<char>| #[trigger]
        lowercase(key) == lowercase(title) && targets(m, key) != Set::<Seq<char>>::empty()
}

/// A title is linked where one of the two maps has edges for it up to
/// case.
pub proof fn lemma_linked_title(outbound: Edges, inbound: Edges, title: Seq<char>)
    ensures
        is_linked_title(outbound, inbound, title) <==> (has_edges_up_to_case(outbound, title)
            || has_edges_up_to_case(inbound, title)),
{
    if is_linked_title(outbound, inbound, title) {
        let key = choose|key: Seq<char>| #[trigger]
            lowercase(key) == lowercase(title) && is_connected(outbound, inbound, key);
        if targets(outbound, key) != Set::<Seq<char>>::empty() {
            assert(lowercase(key) == lowercase(title) && targets(outbound, key) != Set::<
                Seq<char>,
            >::empty());
        } else {
            assert(lowercase(key) == lowercase(title) && targets(inbound, key) != Set::<
                Seq<char>,
            >::empty());
        }
    }
    if has_edges_up_to_case(outbound, title) {
        let key = choose|key: Seq<char>| #[trigger]
            lowercase(key) == lowercase(title) && targets(outbound, key) != Set::<
                Seq<char>,
            >::empty();
        assert(lowercase(key) == lowercase(title) && is_connected(outbound, inbound, key));
    }
    if has_edges_up_to_case(inbound, title) {
        let key = choose|key: Seq<char>| #[trigger]
            lowercase(key) == lowercase(title) && targets(inbound, key) != Set::<
                Seq<char>,
            >::empty();
        assert(lowercase(key) == lowercase(title) && is_connected(outbound, inbound, key));
    }
}

/// The titles of `titles` without a link going out or coming in, in order.
/// Case is not regarded: a title is left out where a link reaches it under
/// any case.
pub open spec fn unconnected(outbound: Edges, inbound: Edges, titles: Seq<Seq<char>>) -> Seq<
    Seq<char>,
>
    decreases titles.len(),
{
    if titles.len() == 0 {
        Seq::empty()
    } else {
        let prev = unconnected(outbound, inbound, titles.drop_last());
        if is_linked_title(outbound, inbound, titles.last()) {
            prev
        } else {
            prev.push(titles.last())
        }
    }
}

/// The links between notes, in both directions.
#[derive(Debug, Clone)]
pub struct LinkGraph {
    /// From a note's title to the link texts in it that resolve.
    pub outbound: LinkMap,
    /// From a resolved link text to the titles of the notes that hold it.
    pub inbound: LinkMap,
}

impl Default for LinkGraph {
    fn default() -> (r: LinkGraph)
        ensures
            r.wf(),
            r.outbound@ == Map::<Seq<char>, Set<Seq<char>>>::empty(),
            r.inbound@ == Map::<Seq<char>, Set<Seq<char>>>::empty(),
    {
        LinkGraph::new()
    }
}

/// The lowercase forms of the titles of `notes`.
fn lowered_titles(notes: &[Note]) -> (r: Vec<Vec<char>>)
    ensures
        r@.len() == notes@.len(),
        forall|i: int| 0 <= i < notes@.len() ==> (#[trigger] r@[i])@ == lowercase(notes@[i].title@),
{
    let mut out: Vec<Vec<char>> = Vec::new();
    let mut i: usize = 0;
    while i < notes.len()
        invariant
            i <= notes.len(),
            out@.len() == i,
            forall|k: int| 0 <= k < i ==> (#[trigger] out@[k])@ == lowercase(notes@[k].title@),
        decreases notes.len() - i,
    {
        let l = to_lower(&chars_of(notes[i].title.as_str()));
        out.push(l);
        i += 1;
    }
    out
}

/// Whether `link` names one of the titles whose lowercase forms are given.
fn resolves_among(lowered: &Vec<Vec<char>>, link: &str, Ghost(known): Ghost<Seq<Seq<char>>>) -> (r:
    bool)
    requires
        lowered@.len() == known.len(),
        forall|i: int| 0 <= i < known.len() ==> (#[trigger] lowered@[i])@ == lowercase(known[i]),
    ensures
        r == resolves(known, link@),
{
    let target = to_lower(&chars_of(link));
    let mut i: usize = 0;
    while i < lowered.len()
        invariant
            i <= lowered.len(),
            lowered@.len() == known.len(),
            target@ == lowercase(link@),
            forall|k: int| 0 <= k < known.len() ==> (#[trigger] lowered@[k])@ == lowercase(known[k]),
            forall|k: int| 0 <= k < i ==> lowercase(#[trigger] known[k]) != lowercase(link@),
        decreases lowered.len() - i,
    {
        if same_chars(&lowered[i], &target) {
            assert(lowercase(known[i as int]) == lowercase(link@));
            return true;
        }
        i += 1;
    }
    false
}

impl LinkGraph {
    /// The invariant of the type.
    pub open spec fn wf(&self) -> bool {
        self.outbound.wf() && self.inbound.wf()
    }

    /// The graph without notes.
    pub fn new() -> (r: LinkGraph)
        ensures
            r.wf(),
            r.outbound@ == Map::<Seq<char>, Set<Seq<char>>>::empty(),
            r.inbound@ == Map::<Seq<char>, Set<Seq<char>>>::empty(),
    {
        LinkGraph { outbound: LinkMap::new(), inbound: LinkMap::new() }
    }

    /// The graph of `notes`. Every title is a key of `outbound`. A link of
    /// note A whose text L names the title of some note, up to case, puts L
    /// into `outbound[A's title]` and A's title into `inbound[L]`; a link
    /// that names no title leaves no trace.
    pub fn build(notes: &[Note]) -> (graph: LinkGraph)
        ensures
            graph.wf(),
            graph.outbound@ == outbound_of(note_titles(note_views(notes@)), note_views(notes@)),
            graph.inbound@ == inbound_of(note_titles(note_views(notes@)), note_views(notes@)),
    {
        let ghost views = note_views(notes@);
        let ghost known = note_titles(views);
        let lowered = lowered_titles(notes);
        let mut graph = LinkGraph::new();
        let mut i: usize = 0;
        assert(views.take(0) =~= Seq::<NoteView>::empty());
        while i < notes.len()
            invariant
                i <= notes.len(),
                views == note_views(notes@),
                known == note_titles(views),
                lowered@.len() == known.len(),
                forall|k: int|
                    0 <= k < known.len() ==> (#[trigger] lowered@[k])@ == lowercase(known[k]),
                graph.wf(),
                graph.outbound@ == outbound_of(known, views.take(i as int)),
                graph.inbound@ == inbound_of(known, views.take(i as int)),
            decreases notes.len() - i,
        {
            let note = &notes[i];
            let links = extract_wiki_links(note.content.as_str());
            let ghost out_before = graph.outbound@;
            let ghost in_before = graph.inbound@;
            let ghost all = wiki_links(note.content@);
            proof {
                assert(views.take(i + 1).drop_last() =~= views.take(i as int));
                assert(views.take(i + 1).last() == note@);
                assert(all.take(0) =~= Seq::<Seq<char>>::empty());
            }
            graph.outbound.touch(note.title.as_str());
            let mut j: usize = 0;
            while j < links.len()
                invariant
                    j <= links.len(),
                    strings(links@) == all,
                    lowered@.len() == known.len(),
                    forall|k: int|
                        0 <= k < known.len() ==> (#[trigger] lowered@[k])@ == lowercase(known[k]),
                    graph.wf(),
                    graph.outbound@ == outbound_with(
                        out_before,
                        known,
                        note.title@,
                        all.take(j as int),
                    ),
                    graph.inbound@ == inbound_with(in_before, known, note.title@, all.take(j as int)),
                decreases links.len() - j,
            {
                proof {
                    assert(all.take(j + 1).drop_last() =~= all.take(j as int));
                    assert(all.take(j + 1).last() == links@[j as int]@);
                }
                if resolves_among(&lowered, links[j].as_str(), Ghost(known)) {
                    graph.outbound.add(note.title.as_str(), links[j].as_str());
                    graph.inbound.add(links[j].as_str(), note.title.as_str());
                }
                j += 1;
            }
            assert(all.take(links.len() as int) =~= all);
            i += 1;
        }
        assert(views.take(notes.len() as int) =~= views);
        graph
    }

    /// The titles of `all_note_titles` that have no link going out and none
    /// coming in, in the order given. Case is not regarded: a title that a
    /// link reaches under another case is linked.
    pub fn orphaned_notes(&self, all_note_titles: &[String]) -> (r: Vec<String>)
        requires
            self.wf(),
        ensures
            strings(r@) == unconnected(self.outbound@, self.inbound@, strings(all_note_titles@)),
    {
        let ghost titles = strings(all_note_titles@);
        let mut out: Vec<String> = Vec::new();
        let mut i: usize = 0;
        assert(titles.take(0) =~= Seq::<Seq<char>>::empty());
        assert(strings(out@) =~= Seq::<Seq<char>>::empty());
        while i < all_note_titles.len()
            invariant
                i <= all_note_titles.len(),
                self.wf(),
                titles == strings(all_note_titles@),
                strings(out@) == unconnected(self.outbound@, self.inbound@, titles.take(i as int)),
            decreases all_note_titles.len() - i,
        {
            proof {
                assert(titles.take(i + 1).drop_last() =~= titles.take(i as int));
                assert(titles.take(i + 1).last() == all_note_titles@[i as int]@);
            }
            let title = &all_note_titles[i];
            let has_outbound = self.outbound.is_linked_up_to_case(title.as_str());
            let has_inbound = self.inbound.is_linked_up_to_case(title.as_str());
            proof {
                lemma_linked_title(self.outbound@, self.inbound@, title@);
            }
            if !has_outbound && !has_inbound {
                let t = title.clone();
                assert(strings(out@.push(t)) =~= strings(out@).push(t@));
                out.push(t);
            }
            i += 1;
        }
        assert(titles.take(all_note_titles.len() as int) =~= titles);
        out
    }

    /// The links that name no note, by the title of the note that holds
    /// them. A note without such links gives no entry; of two notes with one
    /// title the later one counts.
    pub fn broken_links(&self, notes: &[Note]) -> (r: ListMap)
        ensures
            r.wf(),
            r@ == broken_of(note_titles(note_views(notes@)), note_views(notes@)),
    {
        let ghost views = note_views(notes@);
        let ghost known = note_titles(views);
        let lowered = lowered_titles(notes);
        let mut broken = ListMap::new();
        let mut i: usize = 0;
        assert(views.take(0) =~= Seq::<NoteView>::empty());
        while i < notes.len()
            invariant
                i <= notes.len(),
                views == note_views(notes@),
                known == note_titles(views),
                lowered@.len() == known.len(),
                forall|k: int|
                    0 <= k < known.len() ==> (#[trigger] lowered@[k])@ == lowercase(known[k]),
                broken.wf(),
                broken@ == broken_of(known, views.take(i as int)),
            decreases notes.len() - i,
        {
            let note = &notes[i];
            let links = extract_wiki_links(note.content.as_str());
            let ghost all = wiki_links(note.content@);
            proof {
                assert(views.take(i + 1).drop_last() =~= views.take(i as int));
                assert(views.take(i + 1).last() == note@);
                assert(all.take(0) =~= Seq::<Seq<char>>::empty());
            }
            let mut in_note: Vec<String> = Vec::new();
            assert(strings(in_note@) =~= Seq::<Seq<char>>::empty());
            let mut j: usize = 0;
            while j < links.len()
                invariant
                    j <= links.len(),
                    strings(links@) == all,
                    lowered@.len() == known.len(),
                    forall|k: int|
                        0 <= k < known.len() ==> (#[trigger] lowered@[k])@ == lowercase(known[k]),
                    strings(in_note@) == unresolved(known, all.take(j as int)),
                decreases links.len() - j,
            {
                proof {
                    assert(all.take(j + 1).drop_last() =~= all.take(j as int));
                    assert(all.take(j + 1).last() == links@[j as int]@);
                }
                if !resolves_among(&lowered, links[j].as_str(), Ghost(known)) {
                    let l = links[j].clone();
                    assert(strings(in_note@.push(l)) =~= strings(in_note@).push(l@));
                    in_note.push(l);
                }
                j += 1;
            }
            assert(all.take(links.len() as int) =~= all);
            if in_note.len() > 0 {
                broken.insert(note.title.as_str(), in_note);
            }
            i += 1;
        }
        assert(views.take(notes.len() as int) =~= views);
        broken
    }
}

// ---------------------------------------------------------------------------
// What the graph holds
// ---------------------------------------------------------------------------

/// Whether some note of `notes` with the given title holds `link`.
pub open spec fn note_links_to(notes: Seq<NoteView>, title: Seq<char>, link: Seq<char>) -> bool {
    exists|i: int|
        0 <= i < notes.len() && (#[trigger] notes[i]).title == title && wiki_links(
            notes[i].content,
        ).contains(link)
}

/// Whether some note of `notes` has the given title.
pub open spec fn has_title(notes: Seq<NoteView>, title: Seq<char>) -> bool {
    exists|i: int| 0 <= i < notes.len() && (#[trigger] notes[i]).title == title
}

/// A list holds what its last item is and what the list before it holds.
pub proof fn lemma_contains_last(s: Seq<Seq<char>>, v: Seq<char>)
    requires
        s.len() > 0,
    ensures
        s.contains(v) <==> (s.drop_last().contains(v) || s.last() == v),
{
    let head = s.drop_last();
    if s.contains(v) {
        let m = choose|m: int| 0 <= m < s.len() && s[m] == v;
        if m < s.len() - 1 {
            assert(head[m] == v);
        }
    }
    if head.contains(v) {
        let m = choose|m: int| 0 <= m < head.len() && head[m] == v;
        assert(s[m] == v);
    }
    if s.last() == v {
        assert(s[s.len() - 1] == v);
    }
}

/// The edges after one note: those before it, and its resolved links.
pub proof fn lemma_outbound_with(
    out: Edges,
    known: Seq<Seq<char>>,
    title: Seq<char>,
    links: Seq<Seq<char>>,
    k: Seq<char>,
    v: Seq<char>,
)
    ensures
        has_edge(outbound_with(out, known, title, links), k, v) <==> (has_edge(out, k, v) || (k
            == title && links.contains(v) && resolves(known, v))),
        outbound_with(out, known, title, links).contains_key(k) <==> (out.contains_key(k) || k
            == title),
    decreases links.len(),
{
    if links.len() > 0 {
        lemma_outbound_with(out, known, title, links.drop_last(), k, v);
        lemma_contains_last(links, v);
    }
}

/// The edges after one note: those before it, and its resolved links,
/// turned round.
pub proof fn lemma_inbound_with(
    inb: Edges,
    known: Seq<Seq<char>>,
    title: Seq<char>,
    links: Seq<Seq<char>>,
    k: Seq<char>,
    v: Seq<char>,
)
    ensures
        has_edge(inbound_with(inb, known, title, links), k, v) <==> (has_edge(inb, k, v) || (v
            == title && links.contains(k) && resolves(known, k))),
        inbound_with(inb, known, title, links).contains_key(k) <==> (inb.contains_key(k) || (
        links.contains(k) && resolves(known, k))),
    decreases links.len(),
{
    if links.len() > 0 {
        lemma_inbound_with(inb, known, title, links.drop_last(), k, v);
        lemma_contains_last(links, k);
    }
}

/// The outbound map holds every title as a key, and exactly the resolved
/// links as edges.
pub proof fn lemma_outbound_of(
    known: Seq<Seq<char>>,
    notes: Seq<NoteView>,
    k: Seq<char>,
    v: Seq<char>,
)
    ensures
        has_edge(outbound_of(known, notes), k, v) <==> (note_links_to(notes, k, v) && resolves(
            known,
            v,
        )),
        outbound_of(known, notes).contains_key(k) <==> has_title(notes, k),
    decreases notes.len(),
{
    if notes.len() > 0 {
        let head = notes.drop_last();
        let last = notes.last();
        lemma_outbound_of(known, head, k, v);
        lemma_outbound_with(
            outbound_of(known, head),
            known,
            last.title,
            wiki_links(last.content),
            k,
            v,
        );
        lemma_note_links_to_last(notes, k, v);
    }
}

proof fn lemma_note_links_to_last(notes: Seq<NoteView>, k: Seq<char>, v: Seq<char>)
    requires
        notes.len() > 0,
    ensures
        note_links_to(notes, k, v) <==> (note_links_to(notes.drop_last(), k, v) || (
        notes.last().title == k && wiki_links(notes.last().content).contains(v))),
        has_title(notes, k) <==> (has_title(notes.drop_last(), k) || notes.last().title == k),
{
    let head = notes.drop_last();
    if note_links_to(notes, k, v) {
        let i = choose|i: int|
            0 <= i < notes.len() && (#[trigger] notes[i]).title == k && wiki_links(
                notes[i].content,
            ).contains(v);
        if i < notes.len() - 1 {
            assert(head[i] == notes[i]);
        }
    }
    if note_links_to(head, k, v) {
        let i = choose|i: int|
            0 <= i < head.len() && (#[trigger] head[i]).title == k && wiki_links(
                head[i].content,
            ).contains(v);
        assert(notes[i] == head[i]);
    }
    if has_title(notes, k) {
        let i = choose|i: int| 0 <= i < notes.len() && (#[trigger] notes[i]).title == k;
        if i < notes.len() - 1 {
            assert(head[i] == notes[i]);
        }
    }
    if has_title(head, k) {
        let i = choose|i: int| 0 <= i < head.len() && (#[trigger] head[i]).title == k;
        assert(notes[i] == head[i]);
    }
    if notes.last().title == k {
        assert(notes[notes.len() - 1].title == k);
    }
}

/// The inbound map holds exactly the resolved links as keys, each with the
/// titles of the notes that hold it.
pub proof fn lemma_inbound_of(
    known: Seq<Seq<char>>,
    notes: Seq<NoteView>,
    k: Seq<char>,
    v: Seq<char>,
)
    ensures
        has_edge(inbound_of(known, notes), k, v) <==> (note_links_to(notes, v, k) && resolves(
            known,
            k,
        )),
        inbound_of(known, notes).contains_key(k) ==> resolves(known, k),
    decreases notes.len(),
{
    if notes.len() > 0 {
        let head = notes.drop_last();
        let last = notes.last();
        lemma_inbound_of(known, head, k, v);
        lemma_inbound_with(
            inbound_of(known, head),
            known,
            last.title,
            wiki_links(last.content),
            k,
            v,
        );
        lemma_note_links_to_last(notes, v, k);
    }
}

/// The unresolved links of a list are those of its links that do not
/// resolve.
pub proof fn lemma_unresolved(known: Seq<Seq<char>>, links: Seq<Seq<char>>, v: Seq<char>)
    ensures
        unresolved(known, links).contains(v) <==> (links.contains(v) && !resolves(known, v)),
    decreases links.len(),
{
    if links.len() > 0 {
        let head = links.drop_last();
        lemma_unresolved(known, head, v);
        lemma_contains_last(links, v);
        if !resolves(known, links.last()) {
            let grown = unresolved(known, head).push(links.last());
            assert(grown.drop_last() =~= unresolved(known, head));
            lemma_contains_last(grown, v);
        }
    }
}

/// The entry of a title in the broken links is the list of the last note
/// with that title that has a link which does not resolve.
pub proof fn lemma_broken_of(known: Seq<Seq<char>>, notes: Seq<NoteView>, a: int)
    requires
        0 <= a < notes.len(),
        unresolved(known, wiki_links(notes[a].content)).len() > 0,
        forall|b: int|
            a < b < notes.len() && (#[trigger] notes[b]).title == notes[a].title ==> unresolved(
                known,
                wiki_links(notes[b].content),
            ).len() == 0,
    ensures
        broken_of(known, notes).contains_key(notes[a].title),
        broken_of(known, notes)[notes[a].title] == unresolved(
            known,
            wiki_links(notes[a].content),
        ),
    decreases notes.len(),
{
    let head = notes.drop_last();
    if a < notes.len() - 1 {
        assert(head[a] == notes[a]);
        assert forall|b: int|
            a < b < head.len() && (#[trigger] head[b]).title == head[a].title implies unresolved(
            known,
            wiki_links(head[b].content),
        ).len() == 0 by {
            assert(head[b] == notes[b]);
        }
        lemma_broken_of(known, head, a);
        let last = notes[notes.len() - 1];
        if last.title == notes[a].title {
            assert(unresolved(known, wiki_links(last.content)).len() == 0);
        }
    }
}

/// A link of note A that names the title of some note, up to case, stands
/// in the outbound set of A's title, and A's title stands in the inbound
/// set of the link.
pub proof fn law_resolved_link_is_edge(notes: Seq<NoteView>, a: int, link: Seq<char>)
    requires
        0 <= a < notes.len(),
        wiki_links(notes[a].content).contains(link),
        resolves(note_titles(notes), link),
    ensures
        has_edge(outbound_of(note_titles(notes), notes), notes[a].title, link),
        has_edge(inbound_of(note_titles(notes), notes), link, notes[a].title),
{
    let known = note_titles(notes);
    lemma_outbound_of(known, notes, notes[a].title, link);
    lemma_inbound_of(known, notes, link, notes[a].title);
    assert(note_links_to(notes, notes[a].title, link));
}

/// A link of note A that names no title is no edge of the graph, in either
/// direction, and is listed among the broken links of A's title. Where
/// several notes share A's title, A is the last of them that has a broken
/// link.
pub proof fn law_unresolved_link_is_broken(notes: Seq<NoteView>, a: int, link: Seq<char>)
    requires
        0 <= a < notes.len(),
        wiki_links(notes[a].content).contains(link),
        !resolves(note_titles(notes), link),
        forall|b: int|
            a < b < notes.len() && (#[trigger] notes[b]).title == notes[a].title ==> unresolved(
                note_titles(notes),
                wiki_links(notes[b].content),
            ).len() == 0,
    ensures
        forall|t: Seq<char>| !has_edge(outbound_of(note_titles(notes), notes), t, link),
        !inbound_of(note_titles(notes), notes).contains_key(link),
        broken_of(note_titles(notes), notes).contains_key(notes[a].title),
        broken_of(note_titles(notes), notes)[notes[a].title].contains(link),
{
    let known = note_titles(notes);
    assert forall|t: Seq<char>| !has_edge(outbound_of(known, notes), t, link) by {
        lemma_outbound_of(known, notes, t, link);
    }
    lemma_inbound_of(known, notes, link, notes[a].title);
    lemma_unresolved(known, wiki_links(notes[a].content), link);
    let broken = unresolved(known, wiki_links(notes[a].content));
    assert(broken.len() > 0) by {
        let m = choose|m: int| 0 <= m < broken.len() && broken[m] == link;
    }
    lemma_broken_of(known, notes, a);
}

} // verus!
