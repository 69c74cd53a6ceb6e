//! The health report of a note collection: broken links, missing tags and
//! metadata, titles used twice, notes that nothing connects.

use crate::links::{
    broken_of, inbound_of, is_connected, is_linked_title, law_resolved_link_is_edge,
    lemma_contains_last, lemma_unconnected, note_titles, outbound_of, resolves, targets,
    unconnected, wiki_links, LinkGraph,
};
use crate::listmap::{append_item, ListMap, Lists};
use crate::note::{note_views, Note, NoteView};
use crate::task::strings;
use crate::text::{chars_of, lowercase, same_text, string_of, to_lower};
use vstd::prelude::*;

verus! {

/// What a health check found.
#[derive(Debug, Clone)]
pub struct HealthReport {
    /// By the title of a note, the links in it that name no note.
    pub broken_links: ListMap,
    /// The titles of the notes without tags.
    pub notes_without_tags: Vec<String>,
    /// The titles of the notes without tags and without timestamps.
    pub notes_without_frontmatter: Vec<String>,
    /// By lowercase title, the paths of the notes that share it; only titles
    /// that two notes or more share.
    pub duplicate_titles: ListMap,
    /// The titles of the notes without links and without tags. A link
    /// reaches a note under whatever case it writes the title.
    pub orphaned_notes: Vec<String>,
}

impl HealthReport {
    /// The invariant of the type.
    pub open spec fn wf(&self) -> bool {
        self.broken_links.wf() && self.duplicate_titles.wf()
    }

    /// The number of findings: notes with broken links, notes without
    /// tags, notes without metadata, titles used twice, orphaned notes.
    pub open spec fn total(&self) -> nat {
        self.broken_links@.dom().len() + self.notes_without_tags@.len()
            + self.notes_without_frontmatter@.len() + self.duplicate_titles@.dom().len()
            + self.orphaned_notes@.len()
    }

    /// Whether anything was found.
    pub fn has_issues(&self) -> (r: bool)
        requires
            self.wf(),
        ensures
            r == (self.total() > 0),
    {
        let broken = self.broken_links.len();
        let duplicates = self.duplicate_titles.len();
        broken > 0 || self.notes_without_tags.len() > 0 || self.notes_without_frontmatter.len() > 0
            || duplicates > 0 || self.orphaned_notes.len() > 0
    }

    /// The number of findings, one for each entry of each of the five
    /// lists: a note with several broken links counts once. A number that
    /// does not fit is given as the largest that does.
    pub fn issue_count(&self) -> (r: usize)
        requires
            self.wf(),
        ensures
            r == if self.total() <= usize::MAX {
                self.total()
            } else {
                usize::MAX as nat
            },
    {
        let count = self.broken_links.len();
        let count = count.saturating_add(self.notes_without_tags.len());
        let count = count.saturating_add(self.notes_without_frontmatter.len());
        let count = count.saturating_add(self.duplicate_titles.len());
        count.saturating_add(self.orphaned_notes.len())
    }
}

/// The titles of the notes that satisfy `keep`, in order.
pub open spec fn titles_where(notes: Seq<NoteView>, keep: spec_fn(NoteView) -> bool) -> Seq<
    Seq<char>,
>
    decreases notes.len(),
{
    if notes.len() == 0 {
        Seq::empty()
    } else {
        let prev = titles_where(notes.drop_last(), keep);
        if keep(notes.last()) {
            prev.push(notes.last().title)
        } else {
            prev
        }
    }
}

/// Whether a note has no tags.
pub open spec fn untagged(note: NoteView) -> bool {
    note.tags.len() == 0
}

/// Whether a note shows no sign of metadata: no tags, no timestamps.
pub open spec fn bare(note: NoteView) -> bool {
    note.tags.len() == 0 && note.created is None && note.updated is None
}

/// The paths of the notes by lowercase title, in order.
pub open spec fn title_groups(notes: Seq<NoteView>) -> Lists
    decreases notes.len(),
{
    if notes.len() == 0 {
        Map::empty()
    } else {
        append_item(
            title_groups(notes.drop_last()),
            lowercase(notes.last().title),
            notes.last().path,
        )
    }
}

/// The groups of two paths or more.
pub open spec fn duplicates_of(notes: Seq<NoteView>) -> Lists {
    let groups = title_groups(notes);
    Map::new(|k: Seq<char>| groups.contains_key(k) && groups[k].len() > 1, |k: Seq<char>| groups[k])
}

/// Whether the first note with the given title has no tags; true where no
/// note has the title.
pub open spec fn first_is_untagged(notes: Seq<NoteView>, title: Seq<char>) -> bool
    decreases notes.len(),
{
    if notes.len() == 0 {
        true
    } else if notes[0].title == title {
        notes[0].tags.len() == 0
    } else {
        first_is_untagged(notes.drop_first(), title)
    }
}

/// The titles of `titles` whose first note has no tags, in order.
pub open spec fn untagged_among(notes: Seq<NoteView>, titles: Seq<Seq<char>>) -> Seq<Seq<char>>
    decreases titles.len(),
{
    if titles.len() == 0 {
        Seq::empty()
    } else {
        let prev = untagged_among(notes, titles.drop_last());
        if first_is_untagged(notes, titles.last()) {
            prev.push(titles.last())
        } else {
            prev
        }
    }
}

/// The orphaned notes: the titles, in order, of the notes that the graph
/// leaves unconnected, under any case of the title, and whose title first
/// belongs to a note without tags.
pub open spec fn orphans_of(notes: Seq<NoteView>) -> Seq<Seq<char>> {
    let known = note_titles(notes);
    untagged_among(
        notes,
        unconnected(outbound_of(known, notes), inbound_of(known, notes), known),
    )
}

fn titles_of(notes: &[Note]) -> (r: Vec<String>)
    ensures
        strings(r@) == note_titles(note_views(notes@)),
{
    let mut out: Vec<String> = Vec::new();
    let mut i: usize = 0;
    while i < notes.len()
        invariant
            i <= notes.len(),
            strings(out@) =~= note_titles(note_views(notes@)).take(i as int),
        decreases notes.len() - i,
    {
        let ghost before = strings(out@);
        out.push(notes[i].title.clone());
        assert(strings(out@) =~= before.push(notes@[i as int].title@));
        i += 1;
    }
    assert(note_titles(note_views(notes@)).take(notes.len() as int) =~= note_titles(
        note_views(notes@),
    ));
    out
}

fn check_first_untagged(notes: &[Note], title: &str) -> (r: bool)
    ensures
        r == first_is_untagged(note_views(notes@), title@),
{
    let ghost views = note_views(notes@);
    let mut i: usize = 0;
    assert(views.skip(0) =~= views);
    while i < notes.len()
        invariant
            i <= notes.len(),
            views == note_views(notes@),
            first_is_untagged(views, title@) == first_is_untagged(views.skip(i as int), title@),
        decreases notes.len() - i,
    {
        proof {
            assert(views.skip(i as int)[0] == notes@[i as int]@);
            assert(views.skip(i as int).drop_first() =~= views.skip(i + 1));
        }
        if same_text(notes[i].title.as_str(), title) {
            return notes[i].tags.len() == 0;
        }
        i += 1;
    }
    true
}

/// Checks a note collection. The five findings are independent of each
/// other; the link graph is built once and serves broken links and orphans.
pub fn check_health(notes: &[Note]) -> (report: HealthReport)
    ensures
        report.wf(),
        report.broken_links@ == broken_of(note_titles(note_views(notes@)), note_views(notes@)),
        strings(report.notes_without_tags@) == titles_where(
            note_views(notes@),
            |n: NoteView| untagged(n),
        ),
        strings(report.notes_without_frontmatter@) == titles_where(
            note_views(notes@),
            |n: NoteView| bare(n),
        ),
        report.duplicate_titles@ == duplicates_of(note_views(notes@)),
        strings(report.orphaned_notes@) == orphans_of(note_views(notes@)),
{
    let ghost views = note_views(notes@);
    let graph = LinkGraph::build(notes);
    let broken_links = graph.broken_links(notes);

    let mut notes_without_tags: Vec<String> = Vec::new();
    let mut notes_without_frontmatter: Vec<String> = Vec::new();
    let mut groups = ListMap::new();
    let mut i: usize = 0;
    assert(views.take(0) =~= Seq::<NoteView>::empty());
    assert(strings(notes_without_tags@) =~= Seq::<Seq<char>>::empty());
    assert(strings(notes_without_frontmatter@) =~= Seq::<Seq<char>>::empty());
    while i < notes.len()
        invariant
            i <= notes.len(),
            views == note_views(notes@),
            groups.wf(),
            strings(notes_without_tags@) == titles_where(
                views.take(i as int),
                |n: NoteView| untagged(n),
            ),
            strings(notes_without_frontmatter@) == titles_where(
                views.take(i as int),
                |n: NoteView| bare(n),
            ),
            groups@ == title_groups(views.take(i as int)),
        decreases notes.len() - i,
    {
        proof {
            assert(views.take(i + 1).drop_last() =~= views.take(i as int));
            assert(views.take(i + 1).last() == notes@[i as int]@);
        }
        let note = &notes[i];
        if note.tags.len() == 0 {
            let ghost before = strings(notes_without_tags@);
            notes_without_tags.push(note.title.clone());
            assert(strings(notes_without_tags@) =~= before.push(note.title@));
            if note.created.is_none() && note.updated.is_none() {
                let ghost before = strings(notes_without_frontmatter@);
                notes_without_frontmatter.push(note.title.clone());
                assert(strings(notes_without_frontmatter@) =~= before.push(note.title@));
            }
        }
        let key = string_of(&to_lower(&chars_of(note.title.as_str())));
        groups.append(key.as_str(), note.path.clone());
        i += 1;
    }
    assert(views.take(notes.len() as int) =~= views);

    let mut duplicate_titles = ListMap::new();
    let count = groups.len();
    let mut k: usize = 0;
    while k < count
        invariant
            k <= count,
            count == groups.keys().len(),
            groups.wf(),
            duplicate_titles.wf(),
            forall|key: Seq<char>|
                duplicate_titles@.contains_key(key) <==> (exists|m: int|
                    0 <= m < k && groups.keys()[m] == key && groups@[key].len() > 1),
            forall|key: Seq<char>|
                duplicate_titles@.contains_key(key) ==> duplicate_titles@[key] == groups@[key],
        decreases count - k,
    {
        let list = groups.list_at(k);
        let key = groups.key_at(k);
        if list.len() > 1 {
            let ghost before = duplicate_titles@;
            let copy = crate::text::clone_strings(list);
            assert(strings(copy@) =~= strings(list@));
            duplicate_titles.insert(key.as_str(), copy);
            assert forall|q: Seq<char>| duplicate_titles@.contains_key(q) <==> (exists|m: int|
                0 <= m < k + 1 && groups.keys()[m] == q && groups@[q].len() > 1) by {
                if duplicate_titles@.contains_key(q) {
                    if q == key@ {
                        assert(groups.keys()[k as int] == q);
                    } else {
                        assert(before.contains_key(q));
                    }
                }
            }
        } else {
            assert forall|q: Seq<char>| duplicate_titles@.contains_key(q) <==> (exists|m: int|
                0 <= m < k + 1 && groups.keys()[m] == q && groups@[q].len() > 1) by {
                if exists|m: int| 0 <= m < k + 1 && groups.keys()[m] == q && groups@[q].len() > 1 {
                    let m = choose|m: int|
                        0 <= m < k + 1 && groups.keys()[m] == q && groups@[q].len() > 1;
                    assert(m < k);
                }
            }
        }
        k += 1;
    }
    proof {
        groups.lemma_keys();
        assert forall|q: Seq<char>| duplicate_titles@.contains_key(q) <==> (groups@.contains_key(
            q,
        ) && groups@[q].len() > 1) by {
            if groups@.contains_key(q) && groups@[q].len() > 1 {
                groups.lemma_key_index(q);
                let m = groups.spec_index_of(q);
                assert(0 <= m < count && groups.keys()[m] == q);
            }
            if duplicate_titles@.contains_key(q) {
                let m = choose|m: int|
                    0 <= m < count && groups.keys()[m] == q && groups@[q].len() > 1;
                assert(groups.keys().contains(q));
                assert(groups.keys().to_set().contains(q));
            }
        }
        assert(duplicate_titles@ =~= duplicates_of(views));
    }

    let all_titles = titles_of(notes);
    let unlinked = graph.orphaned_notes(all_titles.as_slice());
    let ghost candidates = strings(unlinked@);
    let mut orphaned_notes: Vec<String> = Vec::new();
    let mut j: usize = 0;
    assert(candidates.take(0) =~= Seq::<Seq<char>>::empty());
    assert(strings(orphaned_notes@) =~= Seq::<Seq<char>>::empty());
    while j < unlinked.len()
        invariant
            j <= unlinked.len(),
            views == note_views(notes@),
            candidates == strings(unlinked@),
            strings(orphaned_notes@) == untagged_among(views, candidates.take(j as int)),
        decreases unlinked.len() - j,
    {
        proof {
            assert(candidates.take(j + 1).drop_last() =~= candidates.take(j as int));
            assert(candidates.take(j + 1).last() == unlinked@[j as int]@);
        }
        if check_first_untagged(notes, unlinked[j].as_str()) {
            let ghost before = strings(orphaned_notes@);
            orphaned_notes.push(unlinked[j].clone());
            assert(strings(orphaned_notes@) =~= before.push(unlinked@[j as int]@));
        }
        j += 1;
    }
    assert(candidates.take(unlinked.len() as int) =~= candidates);

    HealthReport {
        broken_links,
        notes_without_tags,
        notes_without_frontmatter,
        duplicate_titles,
        orphaned_notes,
    }
}

// ---------------------------------------------------------------------------
// What the report holds
// ---------------------------------------------------------------------------

/// The titles kept are those of the list whose first note has no tags.
pub proof fn lemma_untagged_among(notes: Seq<NoteView>, titles: Seq<Seq<char>>, title: Seq<char>)
    ensures
        untagged_among(notes, titles).contains(title) <==> (titles.contains(title)
            && first_is_untagged(notes, title)),
    decreases titles.len(),
{
    if titles.len() > 0 {
        let head = titles.drop_last();
        lemma_untagged_among(notes, head, title);
        lemma_contains_last(titles, title);
        if first_is_untagged(notes, titles.last()) {
            let grown = untagged_among(notes, head).push(titles.last());
            assert(grown.drop_last() =~= untagged_among(notes, head));
            lemma_contains_last(grown, title);
        }
    }
}

/// The first note with a title decides whether the title counts as
/// untagged.
pub proof fn lemma_first_is_untagged(notes: Seq<NoteView>, a: int)
    requires
        0 <= a < notes.len(),
        forall|b: int| 0 <= b < a ==> (#[trigger] notes[b]).title != notes[a].title,
    ensures
        first_is_untagged(notes, notes[a].title) == (notes[a].tags.len() == 0),
    decreases a,
{
    if a > 0 {
        let rest = notes.drop_first();
        assert(notes[0].title != notes[a].title);
        assert(rest[a - 1] == notes[a]);
        assert forall|b: int| 0 <= b < a - 1 implies (#[trigger] rest[b]).title != rest[a
            - 1].title by {
            assert(rest[b] == notes[b + 1]);
        }
        lemma_first_is_untagged(rest, a - 1);
    }
}

/// A note without tags whose title has no link going out or coming in,
/// under any case, is reported as orphaned, provided that no earlier note
/// of the same title has tags: of notes with one title the first decides.
pub proof fn law_untagged_unlinked_is_orphan(notes: Seq<NoteView>, a: int)
    requires
        0 <= a < notes.len(),
        notes[a].tags.len() == 0,
        !is_linked_title(
            outbound_of(note_titles(notes), notes),
            inbound_of(note_titles(notes), notes),
            notes[a].title,
        ),
        first_is_untagged(notes, notes[a].title),
    ensures
        orphans_of(notes).contains(notes[a].title),
{
    let known = note_titles(notes);
    let outbound = outbound_of(known, notes);
    let inbound = inbound_of(known, notes);
    assert(known[a] == notes[a].title);
    lemma_unconnected(outbound, inbound, known, notes[a].title);
    lemma_untagged_among(notes, unconnected(outbound, inbound, known), notes[a].title);
}

/// A note that some note links to is not reported as orphaned, under
/// whatever case the link writes its title; nor is the note that holds
/// the link.
pub proof fn law_linked_notes_are_no_orphans(
    notes: Seq<NoteView>,
    a: int,
    b: int,
    link: Seq<char>,
)
    requires
        0 <= a < notes.len(),
        0 <= b < notes.len(),
        wiki_links(notes[b].content).contains(link),
        lowercase(link) == lowercase(notes[a].title),
    ensures
        !orphans_of(notes).contains(notes[a].title),
        !orphans_of(notes).contains(notes[b].title),
{
    let known = note_titles(notes);
    let outbound = outbound_of(known, notes);
    let inbound = inbound_of(known, notes);
    let linked = notes[a].title;
    let linking = notes[b].title;
    assert(known[a] == linked);
    assert(resolves(known, link));
    law_resolved_link_is_edge(notes, b, link);
    assert(targets(inbound, link).contains(linking));
    assert(targets(outbound, linking).contains(link));
    assert(lowercase(link) == lowercase(linked) && is_connected(outbound, inbound, link));
    assert(lowercase(linking) == lowercase(linking) && is_connected(outbound, inbound, linking));
    lemma_unconnected(outbound, inbound, known, linked);
    lemma_unconnected(outbound, inbound, known, linking);
    lemma_untagged_among(notes, unconnected(outbound, inbound, known), linked);
    lemma_untagged_among(notes, unconnected(outbound, inbound, known), linking);
}

/// A note with a tag is not reported as orphaned, whatever its links,
/// provided that it is the first note of its title.
pub proof fn law_tagged_is_no_orphan(notes: Seq<NoteView>, a: int)
    requires
        0 <= a < notes.len(),
        notes[a].tags.len() > 0,
        forall|b: int| 0 <= b < a ==> (#[trigger] notes[b]).title != notes[a].title,
    ensures
        !orphans_of(notes).contains(notes[a].title),
{
    let known = note_titles(notes);
    let outbound = outbound_of(known, notes);
    let inbound = inbound_of(known, notes);
    lemma_first_is_untagged(notes, a);
    lemma_untagged_among(notes, unconnected(outbound, inbound, known), notes[a].title);
}

/// The group of a lowercase title holds the path of every note that has
/// the title up to case.
pub proof fn lemma_title_groups(notes: Seq<NoteView>, i: int)
    requires
        0 <= i < notes.len(),
    ensures
        title_groups(notes).contains_key(lowercase(notes[i].title)),
        title_groups(notes)[lowercase(notes[i].title)].contains(notes[i].path),
    decreases notes.len(),
{
    let head = notes.drop_last();
    let last = notes.last();
    let key = lowercase(notes[i].title);
    if i < notes.len() - 1 {
        assert(head[i] == notes[i]);
        lemma_title_groups(head, i);
        if lowercase(last.title) == key {
            let before = title_groups(head)[key];
            let m = choose|m: int| 0 <= m < before.len() && before[m] == notes[i].path;
            assert(before.push(last.path)[m] == notes[i].path);
        }
    } else {
        let groups = title_groups(head);
        if groups.contains_key(key) {
            assert(groups[key].push(last.path)[groups[key].len() as int] == last.path);
        } else {
            assert(seq![last.path][0] == last.path);
        }
    }
}

/// The group of a lowercase title that two notes share holds two paths or
/// more.
pub proof fn lemma_title_group_len(notes: Seq<NoteView>, i: int, j: int)
    requires
        0 <= i < j < notes.len(),
        lowercase(notes[i].title) == lowercase(notes[j].title),
    ensures
        title_groups(notes).contains_key(lowercase(notes[i].title)),
        title_groups(notes)[lowercase(notes[i].title)].len() > 1,
    decreases notes.len(),
{
    let head = notes.drop_last();
    let key = lowercase(notes[i].title);
    assert(head[i] == notes[i]);
    if j < notes.len() - 1 {
        assert(head[j] == notes[j]);
        lemma_title_group_len(head, i, j);
    } else {
        lemma_title_groups(head, i);
        let before = title_groups(head)[key];
        let m = choose|m: int| 0 <= m < before.len() && before[m] == notes[i].path;
    }
}

/// Two notes whose titles differ only in case are reported as one group of
/// duplicates, under the lowercase title, with the paths of both.
pub proof fn law_titles_equal_up_to_case_are_duplicates(notes: Seq<NoteView>, i: int, j: int)
    requires
        0 <= i < j < notes.len(),
        lowercase(notes[i].title) == lowercase(notes[j].title),
    ensures
        duplicates_of(notes).contains_key(lowercase(notes[i].title)),
        duplicates_of(notes)[lowercase(notes[i].title)].contains(notes[i].path),
        duplicates_of(notes)[lowercase(notes[i].title)].contains(notes[j].path),
{
    lemma_title_group_len(notes, i, j);
    lemma_title_groups(notes, i);
    lemma_title_groups(notes, j);
}

} // verus!
