//! The metadata block at the top of a note: YAML between `---` fences.
//!
//! The YAML itself is read by `serde_yaml`, timestamps by `chrono`. What a
//! field may hold, and what becomes of it, is decided here.

use crate::calendar::{date_of_text, midnight_of, midnight_utc, parse_ymd};
use crate::markdown::{event_models, metadata_events, parse_metadata_blocks, EventModel, MdEvent};
use crate::note::Timestamp;
use crate::task::{opt_text, strings};
use crate::text::{
    chars_of, copy_range, find_char, find_from, first_occurrence, index_of_char,
    lemma_first_occurrence, same_text, skip_spaces, string_of, trim, trim_start, trimmed,
};
use vstd::prelude::*;

verus! {

// ---------------------------------------------------------------------------
// The calls into serde_yaml and chrono
// ---------------------------------------------------------------------------

/// What a YAML document holds under one key of its top-level mapping.
#[derive(Debug)]
pub enum YamlField {
    /// The text is no YAML document, or its root is no mapping.
    Invalid,
    /// The mapping has no such key.
    Absent,
    /// The key is there with the null value.
    Null,
    /// The key is there with a string.
    Text(String),
    /// The key is there with a sequence; an item that is no string is
    /// `None`.
    List(Vec<Option<String>>),
    /// The key is there with a value of another kind.
    Other,
}

/// The mathematical value of a [`YamlField`].
pub enum FieldModel {
    Invalid,
    Absent,
    Null,
    Text(Seq<char>),
    List(Seq<Option<Seq<char>>>),
    Other,
}

impl View for YamlField {
    type V = FieldModel;

    open spec fn view(&self) -> FieldModel {
        match self {
            YamlField::Invalid => FieldModel::Invalid,
            YamlField::Absent => FieldModel::Absent,
            YamlField::Null => FieldModel::Null,
            YamlField::Text(t) => FieldModel::Text(t@),
            YamlField::List(items) => FieldModel::List(items@.map_values(|i: Option<String>| opt_text(i))),
            YamlField::Other => FieldModel::Other,
        }
    }
}

/// What `serde_yaml` finds under `key` in the YAML document `yaml`.
pub uninterp spec fn yaml_field(yaml: Seq<char>, key: Seq<char>) -> FieldModel;

/// Parses `yaml` with `serde_yaml::from_str` into a `serde_yaml::Value` and
/// looks `key` up with `Mapping::get`. The answer is a function of the two
/// texts; it is named `yaml_field`. Nothing is claimed about what it is.
#[verifier::external_body]
pub(crate) fn lookup_yaml(yaml: &str, key: &str) -> (r: YamlField)
    ensures
        r@ == yaml_field(yaml@, key@),
{
    match serde_yaml::from_str::<serde_yaml::Value>(yaml) {
        Ok(serde_yaml::Value::Mapping(map)) => match map.get(key) {
            None => YamlField::Absent,
            Some(serde_yaml::Value::Null) => YamlField::Null,
            Some(serde_yaml::Value::String(text)) => YamlField::Text(text.clone()),
            Some(serde_yaml::Value::Sequence(items)) => YamlField::List(
                items.iter().map(|item| item.as_str().map(str::to_owned)).collect(),
            ),
            Some(_) => YamlField::Other,
        },
        _ => YamlField::Invalid,
    }
}

/// The entries of the YAML mapping `yaml`, in order: the key of each,
/// where it is a text, and its value written as YAML, where `serde_yaml`
/// can write it. There are none where the text is no YAML mapping.
pub uninterp spec fn yaml_entries(yaml: Seq<char>) -> Seq<(Option<Seq<char>>, Option<Seq<char>>)>;

/// The values of a list of entries.
pub open spec fn entry_models(entries: Seq<(Option<String>, Option<String>)>) -> Seq<
    (Option<Seq<char>>, Option<Seq<char>>),
> {
    entries.map_values(|e: (Option<String>, Option<String>)| (opt_text(e.0), opt_text(e.1)))
}

/// Parses `yaml` with `serde_yaml::from_str` into a `serde_yaml::Value`,
/// walks the mapping with `Mapping::iter`, reads each key with
/// `Value::as_str` and writes each value with `serde_yaml::to_string`. The
/// answer is a function of the text; it is named `yaml_entries`. Nothing
/// is claimed about what it is.
#[verifier::external_body]
pub(crate) fn list_yaml(yaml: &str) -> (r: Vec<(Option<String>, Option<String>)>)
    ensures
        entry_models(r@) == yaml_entries(yaml@),
{
    match serde_yaml::from_str::<serde_yaml::Value>(yaml) {
        Ok(serde_yaml::Value::Mapping(map)) => map.iter().map(
            |(key, value)| (key.as_str().map(str::to_owned), serde_yaml::to_string(value).ok()),
        ).collect(),
        _ => Vec::new(),
    }
}

/// The instant that `chrono` reads from an RFC 3339 text.
pub uninterp spec fn rfc3339_instant(s: Seq<char>) -> Option<Timestamp>;

/// The instant of midnight UTC on the day that a text of the form
/// `YYYY-MM-DD` denotes.
pub open spec fn date_midnight(s: Seq<char>) -> Option<Timestamp> {
    match date_of_text(s) {
        Some(d) => Some(midnight_of(d.0, d.1, d.2)),
        None => None,
    }
}

/// Calls `DateTime::parse_from_rfc3339` and hands out the instant as seconds
/// and nanoseconds. The result is a function of the text; it is named
/// `rfc3339_instant`.
#[verifier::external_body]
pub(crate) fn parse_rfc3339(s: &str) -> (r: Option<Timestamp>)
    ensures
        r == rfc3339_instant(s@),
{
    chrono::DateTime::parse_from_rfc3339(s).ok().map(
        |t| Timestamp { seconds: t.timestamp(), nanos: t.timestamp_subsec_nanos() },
    )
}

/// Midnight UTC on the day that a text of the form `YYYY-MM-DD` denotes.
pub fn parse_date(s: &str) -> (r: Option<Timestamp>)
    ensures
        r == date_midnight(s@),
{
    match parse_ymd(s) {
        Some((year, month, day)) => Some(midnight_utc(year, month, day)),
        None => None,
    }
}

// ---------------------------------------------------------------------------
// Fields
// ---------------------------------------------------------------------------

/// A field of the metadata that the library does not read: its key, and
/// its value as YAML text.
#[derive(Debug, Clone, PartialEq, Eq)]
pub struct ExtraField {
    pub key: String,
    pub value: String,
}

impl View for ExtraField {
    type V = (Seq<char>, Seq<char>);

    open spec fn view(&self) -> (Seq<char>, Seq<char>) {
        (self.key@, self.value@)
    }
}

/// The values of a list of fields.
pub open spec fn field_views(fields: Seq<ExtraField>) -> Seq<(Seq<char>, Seq<char>)> {
    fields.map_values(|f: ExtraField| f@)
}

/// The metadata of a note. The fields that the library does not read are
/// kept in `extra`, in their order, so that they are not lost when the
/// metadata is written again.
#[derive(Debug, Clone, PartialEq, Eq)]
pub struct Frontmatter {
    pub title: Option<String>,
    pub tags: Vec<String>,
    pub created: Option<Timestamp>,
    pub updated: Option<Timestamp>,
    pub extra: Vec<ExtraField>,
}

/// The mathematical value of a [`Frontmatter`].
pub struct FrontmatterView {
    pub title: Option<Seq<char>>,
    pub tags: Seq<Seq<char>>,
    pub created: Option<Timestamp>,
    pub updated: Option<Timestamp>,
    pub extra: Seq<(Seq<char>, Seq<char>)>,
}

/// Whether a key is one of the fields that the library reads.
pub open spec fn is_read_key(key: Seq<char>) -> bool {
    key == "title"@ || key == "tags"@ || key == "created"@ || key == "updated"@
}

/// The fields among the entries of a mapping that the library does not
/// read, in order: those with a text as key that is none of `title`,
/// `tags`, `created`, `updated`, and with a value that can be written.
pub open spec fn other_fields(entries: Seq<(Option<Seq<char>>, Option<Seq<char>>)>) -> Seq<
    (Seq<char>, Seq<char>),
>
    decreases entries.len(),
{
    if entries.len() == 0 {
        Seq::empty()
    } else {
        let before = other_fields(entries.drop_last());
        match entries.last() {
            (Some(key), Some(value)) => if is_read_key(key) {
                before
            } else {
                before.push((key, value))
            },
            _ => before,
        }
    }
}

/// The fields of a YAML mapping that the library does not read.
pub fn extra_fields(yaml: &str) -> (r: Vec<ExtraField>)
    ensures
        field_views(r@) == other_fields(yaml_entries(yaml@)),
{
    let entries = list_yaml(yaml);
    let ghost model = entry_models(entries@);
    let mut out: Vec<ExtraField> = Vec::new();
    let mut i: usize = 0;
    assert(model.take(0) =~= Seq::<(Option<Seq<char>>, Option<Seq<char>>)>::empty());
    assert(field_views(out@) =~= Seq::<(Seq<char>, Seq<char>)>::empty());
    while i < entries.len()
        invariant
            i <= entries.len(),
            model == entry_models(entries@),
            field_views(out@) == other_fields(model.take(i as int)),
        decreases entries.len() - i,
    {
        proof {
            assert(model.take(i + 1).drop_last() =~= model.take(i as int));
            assert(model.take(i + 1).last() == (
                opt_text(entries@[i as int].0),
                opt_text(entries@[i as int].1),
            ));
        }
        match (&entries[i].0, &entries[i].1) {
            (Some(key), Some(value)) => {
                let read = same_text(key.as_str(), "title") || same_text(key.as_str(), "tags")
                    || same_text(key.as_str(), "created") || same_text(key.as_str(), "updated");
                if !read {
                    let field = ExtraField { key: key.clone(), value: value.clone() };
                    let ghost before = field_views(out@);
                    out.push(field);
                    assert(field_views(out@) =~= before.push((key@, value@)));
                }
            },
            _ => {},
        }
        i += 1;
    }
    assert(model.take(entries.len() as int) =~= model);
    out
}

impl View for Frontmatter {
    type V = FrontmatterView;

    open spec fn view(&self) -> FrontmatterView {
        FrontmatterView {
            title: opt_text(self.title),
            tags: strings(self.tags@),
            created: self.created,
            updated: self.updated,
            extra: field_views(self.extra@),
        }
    }
}

/// The tags of a comma-separated list: its pieces, trimmed, without the
/// empty ones.
pub open spec fn comma_tags(s: Seq<char>) -> Seq<Seq<char>>
    decreases s.len(),
    via comma_tags_decreases
{
    match index_of_char(s, ',') {
        Some(comma) => piece_tag(s.take(comma)) + comma_tags(s.skip(comma + 1)),
        None => piece_tag(s),
    }
}

#[via_fn]
proof fn comma_tags_decreases(s: Seq<char>) {
    lemma_first_occurrence(s, seq![','], 0);
}

/// One piece of a comma-separated list, as a list of at most one tag.
pub open spec fn piece_tag(piece: Seq<char>) -> Seq<Seq<char>> {
    if trim(piece).len() == 0 {
        Seq::empty()
    } else {
        seq![trim(piece)]
    }
}

/// The strings of a YAML sequence, if all its items are strings.
pub open spec fn all_strings(items: Seq<Option<Seq<char>>>) -> Option<Seq<Seq<char>>>
    decreases items.len(),
{
    if items.len() == 0 {
        Some(Seq::empty())
    } else {
        match (all_strings(items.drop_last()), items.last()) {
            (Some(head), Some(last)) => Some(head.push(last)),
            _ => None,
        }
    }
}

/// The tags that a `tags` field gives: none where it is absent, the items
/// of a sequence of strings as they stand, the pieces of a comma-separated
/// string. Anything else is an error (`None`).
pub open spec fn tags_of_field(field: FieldModel) -> Option<Seq<Seq<char>>> {
    match field {
        FieldModel::Absent => Some(Seq::empty()),
        FieldModel::Text(s) => Some(comma_tags(s)),
        FieldModel::List(items) => all_strings(items),
        _ => None,
    }
}

/// The title that a `title` field gives: none where it is absent or null,
/// a string as it stands. Anything else is an error (`None`).
pub open spec fn title_of_field(field: FieldModel) -> Option<Option<Seq<char>>> {
    match field {
        FieldModel::Absent => Some(None),
        FieldModel::Null => Some(None),
        FieldModel::Text(s) => Some(Some(s)),
        _ => None,
    }
}

/// The instant that a text denotes: an RFC 3339 instant, or else a date
/// `YYYY-MM-DD`, taken as midnight UTC.
pub open spec fn instant_of(s: Seq<char>) -> Option<Timestamp> {
    match rfc3339_instant(s) {
        Some(t) => Some(t),
        None => date_midnight(s),
    }
}

/// The instant that a `created` or `updated` field gives: none where it is
/// absent or null, the instant of a string. A string that denotes no
/// instant, or a value of another kind, is an error (`None`).
pub open spec fn time_of_field(field: FieldModel) -> Option<Option<Timestamp>> {
    match field {
        FieldModel::Absent => Some(None),
        FieldModel::Null => Some(None),
        FieldModel::Text(s) => match instant_of(s) {
            Some(t) => Some(Some(t)),
            None => None,
        },
        _ => None,
    }
}

/// The metadata that a YAML text gives, where each of the four fields is
/// in order; `None` where one of them is not, or the text is no mapping.
pub open spec fn frontmatter_of(yaml: Seq<char>) -> Option<FrontmatterView> {
    match (
        title_of_field(yaml_field(yaml, "title"@)),
        tags_of_field(yaml_field(yaml, "tags"@)),
        time_of_field(yaml_field(yaml, "created"@)),
        time_of_field(yaml_field(yaml, "updated"@)),
    ) {
        (Some(title), Some(tags), Some(created), Some(updated)) => Some(
            FrontmatterView {
                title,
                tags,
                created,
                updated,
                extra: other_fields(yaml_entries(yaml)),
            },
        ),
        _ => None,
    }
}

/// Splits a comma-separated list into its tags.
pub fn parse_comma_tags(s: &Vec<char>) -> (r: Vec<String>)
    ensures
        strings(r@) == comma_tags(s@),
{
    let mut out: Vec<String> = Vec::new();
    let mut rest: Vec<char> = copy_range(s, 0, s.len());
    assert(rest@ =~= s@);
    assert(strings(out@) + comma_tags(rest@) =~= comma_tags(s@));
    loop
        invariant_except_break
            strings(out@) + comma_tags(rest@) == comma_tags(s@),
        ensures
            strings(out@) == comma_tags(s@),
        decreases rest.len(),
    {
        let comma = find_char(&rest, ',');
        let piece = match comma {
            Some(at) => copy_range(&rest, 0, at),
            None => copy_range(&rest, 0, rest.len()),
        };
        let tag = trimmed(&piece);
        let ghost before = strings(out@);
        proof {
            match comma {
                Some(at) => {
                    assert(piece@ =~= rest@.take(at as int));
                },
                None => {
                    assert(piece@ =~= rest@);
                },
            }
        }
        if tag.len() > 0 {
            let t = string_of(&tag);
            out.push(t);
            assert(strings(out@) =~= before + piece_tag(piece@));
        } else {
            assert(strings(out@) =~= before + piece_tag(piece@));
        }
        match comma {
            Some(at) => {
                let next = copy_range(&rest, at + 1, rest.len());
                assert(next@ =~= rest@.skip(at + 1));
                assert(before + piece_tag(piece@) + comma_tags(next@) =~= before + comma_tags(
                    rest@,
                ));
                rest = next;
            },
            None => {
                assert(before + piece_tag(piece@) =~= before + comma_tags(rest@));
                break;
            },
        }
    }
    out
}

/// The strings of a YAML sequence, if all its items are strings.
fn collect_strings(items: &Vec<Option<String>>) -> (r: Option<Vec<String>>)
    ensures
        match r {
            Some(list) => all_strings(items@.map_values(|i: Option<String>| opt_text(i))) == Some(
                strings(list@),
            ),
            None => all_strings(items@.map_values(|i: Option<String>| opt_text(i))) is None,
        },
{
    let ghost model = items@.map_values(|i: Option<String>| opt_text(i));
    let mut out: Vec<String> = Vec::new();
    let mut i: usize = 0;
    assert(model.take(0) =~= Seq::<Option<Seq<char>>>::empty());
    assert(strings(out@) =~= Seq::<Seq<char>>::empty());
    while i < items.len()
        invariant
            i <= items.len(),
            model == items@.map_values(|i: Option<String>| opt_text(i)),
            all_strings(model.take(i as int)) == Some(strings(out@)),
        decreases items.len() - i,
    {
        proof {
            assert(model.take(i + 1).drop_last() =~= model.take(i as int));
            assert(model.take(i + 1).last() == opt_text(items@[i as int]));
        }
        match &items[i] {
            Some(s) => {
                let ghost before = strings(out@);
                out.push(s.clone());
                assert(strings(out@) =~= before.push(s@));
            },
            None => {
                proof {
                    lemma_all_strings_none(model, i as int);
                }
                return None;
            },
        }
        i += 1;
    }
    assert(model.take(items.len() as int) =~= model);
    Some(out)
}

proof fn lemma_all_strings_none(items: Seq<Option<Seq<char>>>, at: int)
    requires
        0 <= at < items.len(),
        items[at] is None,
    ensures
        all_strings(items) is None,
    decreases items.len(),
{
    if at < items.len() - 1 {
        lemma_all_strings_none(items.drop_last(), at);
    }
}

fn parse_time_field(field: &YamlField) -> (r: Option<Option<Timestamp>>)
    ensures
        r == time_of_field(field@),
{
    match field {
        YamlField::Absent => Some(None),
        YamlField::Null => Some(None),
        YamlField::Text(s) => {
            match parse_rfc3339(s.as_str()) {
                Some(t) => Some(Some(t)),
                None => match parse_date(s.as_str()) {
                    Some(t) => Some(Some(t)),
                    None => None,
                },
            }
        },
        _ => None,
    }
}

fn parse_tags_field(field: &YamlField) -> (r: Option<Vec<String>>)
    ensures
        match r {
            Some(tags) => tags_of_field(field@) == Some(strings(tags@)),
            None => tags_of_field(field@) is None,
        },
{
    match field {
        YamlField::Absent => {
            let tags: Vec<String> = Vec::new();
            assert(strings(tags@) =~= Seq::<Seq<char>>::empty());
            Some(tags)
        },
        YamlField::Text(s) => Some(parse_comma_tags(&chars_of(s.as_str()))),
        YamlField::List(items) => collect_strings(items),
        _ => None,
    }
}

fn parse_title_field(field: &YamlField) -> (r: Option<Option<String>>)
    ensures
        match r {
            Some(title) => title_of_field(field@) == Some(opt_text(title)),
            None => title_of_field(field@) is None,
        },
{
    match field {
        YamlField::Absent => Some(None),
        YamlField::Null => Some(None),
        YamlField::Text(s) => Some(Some(s.clone())),
        _ => None,
    }
}

/// Reads the metadata from the YAML text of a metadata block. `None` where
/// the text is no YAML mapping or one of the fields `title`, `tags`,
/// `created`, `updated` holds what it may not; other keys are kept as they
/// are.
pub fn parse_frontmatter(yaml: &str) -> (r: Option<Frontmatter>)
    ensures
        match r {
            Some(fm) => frontmatter_of(yaml@) == Some(fm@),
            None => frontmatter_of(yaml@) is None,
        },
{
    let title = parse_title_field(&lookup_yaml(yaml, "title"));
    let tags = parse_tags_field(&lookup_yaml(yaml, "tags"));
    let created = parse_time_field(&lookup_yaml(yaml, "created"));
    let updated = parse_time_field(&lookup_yaml(yaml, "updated"));
    match (title, tags, created, updated) {
        (Some(title), Some(tags), Some(created), Some(updated)) => Some(
            Frontmatter { title, tags, created, updated, extra: extra_fields(yaml) },
        ),
        _ => None,
    }
}

// ---------------------------------------------------------------------------
// The block in the text
// ---------------------------------------------------------------------------

/// The state of the scan for the metadata block: whether a block is open,
/// whether one was seen, and the text inside the blocks seen.
pub struct MetadataScan {
    pub inside: bool,
    pub found: bool,
    pub yaml: Seq<char>,
}

pub open spec fn metadata_step(state: MetadataScan, event: EventModel) -> MetadataScan {
    match event {
        EventModel::MetadataStart => MetadataScan { inside: true, found: true, yaml: state.yaml },
        EventModel::MetadataEnd => MetadataScan { inside: false, ..state },
        EventModel::Text(t) => if state.inside {
            MetadataScan { yaml: state.yaml + t, ..state }
        } else {
            state
        },
        _ => state,
    }
}

pub open spec fn metadata_scan(events: Seq<EventModel>) -> MetadataScan
    decreases events.len(),
{
    if events.len() == 0 {
        MetadataScan { inside: false, found: false, yaml: Seq::empty() }
    } else {
        metadata_step(metadata_scan(events.drop_last()), events.last())
    }
}

/// Whether `content` has a metadata block.
pub open spec fn has_metadata(content: Seq<char>) -> bool {
    metadata_scan(metadata_events(content)).found
}

/// The YAML text of the metadata block of `content`.
pub open spec fn metadata_yaml(content: Seq<char>) -> Seq<char> {
    metadata_scan(metadata_events(content)).yaml
}

pub open spec fn fence_line() -> Seq<char> {
    seq!['\n', '-', '-', '-', '\n']
}

pub open spec fn fence() -> Seq<char> {
    seq!['\n', '-', '-', '-']
}

/// Where the fence that closes the metadata block begins: at the first
/// line that is `---`, or else at the first line that begins with `---`.
pub open spec fn closing_fence(content: Seq<char>) -> Option<int> {
    match first_occurrence(content, fence_line(), 0) {
        Some(at) => Some(at),
        None => first_occurrence(content, fence(), 0),
    }
}

/// The text of a note after its metadata block, without leading
/// whitespace; the whole text where there is no block.
pub open spec fn after_block(content: Seq<char>) -> Seq<char> {
    if has_metadata(content) && closing_fence(content) is Some {
        trim_start(content.skip(closing_fence(content)->0 + 4))
    } else {
        content
    }
}

/// Whether a note has a metadata block that is not in order: the block is
/// not empty, and its text is no metadata.
pub open spec fn is_malformed(content: Seq<char>) -> bool {
    has_metadata(content) && metadata_yaml(content).len() > 0 && frontmatter_of(
        metadata_yaml(content),
    ) is None
}

/// The body of a note: the text after its metadata block, without
/// leading whitespace. Where there is no block, or the block is not in
/// order, the whole text is the body.
pub open spec fn body_of(content: Seq<char>) -> Seq<char> {
    if is_malformed(content) {
        content
    } else {
        after_block(content)
    }
}

/// The metadata of a note: that of its metadata block, where it has one
/// that is not empty and is in order.
pub open spec fn note_frontmatter(content: Seq<char>) -> Option<FrontmatterView> {
    if has_metadata(content) && metadata_yaml(content).len() > 0 {
        frontmatter_of(metadata_yaml(content))
    } else {
        None
    }
}

/// The metadata block of a note as text: its YAML, where the note has a
/// block that is not empty, and the text after the block.
pub fn split_metadata(content: &str) -> (r: (Option<String>, String))
    ensures
        r.0 is Some <==> has_metadata(content@) && metadata_yaml(content@).len() > 0,
        r.0 is Some ==> r.0->0@ == metadata_yaml(content@),
        r.1@ == after_block(content@),
{
    let events = parse_metadata_blocks(content);
    let ghost model = event_models(events@);
    let mut inside = false;
    let mut found = false;
    let mut yaml = String::new();
    let mut i: usize = 0;
    assert(model.take(0) =~= Seq::<EventModel>::empty());
    while i < events.len()
        invariant
            i <= events.len(),
            model == event_models(events@),
            metadata_scan(model.take(i as int)) == (MetadataScan { inside, found, yaml: yaml@ }),
        decreases events.len() - i,
    {
        proof {
            assert(model.take(i + 1).drop_last() =~= model.take(i as int));
            assert(model.take(i + 1).last() == events@[i as int]@);
        }
        match &events[i] {
            MdEvent::MetadataStart => {
                inside = true;
                found = true;
            },
            MdEvent::MetadataEnd => {
                inside = false;
            },
            MdEvent::Text(t) => {
                if inside {
                    yaml.push_str(t.as_str());
                }
            },
            _ => {},
        }
        i += 1;
    }
    assert(model.take(events.len() as int) =~= model);
    let yaml_chars = chars_of(yaml.as_str());
    let block = if found && yaml_chars.len() > 0 {
        Some(yaml)
    } else {
        None
    };
    let chars = chars_of(content);
    let body = if found {
        let line: Vec<char> = vec!['\n', '-', '-', '-', '\n'];
        let bare: Vec<char> = vec!['\n', '-', '-', '-'];
        assert(line@ =~= fence_line());
        assert(bare@ =~= fence());
        let at = match find_from(&chars, &line, 0) {
            Some(at) => Some(at),
            None => find_from(&chars, &bare, 0),
        };
        match at {
            Some(at) => {
                proof {
                    lemma_first_occurrence(chars@, fence_line(), 0);
                    lemma_first_occurrence(chars@, fence(), 0);
                    assert(fence_line().len() == 5);
                    assert(fence().len() == 4);
                    assert(closing_fence(chars@) == Some(at as int));
                    assert(at + 4 <= chars.len());
                }
                let start = skip_spaces(&chars, at + 4);
                let body = copy_range(&chars, start, chars.len());
                assert(body@ =~= trim_start(chars@.skip(at + 4)));
                string_of(&body)
            },
            None => string_of(&chars),
        }
    } else {
        string_of(&chars)
    };
    (block, body)
}

/// The text of a note with the given metadata block and body: the YAML
/// text between two fences, then the body.
pub open spec fn note_text(yaml: Seq<char>, body: Seq<char>) -> Seq<char> {
    "---\n"@ + yaml + "---\n"@ + body
}

/// Puts a note together from the YAML text of its metadata block, which
/// ends with a line break, and its body.
pub fn join_metadata(yaml: &str, body: &str) -> (r: String)
    ensures
        r@ == note_text(yaml@, body@),
{
    let mut out = "---\n".to_owned();
    out.push_str(yaml);
    out.push_str("---\n");
    out.push_str(body);
    out
}

/// Whether a note has a metadata block that is not in order, so that it
/// counts as a note without metadata.
pub fn has_malformed_metadata(content: &str) -> (r: bool)
    ensures
        r == is_malformed(content@),
{
    match split_metadata(content).0 {
        Some(yaml) => parse_frontmatter(yaml.as_str()).is_none(),
        None => false,
    }
}

/// Splits a note into metadata and body. A block that is malformed counts
/// as no metadata, and the whole text is the body then; else the body is
/// what follows the closing fence.
pub fn extract_frontmatter(content: &str) -> (r: (Option<Frontmatter>, String))
    ensures
        r.0 is Some == note_frontmatter(content@) is Some,
        r.0 is Some ==> r.0->0@ == note_frontmatter(content@)->0,
        r.1@ == body_of(content@),
{
    let (block, body) = split_metadata(content);
    match block {
        Some(yaml) => match parse_frontmatter(yaml.as_str()) {
            Some(frontmatter) => (Some(frontmatter), body),
            None => (None, content.to_owned()),
        },
        None => (None, body),
    }
}

} // verus!
