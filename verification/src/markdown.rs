//! The markdown event stream.
//!
//! The structure of a note (metadata block, headings, list items, text runs)
//! is recovered by `pulldown_cmark`. This module holds the events that the
//! rest of the crate reads, as plain values, and the two calls into the parser.

use pulldown_cmark::{Event, MetadataBlockKind, Options, Parser, Tag, TagEnd};
use vstd::prelude::*;

verus! {

/// One parser event, reduced to what this crate reads.
#[derive(Debug)]
pub enum MdEvent {
    /// A YAML metadata block opens.
    MetadataStart,
    /// A YAML metadata block closes.
    MetadataEnd,
    /// A heading of the given level (1 to 6) opens.
    HeadingStart(u8),
    /// A heading of the given level closes.
    HeadingEnd(u8),
    /// A list item opens.
    ItemStart,
    /// A list item closes.
    ItemEnd,
    /// A run of text.
    Text(String),
    /// An inline code span.
    Code(String),
    /// Any other event.
    Other,
}

/// An event together with the byte offsets at which its source range
/// starts and ends.
#[derive(Debug)]
pub struct MdSpan {
    pub event: MdEvent,
    pub start: usize,
    pub end: usize,
}

/// The mathematical value of an [`MdEvent`].
pub enum EventModel {
    MetadataStart,
    MetadataEnd,
    HeadingStart(u8),
    HeadingEnd(u8),
    ItemStart,
    ItemEnd,
    Text(Seq<char>),
    Code(Seq<char>),
    Other,
}

/// The mathematical value of an [`MdSpan`].
pub struct SpanModel {
    pub event: EventModel,
    pub start: int,
    pub end: int,
}

impl View for MdEvent {
    type V = EventModel;

    open spec fn view(&self) -> EventModel {
        match self {
            MdEvent::MetadataStart => EventModel::MetadataStart,
            MdEvent::MetadataEnd => EventModel::MetadataEnd,
            MdEvent::HeadingStart(level) => EventModel::HeadingStart(*level),
            MdEvent::HeadingEnd(level) => EventModel::HeadingEnd(*level),
            MdEvent::ItemStart => EventModel::ItemStart,
            MdEvent::ItemEnd => EventModel::ItemEnd,
            MdEvent::Text(text) => EventModel::Text(text@),
            MdEvent::Code(text) => EventModel::Code(text@),
            MdEvent::Other => EventModel::Other,
        }
    }
}

impl View for MdSpan {
    type V = SpanModel;

    open spec fn view(&self) -> SpanModel {
        SpanModel { event: self.event@, start: self.start as int, end: self.end as int }
    }
}

/// The values of a list of events.
pub open spec fn event_models(events: Seq<MdEvent>) -> Seq<EventModel> {
    events.map_values(|e: MdEvent| e@)
}

/// The values of a list of spans.
pub open spec fn span_models(spans: Seq<MdSpan>) -> Seq<SpanModel> {
    spans.map_values(|s: MdSpan| s@)
}

/// The events that `pulldown_cmark` yields for `content` with its default
/// options, each with the start and the end of its source range.
pub uninterp spec fn markdown_spans(content: Seq<char>) -> Seq<SpanModel>;

/// The events that `pulldown_cmark` yields for `content` when YAML-style
/// metadata blocks are enabled.
pub uninterp spec fn metadata_events(content: Seq<char>) -> Seq<EventModel>;

/// Runs `Parser::new(content).into_offset_iter()` to its end. The parser is
/// deterministic, so the event list is a function of the text; it is named
/// `markdown_spans`. Headings, list items, text and code spans are kept, every
/// other event becomes `Other`.
#[verifier::external_body]
pub(crate) fn parse_markdown(content: &str) -> (spans: Vec<MdSpan>)
    ensures
        span_models(spans@) == markdown_spans(content@),
{
    Parser::new(content).into_offset_iter().map(|(event, range)| MdSpan {
        event: match event {
            Event::Start(Tag::Heading { level, .. }) => MdEvent::HeadingStart(level as u8),
            Event::End(TagEnd::Heading(level)) => MdEvent::HeadingEnd(level as u8),
            Event::Start(Tag::Item) => MdEvent::ItemStart,
            Event::End(TagEnd::Item) => MdEvent::ItemEnd,
            Event::Text(text) => MdEvent::Text(text.to_string()),
            Event::Code(text) => MdEvent::Code(text.to_string()),
            _ => MdEvent::Other,
        },
        start: range.start,
        end: range.end,
    }).collect()
}

/// Runs `Parser::new_ext` with `ENABLE_YAML_STYLE_METADATA_BLOCKS` to its end.
/// The event list is a function of the text; it is named `metadata_events`.
/// The bounds of YAML metadata blocks and text runs are kept, every other
/// event becomes `Other`.
#[verifier::external_body]
pub(crate) fn parse_metadata_blocks(content: &str) -> (events: Vec<MdEvent>)
    ensures
        event_models(events@) == metadata_events(content@),
{
    Parser::new_ext(content, Options::ENABLE_YAML_STYLE_METADATA_BLOCKS).map(|event| match event {
        Event::Start(Tag::MetadataBlock(MetadataBlockKind::YamlStyle)) => MdEvent::MetadataStart,
        Event::End(TagEnd::MetadataBlock(MetadataBlockKind::YamlStyle)) => MdEvent::MetadataEnd,
        Event::Text(text) => MdEvent::Text(text.to_string()),
        _ => MdEvent::Other,
    }).collect()
}

} // verus!
