use vstd::prelude::*;

verus! {

/// The markdown tags that the document compiler distinguishes; every
/// other tag is `Other` and its content is ignored.
pub enum MdTag {
    Paragraph,
    Heading(u32),
    List,
    Item,
    Table,
    TableHead,
    TableRow,
    TableCell,
    Strong,
    Link,
    Emphasis,
    Other,
}

/// One markdown parse event, as the document compiler consumes it.
pub enum MdEvent {
    Start(MdTag),
    End(MdTag),
    Text(String),
    Code(String),
    SoftBreak,
    HardBreak,
    Rule,
    Ignorable,
}

/// Mathematical model of an `MdEvent`.
#[verifier::ext_equal]
pub enum EventV {
    Start(MdTag),
    End(MdTag),
    Text(Seq<char>),
    Code(Seq<char>),
    SoftBreak,
    HardBreak,
    Rule,
    Ignorable,
}

impl View for MdEvent {
    type V = EventV;

    open spec fn view(&self) -> EventV {
        match self {
            MdEvent::Start(t) => EventV::Start(*t),
            MdEvent::End(t) => EventV::End(*t),
            MdEvent::Text(s) => EventV::Text(s@),
            MdEvent::Code(s) => EventV::Code(s@),
            MdEvent::SoftBreak => EventV::SoftBreak,
            MdEvent::HardBreak => EventV::HardBreak,
            MdEvent::Rule => EventV::Rule,
            MdEvent::Ignorable => EventV::Ignorable,
        }
    }
}

pub open spec fn events_view(s: Seq<MdEvent>) -> Seq<EventV> {
    s.map_values(|e: MdEvent| e@)
}

/// The event stream that the markdown parser produces for a document,
/// with tables and strikethrough enabled. The stream is a function of
/// the document text alone; its exact content is not modelled.
pub uninterp spec fn events_of(s: Seq<char>) -> Seq<EventV>;

#[verifier::external_type_specification]
#[verifier::external_body]
pub struct ExEvent<'a>(pulldown_cmark::Event<'a>);

#[verifier::external_type_specification]
#[verifier::external_body]
pub struct ExTag<'a>(pulldown_cmark::Tag<'a>);

/// Relies on pulldown_cmark's `Tag`: maps each tag the compiler cares
/// about onto the matching `MdTag`, a heading onto its level number, and
/// every other tag onto `MdTag::Other`.
#[verifier::external_body]
fn tag_kind(t: &pulldown_cmark::Tag<'_>) -> MdTag {
    match t {
        pulldown_cmark::Tag::Paragraph => MdTag::Paragraph,
        pulldown_cmark::Tag::Heading(l, _, _) => MdTag::Heading(*l as u32),
        pulldown_cmark::Tag::List(_) => MdTag::List,
        pulldown_cmark::Tag::Item => MdTag::Item,
        pulldown_cmark::Tag::Table(_) => MdTag::Table,
        pulldown_cmark::Tag::TableHead => MdTag::TableHead,
        pulldown_cmark::Tag::TableRow => MdTag::TableRow,
        pulldown_cmark::Tag::TableCell => MdTag::TableCell,
        pulldown_cmark::Tag::Strong => MdTag::Strong,
        pulldown_cmark::Tag::Link(_, _, _) => MdTag::Link,
        pulldown_cmark::Tag::Emphasis => MdTag::Emphasis,
        _ => MdTag::Other,
    }
}

/// Relies on pulldown_cmark's `Event`: maps each event variant onto the
/// matching `MdEvent` variant, moving the text out of text and code
/// events; HTML, task-list markers and footnote references become
/// `Ignorable`.
#[verifier::external_body]
fn convert_event(ev: pulldown_cmark::Event<'_>) -> MdEvent {
    match ev {
        pulldown_cmark::Event::Start(t) => MdEvent::Start(tag_kind(&t)),
        pulldown_cmark::Event::End(t) => MdEvent::End(tag_kind(&t)),
        pulldown_cmark::Event::Text(s) => MdEvent::Text(s.into_string()),
        pulldown_cmark::Event::Code(s) => MdEvent::Code(s.into_string()),
        pulldown_cmark::Event::SoftBreak => MdEvent::SoftBreak,
        pulldown_cmark::Event::HardBreak => MdEvent::HardBreak,
        pulldown_cmark::Event::Rule => MdEvent::Rule,
        _ => MdEvent::Ignorable,
    }
}

/// Relies on pulldown_cmark's `Parser::new_ext`: parses the document
/// with the tables and strikethrough extensions enabled and returns its
/// event stream in order. The same text always parses to the same
/// events, named `events_of`; an empty document parses to no events.
#[verifier::external_body]
pub fn md_events(input: &str) -> (r: Vec<MdEvent>)
    ensures
        events_view(r@) == events_of(input@),
        input@.len() == 0 ==> r@.len() == 0,
{
    let opts = pulldown_cmark::Options::ENABLE_TABLES | pulldown_cmark::Options::ENABLE_STRIKETHROUGH;
    let mut out: Vec<MdEvent> = Vec::new();
    for ev in pulldown_cmark::Parser::new_ext(input, opts) {
        out.push(convert_event(ev));
    }
    out
}

} // verus!
