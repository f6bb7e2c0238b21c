//! Markdown as an event stream, parsed by pulldown-cmark.

use pulldown_cmark::{CodeBlockKind, Event, Options, Parser, Tag};
use vstd::prelude::*;

verus! {

/// The markdown elements that the hover renderer distinguishes.
#[derive(Clone, Debug, PartialEq, Eq)]
pub enum MdTag {
    Paragraph,
    Heading,
    /// A fenced code block with its info string (the language name).
    FencedCode(String),
    IndentedCode,
    Emphasis,
    Strong,
    /// A link with its destination URL.
    Link(String),
    /// A list: `Some(n)` for an ordered list whose first item is numbered `n`.
    List(Option<u64>),
    Item,
    /// Any other element (block quote, table, image, ...).
    Other,
}

/// One event of a markdown event stream.
#[derive(Clone, Debug, PartialEq, Eq)]
pub enum MdEvent {
    Start(MdTag),
    End(MdTag),
    Text(String),
    Code(String),
    SoftBreak,
    HardBreak,
    Other,
}

/// The event stream that pulldown-cmark produces for a markdown text, with
/// every extension enabled.
pub uninterp spec fn markdown_events(text: Seq<char>) -> Seq<MdEvent>;

#[verifier::external_type_specification]
#[verifier::external_body]
pub struct ExMdTag<'a>(pulldown_cmark::Tag<'a>);

/// Relies on `pulldown_cmark::Tag`: tells its variants apart and moves out the
/// fields that the renderer reads (code fence language, link URL, list start).
#[verifier::external_body]
fn md_tag(tag: pulldown_cmark::Tag<'_>) -> MdTag {
    match tag {
        Tag::Paragraph => MdTag::Paragraph,
        Tag::Heading(..) => MdTag::Heading,
        Tag::CodeBlock(CodeBlockKind::Fenced(l)) => MdTag::FencedCode(l.to_string()),
        Tag::CodeBlock(CodeBlockKind::Indented) => MdTag::IndentedCode,
        Tag::Emphasis => MdTag::Emphasis,
        Tag::Strong => MdTag::Strong,
        Tag::Link(_, url, _) => MdTag::Link(url.to_string()),
        Tag::List(n) => MdTag::List(n),
        Tag::Item => MdTag::Item,
        _ => MdTag::Other,
    }
}

/// Relies on `pulldown_cmark::Parser::new_ext` with `Options::all()`: the
/// events it yields for `text` depend on the text alone.
#[verifier::external_body]
pub(crate) fn parse_markdown(text: &str) -> (r: Vec<MdEvent>)
    ensures
        r@ == markdown_events(text@),
{
    let mut events = Vec::new();
    for e in Parser::new_ext(text, Options::all()) {
        events.push(match e {
            Event::Start(t) => MdEvent::Start(md_tag(t)),
            Event::End(t) => MdEvent::End(md_tag(t)),
            Event::Text(t) => MdEvent::Text(t.to_string()),
            Event::Code(t) => MdEvent::Code(t.to_string()),
            Event::SoftBreak => MdEvent::SoftBreak,
            Event::HardBreak => MdEvent::HardBreak,
            _ => MdEvent::Other,
        });
    }
    events
}

} // verus!
