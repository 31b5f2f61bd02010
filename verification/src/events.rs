//! The markdown event stream: the library's own event type, its
//! mathematical model, and the trusted boundary to the tokenizer and the
//! HTML serializer.

use vstd::prelude::*;
use pulldown_cmark::{Event, Options, Parser, Tag, TagEnd};
use pulldown_cmark::html::push_html;

verus! {

#[verifier::external_type_specification]
#[verifier::external_body]
pub struct ExEvent<'a>(Event<'a>);

#[verifier::external_type_specification]
#[verifier::external_body]
pub struct ExLinkType(pulldown_cmark::LinkType);

/// One markdown structural token, with the constructs this pipeline
/// rewrites broken out and everything else carried through opaquely.
pub enum MdEvent {
    /// Start of a link; the destination is what the rewriter edits.
    LinkStart { link_type: pulldown_cmark::LinkType, dest: String, title: String, id: String },
    /// Start of a footnote definition for `label`.
    FootnoteDefStart { label: String },
    /// End of a footnote definition.
    FootnoteDefEnd,
    /// An inline reference to the footnote `label`.
    FootnoteRef { label: String },
    /// End of a paragraph; back-reference links may attach here.
    ParagraphEnd,
    /// A thematic break.
    Rule,
    /// A raw HTML fragment, as the footnote rewriting synthesizes them.
    Html { text: String },
    /// Any other tokenizer event, carried through unchanged.
    Other { raw: Event<'static> },
}

/// The mathematical model of one event: strings as character sequences.
pub enum EvSpec {
    LinkStart { link_type: pulldown_cmark::LinkType, dest: Seq<char>, title: Seq<char>, id: Seq<char> },
    FootnoteDefStart { label: Seq<char> },
    FootnoteDefEnd,
    FootnoteRef { label: Seq<char> },
    ParagraphEnd,
    Rule,
    Html { text: Seq<char> },
    Other { raw: Event<'static> },
}

impl View for MdEvent {
    type V = EvSpec;

    open spec fn view(&self) -> EvSpec {
        match self {
            MdEvent::LinkStart { link_type, dest, title, id } => EvSpec::LinkStart {
                link_type: *link_type,
                dest: dest@,
                title: title@,
                id: id@,
            },
            MdEvent::FootnoteDefStart { label } => EvSpec::FootnoteDefStart { label: label@ },
            MdEvent::FootnoteDefEnd => EvSpec::FootnoteDefEnd,
            MdEvent::FootnoteRef { label } => EvSpec::FootnoteRef { label: label@ },
            MdEvent::ParagraphEnd => EvSpec::ParagraphEnd,
            MdEvent::Rule => EvSpec::Rule,
            MdEvent::Html { text } => EvSpec::Html { text: text@ },
            MdEvent::Other { raw } => EvSpec::Other { raw: *raw },
        }
    }
}

/// The models of a sequence of events.
pub open spec fn evs(s: Seq<MdEvent>) -> Seq<EvSpec> {
    s.map_values(|e: MdEvent| e@)
}

/// What the tokenizer yields on a given text, under the mapping into
/// [`MdEvent`]; the result depends on the text alone.
pub uninterp spec fn events_of(text: Seq<char>) -> Seq<EvSpec>;

/// Relies on `pulldown_cmark::Parser::new_ext` with tables, math and
/// footnotes enabled: tokenizes CommonMark text into a flat event
/// sequence, here folded into the library's event type one variant at a
/// time.
#[verifier::external_body]
pub fn tokenize(text: &str) -> (r: Vec<MdEvent>)
    ensures
        evs(r@) == events_of(text@),
{
    let opts = Options::ENABLE_TABLES | Options::ENABLE_MATH | Options::ENABLE_FOOTNOTES;
    Parser::new_ext(text, opts).map(|e| match e {
        Event::Start(Tag::Link { link_type, dest_url, title, id }) => MdEvent::LinkStart { link_type, dest: dest_url.into_string(), title: title.into_string(), id: id.into_string() },
        Event::Start(Tag::FootnoteDefinition(l)) => MdEvent::FootnoteDefStart { label: l.into_string() },
        Event::End(TagEnd::FootnoteDefinition) => MdEvent::FootnoteDefEnd,
        Event::End(TagEnd::Paragraph) => MdEvent::ParagraphEnd,
        Event::FootnoteReference(l) => MdEvent::FootnoteRef { label: l.into_string() },
        Event::Rule => MdEvent::Rule,
        other => MdEvent::Other { raw: other.into_static() },
    }).collect()
}

/// What the HTML serializer yields on a given event sequence; the result
/// depends on the events alone.
pub uninterp spec fn html_of(events: Seq<EvSpec>) -> Seq<char>;

/// Relies on `pulldown_cmark::html::push_html`: serializes the event
/// sequence to HTML, after unfolding the library's event type back into
/// the tokenizer's, one variant at a time.
#[verifier::external_body]
pub fn render_html(events: Vec<MdEvent>) -> (r: String)
    ensures
        r@ == html_of(evs(events@)),
{
    let mut out = String::new();
    push_html(&mut out, events.into_iter().map(|e| match e {
        MdEvent::LinkStart { link_type, dest, title, id } => Event::Start(Tag::Link { link_type, dest_url: dest.into(), title: title.into(), id: id.into() }),
        MdEvent::FootnoteDefStart { label } => Event::Start(Tag::FootnoteDefinition(label.into())),
        MdEvent::FootnoteDefEnd => Event::End(TagEnd::FootnoteDefinition),
        MdEvent::ParagraphEnd => Event::End(TagEnd::Paragraph),
        MdEvent::FootnoteRef { label } => Event::FootnoteReference(label.into()),
        MdEvent::Rule => Event::Rule,
        MdEvent::Html { text } => Event::Html(text.into()),
        MdEvent::Other { raw } => raw,
    }));
    out
}

} // verus!
