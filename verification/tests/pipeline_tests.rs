use sitegen::events::MdEvent;
use sitegen::footnotes::bottom_footnotes;
use sitegen::pipeline::{to_events, to_html, link_checks, classify_link, LinkCheck};
use sitegen::rewrite::rewrite_links;

fn link(dest: &str) -> MdEvent {
    MdEvent::LinkStart {
        link_type: pulldown_cmark::LinkType::Inline,
        dest: dest.to_string(),
        title: String::new(),
        id: String::new(),
    }
}

fn dest_of(e: &MdEvent) -> &str {
    match e {
        MdEvent::LinkStart { dest, .. } => dest.as_str(),
        _ => panic!("expected a link start"),
    }
}

#[test]
fn rewriter_strips_leading_bangs() {
    let out = rewrite_links(vec![link("!!https://a"), MdEvent::Rule, link("/x")]);
    assert_eq!(dest_of(&out[0]), "https://a");
    assert!(matches!(out[1], MdEvent::Rule));
    assert_eq!(dest_of(&out[2]), "/x");
}

#[test]
fn rewriter_is_idempotent() {
    let once = rewrite_links(vec![link("!!!a"), link("b!c")]);
    let first: Vec<String> = once.iter().map(|e| dest_of(e).to_string()).collect();
    let twice = rewrite_links(once);
    let second: Vec<String> = twice.iter().map(|e| dest_of(e).to_string()).collect();
    assert_eq!(first, second);
    assert_eq!(first, vec!["a".to_string(), "b!c".to_string()]);
}

#[test]
fn footnotes_numbered_by_first_use() {
    let md = "start [^b] then [^a] then [^b] again\n\n[^a]: body a\n\n[^b]: body b\n";
    let html = to_html(md);
    let fn_b = html.find("<li id=\"fn-b\">").expect("b rendered");
    let fn_a = html.find("<li id=\"fn-a\">").expect("a rendered");
    assert!(fn_b < fn_a, "b must be rendered before a");
    assert!(html.contains("id=\"fr-b-1\"><a href=\"#fn-b\">[1]</a>"));
    assert!(html.contains("id=\"fr-a-1\"><a href=\"#fn-a\">[2]</a>"));
    assert!(html.contains("id=\"fr-b-2\"><a href=\"#fn-b\">[1]</a>"));
    // b has two back-references, the second carrying its use number.
    assert!(html.contains("<a href=\"#fr-b-1\">\u{21a9}</a>"));
    assert!(html.contains("<a href=\"#fr-b-2\">\u{21a9}2</a>"));
    // a has exactly one.
    assert!(html.contains("<a href=\"#fr-a-1\">\u{21a9}</a>"));
    assert!(!html.contains("fr-a-2"));
}

#[test]
fn unreferenced_definition_produces_no_output() {
    let md = "plain paragraph\n\n[^x]: never used\n";
    let html = to_html(md);
    assert!(!html.contains("fn-x"));
    assert!(!html.contains("<ol"));
}

#[test]
fn bottomer_moves_definitions_to_end() {
    let events = vec![
        MdEvent::FootnoteRef { label: "n".to_string() },
        MdEvent::Rule,
        MdEvent::FootnoteDefStart { label: "n".to_string() },
        MdEvent::ParagraphEnd,
        MdEvent::FootnoteDefEnd,
        MdEvent::Rule,
    ];
    let out = bottom_footnotes(events);
    // inline anchor, two rules, then the footer: rule, list opener, item.
    assert!(matches!(&out[0], MdEvent::Html { text } if text.contains("fr-n-1")));
    assert!(matches!(out[1], MdEvent::Rule));
    assert!(matches!(out[2], MdEvent::Rule));
    assert!(matches!(out[3], MdEvent::Rule));
    assert!(matches!(&out[4], MdEvent::Html { text } if text.starts_with("<ol")));
    assert!(matches!(&out[5], MdEvent::Html { text } if text.contains("fn-n")));
    assert_eq!(out.len(), 8);
}

#[test]
fn reference_inside_definition_lands_in_its_body() {
    let events = vec![
        MdEvent::FootnoteRef { label: "a".to_string() },
        MdEvent::FootnoteDefStart { label: "a".to_string() },
        MdEvent::FootnoteRef { label: "b".to_string() },
        MdEvent::ParagraphEnd,
        MdEvent::FootnoteDefEnd,
        MdEvent::FootnoteDefStart { label: "b".to_string() },
        MdEvent::ParagraphEnd,
        MdEvent::FootnoteDefEnd,
    ];
    let out = bottom_footnotes(events);
    // main: anchor for a; footer: rule, opener, then a's item whose body
    // holds the inline anchor for b, then b's item.
    assert!(matches!(&out[0], MdEvent::Html { text } if text.contains("fr-a-1")));
    assert!(matches!(out[1], MdEvent::Rule));
    assert!(matches!(&out[2], MdEvent::Html { text } if text.starts_with("<ol")));
    assert!(matches!(&out[3], MdEvent::Html { text } if text.contains("fn-a")));
    assert!(matches!(&out[4], MdEvent::Html { text } if text.contains("fr-b-1")
        && text.contains("[2]")));
    let fn_b = out.iter().position(|e| matches!(e, MdEvent::Html { text } if text.contains("id=\"fn-b\"")));
    assert!(fn_b.unwrap() > 4);
}

#[test]
fn unmatched_definition_end_passes_through() {
    let out = bottom_footnotes(vec![MdEvent::FootnoteDefEnd, MdEvent::Rule]);
    assert_eq!(out.len(), 2);
    assert!(matches!(out[0], MdEvent::FootnoteDefEnd));
    assert!(matches!(out[1], MdEvent::Rule));
}

#[test]
fn markdown_renders_paragraphs() {
    let html = to_html("hello *world*");
    assert_eq!(html, "<p>hello <em>world</em></p>\n");
}

#[test]
fn links_are_classified() {
    let events = to_events(
        "[a](/foo/bar/#anchor) and [b](https://example.com) and [c](relative/path)",
    );
    let checks = link_checks(&events);
    assert_eq!(checks.len(), 3);
    assert!(matches!(&checks[0], LinkCheck::Internal { target } if target == "foo/bar/"));
    assert!(matches!(checks[1], LinkCheck::External));
    assert!(matches!(&checks[2], LinkCheck::Malformed { url } if url == "relative/path"));
}

#[test]
fn classify_link_trims_slashes_and_anchor() {
    let c = classify_link("//a/b#frag".to_string());
    assert!(matches!(&c, LinkCheck::Internal { target } if target == "a/b"));
    let m = classify_link("mailto:x@example.com".to_string());
    assert!(matches!(m, LinkCheck::External));
}

#[test]
fn archival_marker_stripped_in_pipeline() {
    let html = to_html("[a](!https://example.com/x)");
    assert!(html.contains("href=\"https://example.com/x\""));
    assert!(!html.contains("!https"));
}
