//! Round-trip tests through a real CommonMark parser: parse a Markdown
//! string, serialize the events back to text, re-parse, and compare the two
//! event streams under canonicalized equivalence (adjacent `Text` events
//! merged).

use markdown_roundtrip::push_markdown;
use markdown_roundtrip::CodeBlockKind;
use markdown_roundtrip::Event;
use markdown_roundtrip::LinkType;
use markdown_roundtrip::Tag;
use pulldown_cmark::Options;
use pulldown_cmark::Parser;

fn convert_link_type(kind: pulldown_cmark::LinkType) -> LinkType {
    match kind {
        pulldown_cmark::LinkType::Inline => LinkType::Inline,
        pulldown_cmark::LinkType::Reference => LinkType::Reference,
        pulldown_cmark::LinkType::ReferenceUnknown => LinkType::Reference,
        pulldown_cmark::LinkType::Collapsed => LinkType::Collapsed,
        pulldown_cmark::LinkType::CollapsedUnknown => LinkType::Collapsed,
        pulldown_cmark::LinkType::Shortcut => LinkType::Shortcut,
        pulldown_cmark::LinkType::ShortcutUnknown => LinkType::Shortcut,
        pulldown_cmark::LinkType::Autolink => LinkType::Autolink,
        pulldown_cmark::LinkType::Email => LinkType::Email,
    }
}

fn convert_tag(tag: pulldown_cmark::Tag) -> Tag {
    match tag {
        pulldown_cmark::Tag::Paragraph => Tag::Paragraph,
        pulldown_cmark::Tag::Heading(level) => Tag::Heading(level),
        pulldown_cmark::Tag::BlockQuote => Tag::BlockQuote,
        pulldown_cmark::Tag::CodeBlock(pulldown_cmark::CodeBlockKind::Indented) => {
            Tag::CodeBlock(CodeBlockKind::Indented)
        }
        pulldown_cmark::Tag::CodeBlock(pulldown_cmark::CodeBlockKind::Fenced(info)) => {
            Tag::CodeBlock(CodeBlockKind::Fenced(info.to_string()))
        }
        pulldown_cmark::Tag::List(start) => Tag::List(start),
        pulldown_cmark::Tag::Item => Tag::Item,
        pulldown_cmark::Tag::FootnoteDefinition(label) => {
            Tag::FootnoteDefinition(label.to_string())
        }
        pulldown_cmark::Tag::Emphasis => Tag::Emphasis,
        pulldown_cmark::Tag::Strong => Tag::Strong,
        pulldown_cmark::Tag::Link(kind, dest, title) => {
            Tag::Link(convert_link_type(kind), dest.to_string(), title.to_string())
        }
        pulldown_cmark::Tag::Image(kind, dest, title) => {
            Tag::Image(convert_link_type(kind), dest.to_string(), title.to_string())
        }
        other => panic!("tag outside the core subset: {:?}", other),
    }
}

fn convert_event(event: pulldown_cmark::Event) -> Event {
    match event {
        pulldown_cmark::Event::Start(tag) => Event::Start(convert_tag(tag)),
        pulldown_cmark::Event::End(tag) => Event::End(convert_tag(tag)),
        pulldown_cmark::Event::Text(s) => Event::Text(s.to_string()),
        pulldown_cmark::Event::Code(s) => Event::Code(s.to_string()),
        pulldown_cmark::Event::Html(s) => Event::Html(s.to_string()),
        pulldown_cmark::Event::SoftBreak => Event::SoftBreak,
        pulldown_cmark::Event::HardBreak => Event::HardBreak,
        pulldown_cmark::Event::Rule => Event::Rule,
        other => panic!("event outside the core subset: {:?}", other),
    }
}

/// Renders each event as text, with every maximal run of adjacent `Text`
/// events merged into one, so two streams compare under the canonicalized
/// equivalence.
fn canonical_form(events: &[pulldown_cmark::Event]) -> Vec<String> {
    let mut out = Vec::new();
    let mut pending_text = String::new();
    for event in events {
        if let pulldown_cmark::Event::Text(t) = event {
            pending_text.push_str(t);
        } else {
            if !pending_text.is_empty() {
                out.push(format!("Text({:?})", pending_text));
                pending_text.clear();
            }
            out.push(format!("{:?}", event));
        }
    }
    if !pending_text.is_empty() {
        out.push(format!("Text({:?})", pending_text));
    }
    out
}

fn assert_roundtrip(original: &str) {
    let opts = Options::empty();
    let parsed: Vec<pulldown_cmark::Event> = Parser::new_ext(original, opts).collect();
    let events: Vec<Event> = parsed.iter().cloned().map(convert_event).collect();
    let mut regen = String::new();
    push_markdown(&mut regen, &events);
    let reparsed: Vec<pulldown_cmark::Event> = Parser::new_ext(&regen, opts).collect();
    assert_eq!(
        canonical_form(&parsed),
        canonical_form(&reparsed),
        "regenerated markdown was {:?}",
        regen
    );
}

#[test]
fn reparse_paragraph() {
    assert_roundtrip("hello");
}

#[test]
fn reparse_two_paragraphs() {
    assert_roundtrip("a\n\nb");
}

#[test]
fn reparse_blockquote() {
    assert_roundtrip("> q\n> r");
}

#[test]
fn reparse_tight_list() {
    assert_roundtrip("* x\n* y");
}

#[test]
fn reparse_rule() {
    assert_roundtrip("***\n");
}

#[test]
fn reparse_nested_list_depth_three() {
    assert_roundtrip("* a\n  * b\n    * c");
}

#[test]
fn reparse_fenced_code_block() {
    assert_roundtrip("```rust\nfn main(){}\n```");
}

#[test]
fn reparse_fence_containing_backticks() {
    assert_roundtrip("````\n```\n````");
}

#[test]
fn reparse_adjacent_headings() {
    assert_roundtrip("# A\n# B");
}

#[test]
fn reparse_emphasis_strong() {
    assert_roundtrip("*i* and **b**");
}

#[test]
fn reparse_inline_code() {
    assert_roundtrip("some `code` here");
}

#[test]
fn reparse_link_with_title() {
    assert_roundtrip("[x](https://example.invalid \"title\")");
}

#[test]
fn reparse_ordered_list() {
    assert_roundtrip("1. a\n2. b");
}

#[test]
fn reparse_blockquote_paragraphs() {
    assert_roundtrip("> a\n\n> b");
}

#[test]
fn reparse_escaped_punctuation() {
    assert_roundtrip("2 \\* 3 \\= 6");
}
