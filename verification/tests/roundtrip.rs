//! Scenario tests: whole event streams and the Markdown text they serialize
//! to.

use markdown_roundtrip::push_markdown;
use markdown_roundtrip::CodeBlockKind;
use markdown_roundtrip::Event;
use markdown_roundtrip::Tag;

fn render(events: Vec<Event>) -> String {
    let mut s = String::new();
    push_markdown(&mut s, &events);
    s
}

#[test]
fn empty_stream_empty_output() {
    assert_eq!(render(vec![]), "");
}

#[test]
fn single_rule() {
    assert_eq!(render(vec![Event::Rule]), "***");
}

#[test]
fn single_paragraph() {
    let events = vec![
        Event::Start(Tag::Paragraph),
        Event::Text("hello".to_string()),
        Event::End(Tag::Paragraph),
    ];
    assert_eq!(render(events), "hello");
}

#[test]
fn two_paragraphs_blank_line() {
    let events = vec![
        Event::Start(Tag::Paragraph),
        Event::Text("a".to_string()),
        Event::End(Tag::Paragraph),
        Event::Start(Tag::Paragraph),
        Event::Text("b".to_string()),
        Event::End(Tag::Paragraph),
    ];
    assert_eq!(render(events), "a\n\nb");
}

#[test]
fn blockquote_softbreak_prefixes() {
    let events = vec![
        Event::Start(Tag::BlockQuote),
        Event::Start(Tag::Paragraph),
        Event::Text("q".to_string()),
        Event::SoftBreak,
        Event::Text("r".to_string()),
        Event::End(Tag::Paragraph),
        Event::End(Tag::BlockQuote),
    ];
    assert_eq!(render(events), "> q\n> r");
}

#[test]
fn tight_list_two_items() {
    let events = vec![
        Event::Start(Tag::List(None)),
        Event::Start(Tag::Item),
        Event::Text("x".to_string()),
        Event::End(Tag::Item),
        Event::Start(Tag::Item),
        Event::Text("y".to_string()),
        Event::End(Tag::Item),
        Event::End(Tag::List(None)),
    ];
    assert_eq!(render(events), "* x\n* y");
}

#[test]
fn fenced_code_block_strips_trailing_newline() {
    let events = vec![
        Event::Start(Tag::CodeBlock(CodeBlockKind::Fenced("rust".to_string()))),
        Event::Text("fn main(){}\n".to_string()),
        Event::End(Tag::CodeBlock(CodeBlockKind::Fenced("rust".to_string()))),
    ];
    assert_eq!(render(events), "````rust\nfn main(){}\n````");
}

#[test]
fn fenced_code_block_survives_triple_backticks() {
    let events = vec![
        Event::Start(Tag::CodeBlock(CodeBlockKind::Fenced(String::new()))),
        Event::Text("```\n".to_string()),
        Event::End(Tag::CodeBlock(CodeBlockKind::Fenced(String::new()))),
    ];
    assert_eq!(render(events), "````\n```\n````");
}

#[test]
fn adjacent_headings_single_newline() {
    let events = vec![
        Event::Start(Tag::Heading(1)),
        Event::Text("A".to_string()),
        Event::End(Tag::Heading(1)),
        Event::Start(Tag::Heading(1)),
        Event::Text("B".to_string()),
        Event::End(Tag::Heading(1)),
    ];
    assert_eq!(render(events), "# A\n# B");
}

#[test]
fn nested_list_depth_three() {
    let mut events = Vec::new();
    for _ in 0..3 {
        events.push(Event::Start(Tag::List(None)));
        events.push(Event::Start(Tag::Item));
    }
    events.push(Event::Text("x".to_string()));
    for _ in 0..3 {
        events.push(Event::End(Tag::Item));
        events.push(Event::End(Tag::List(None)));
    }
    assert_eq!(render(events), "* * * x");
}

#[test]
fn ordered_list_counts_up() {
    let events = vec![
        Event::Start(Tag::List(Some(1))),
        Event::Start(Tag::Item),
        Event::Text("a".to_string()),
        Event::End(Tag::Item),
        Event::Start(Tag::Item),
        Event::Text("b".to_string()),
        Event::End(Tag::Item),
        Event::End(Tag::List(Some(1))),
    ];
    assert_eq!(render(events), "1. a\n2. b");
}

#[test]
fn ordered_list_custom_start() {
    let events = vec![
        Event::Start(Tag::List(Some(10))),
        Event::Start(Tag::Item),
        Event::Text("a".to_string()),
        Event::End(Tag::Item),
        Event::End(Tag::List(Some(10))),
    ];
    assert_eq!(render(events), "10. a");
}

#[test]
fn ordered_list_continuation_line_width() {
    let events = vec![
        Event::Start(Tag::List(Some(9))),
        Event::Start(Tag::Item),
        Event::Start(Tag::Paragraph),
        Event::Text("a".to_string()),
        Event::SoftBreak,
        Event::Text("b".to_string()),
        Event::End(Tag::Paragraph),
        Event::End(Tag::Item),
        Event::End(Tag::List(Some(9))),
    ];
    assert_eq!(render(events), "9. a\n   b");
}

#[test]
fn blockquote_paragraphs_blank_line() {
    let events = vec![
        Event::Start(Tag::BlockQuote),
        Event::Start(Tag::Paragraph),
        Event::Text("a".to_string()),
        Event::End(Tag::Paragraph),
        Event::End(Tag::BlockQuote),
        Event::Start(Tag::BlockQuote),
        Event::Start(Tag::Paragraph),
        Event::Text("b".to_string()),
        Event::End(Tag::Paragraph),
        Event::End(Tag::BlockQuote),
    ];
    assert_eq!(render(events), "> a\n\n> b");
}

#[test]
fn loose_list_items_newline_transition() {
    let events = vec![
        Event::Start(Tag::List(None)),
        Event::Start(Tag::Item),
        Event::Start(Tag::Paragraph),
        Event::Text("a".to_string()),
        Event::End(Tag::Paragraph),
        Event::End(Tag::Item),
        Event::Start(Tag::Item),
        Event::Start(Tag::Paragraph),
        Event::Text("b".to_string()),
        Event::End(Tag::Paragraph),
        Event::End(Tag::Item),
        Event::End(Tag::List(None)),
    ];
    assert_eq!(render(events), "* a\n* b");
}

#[test]
fn list_then_paragraph_extra_newline() {
    let events = vec![
        Event::Start(Tag::List(None)),
        Event::Start(Tag::Item),
        Event::Text("x".to_string()),
        Event::End(Tag::Item),
        Event::End(Tag::List(None)),
        Event::Start(Tag::Paragraph),
        Event::Text("p".to_string()),
        Event::End(Tag::Paragraph),
    ];
    assert_eq!(render(events), "* x\n\np");
}

#[test]
fn paragraph_then_heading_fallback_newline() {
    let events = vec![
        Event::Start(Tag::Paragraph),
        Event::Text("a".to_string()),
        Event::End(Tag::Paragraph),
        Event::Start(Tag::Heading(1)),
        Event::Text("b".to_string()),
        Event::End(Tag::Heading(1)),
    ];
    assert_eq!(render(events), "a\n# b");
}

#[test]
fn rule_inside_list_item_uses_dashes() {
    let events = vec![
        Event::Start(Tag::List(None)),
        Event::Start(Tag::Item),
        Event::Rule,
        Event::End(Tag::Item),
        Event::End(Tag::List(None)),
    ];
    assert_eq!(render(events), "* ---");
}

#[test]
fn indented_code_block_prefixes() {
    let events = vec![
        Event::Start(Tag::CodeBlock(CodeBlockKind::Indented)),
        Event::Text("x\n".to_string()),
        Event::End(Tag::CodeBlock(CodeBlockKind::Indented)),
    ];
    assert_eq!(render(events), "    x\n    ");
}

#[test]
fn html_block_verbatim() {
    let events = vec![Event::Html("<div>\n".to_string())];
    assert_eq!(render(events), "<div>\n");
}

#[test]
fn code_block_text_not_escaped() {
    let events = vec![
        Event::Start(Tag::CodeBlock(CodeBlockKind::Fenced("".to_string()))),
        Event::Text("a*b_c\n".to_string()),
        Event::End(Tag::CodeBlock(CodeBlockKind::Fenced("".to_string()))),
    ];
    assert_eq!(render(events), "````\na*b_c\n````");
}
