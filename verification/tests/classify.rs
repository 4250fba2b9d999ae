//! Classifier predicate tests.

use markdown_roundtrip::context::is_childless_block_2;
use markdown_roundtrip::context::StackEntry;
use markdown_roundtrip::events::is_block_nesting_end;
use markdown_roundtrip::events::is_block_nesting_start;
use markdown_roundtrip::events::is_block_tag;
use markdown_roundtrip::events::is_childless_block;
use markdown_roundtrip::events::is_container_block_tag;
use markdown_roundtrip::events::is_leaf_block_start;
use markdown_roundtrip::events::TriBool;
use markdown_roundtrip::Event;
use markdown_roundtrip::Tag;

#[test]
fn block_tags() {
    assert!(is_block_tag(&Tag::Paragraph));
    assert!(is_block_tag(&Tag::List(None)));
    assert!(is_block_tag(&Tag::Heading(3)));
    assert!(!is_block_tag(&Tag::Emphasis));
    assert!(!is_block_tag(&Tag::Strong));
}

#[test]
fn container_block_tags() {
    assert!(is_container_block_tag(&Tag::BlockQuote));
    assert!(is_container_block_tag(&Tag::Item));
    assert!(!is_container_block_tag(&Tag::Paragraph));
    assert!(!is_container_block_tag(&Tag::Heading(1)));
}

#[test]
fn block_nesting_starts_and_ends() {
    assert!(is_block_nesting_start(&Event::Start(Tag::Paragraph)));
    assert!(!is_block_nesting_start(&Event::Start(Tag::Emphasis)));
    assert!(!is_block_nesting_start(&Event::End(Tag::Paragraph)));
    assert!(is_block_nesting_end(&Event::End(Tag::BlockQuote)));
    assert!(!is_block_nesting_end(&Event::End(Tag::Strong)));
    assert!(!is_block_nesting_end(&Event::Rule));
}

#[test]
fn leaf_block_starts() {
    assert!(is_leaf_block_start(&Event::Start(Tag::Paragraph)));
    assert!(is_leaf_block_start(&Event::Start(Tag::Heading(2))));
    assert!(!is_leaf_block_start(&Event::Start(Tag::BlockQuote)));
    assert!(!is_leaf_block_start(&Event::Text("x".to_string())));
}

#[test]
fn childless_classification() {
    assert_eq!(is_childless_block(&Event::Rule), TriBool::True);
    assert_eq!(is_childless_block(&Event::Html("<hr/>".to_string())), TriBool::Maybe);
    assert_eq!(is_childless_block(&Event::Text("t".to_string())), TriBool::Maybe);
    assert_eq!(is_childless_block(&Event::SoftBreak), TriBool::False);
}

#[test]
fn childless_context_resolution() {
    let html = Event::Html("<x>".to_string());
    let text = Event::Text("t".to_string());
    assert!(is_childless_block_2(None, &html));
    assert!(is_childless_block_2(Some(StackEntry::BlockQuote), &html));
    assert!(!is_childless_block_2(Some(StackEntry::Paragraph), &html));
    assert!(is_childless_block_2(Some(StackEntry::Item), &text));
    assert!(!is_childless_block_2(Some(StackEntry::Paragraph), &text));
    assert!(!is_childless_block_2(None, &text));
    assert!(is_childless_block_2(None, &Event::Rule));
}
