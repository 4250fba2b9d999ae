//! Document-level tests: longer mixed event streams and their full
//! serialized text.

use markdown_roundtrip::push_markdown;
use markdown_roundtrip::CodeBlockKind;
use markdown_roundtrip::Event;
use markdown_roundtrip::Tag;

fn render_doc(events: Vec<Event>) -> String {
    let mut s = String::new();
    push_markdown(&mut s, &events);
    s
}

#[test]
fn mixed_document_1() {
    let events = vec![
        Event::Start(Tag::CodeBlock(CodeBlockKind::Fenced("txt".to_string()))),
        Event::Text("code body\n".to_string()),
        Event::End(Tag::CodeBlock(CodeBlockKind::Fenced("txt".to_string()))),
        Event::Start(Tag::List(Some(3))),
        Event::Start(Tag::Item),
        Event::Text("tight".to_string()),
        Event::End(Tag::Item),
        Event::Start(Tag::Item),
        Event::Text("tight".to_string()),
        Event::End(Tag::Item),
        Event::Start(Tag::Item),
        Event::Start(Tag::Paragraph),
        Event::Text("hello".to_string()),
        Event::Start(Tag::Strong),
        Event::Text("s".to_string()),
        Event::End(Tag::Strong),
        Event::Start(Tag::Emphasis),
        Event::Text("e".to_string()),
        Event::End(Tag::Emphasis),
        Event::End(Tag::Paragraph),
        Event::End(Tag::Item),
        Event::End(Tag::List(Some(3))),
    ];
    assert_eq!(render_doc(events), "````txt\ncode body\n3. tight\n4. tight\n5. hello**s***e*");
}

#[test]
fn mixed_document_2() {
    let events = vec![
        Event::Start(Tag::List(Some(4))),
        Event::Start(Tag::Item),
        Event::Start(Tag::CodeBlock(CodeBlockKind::Fenced("".to_string()))),
        Event::Text("code body\n".to_string()),
        Event::End(Tag::CodeBlock(CodeBlockKind::Fenced("".to_string()))),
        Event::End(Tag::Item),
        Event::Start(Tag::Item),
        Event::Start(Tag::Heading(3)),
        Event::Text("head".to_string()),
        Event::End(Tag::Heading(3)),
        Event::End(Tag::Item),
        Event::Start(Tag::Item),
        Event::Text("tight".to_string()),
        Event::End(Tag::Item),
        Event::End(Tag::List(Some(4))),
        Event::Rule,
        Event::Start(Tag::CodeBlock(CodeBlockKind::Fenced("".to_string()))),
        Event::Text("code body\n".to_string()),
        Event::End(Tag::CodeBlock(CodeBlockKind::Fenced("".to_string()))),
        Event::Rule,
    ];
    assert_eq!(render_doc(events), "4. ````\n   code body\n5. ### head\n6. tight\n\n***\n````\ncode body\n````\n***");
}

#[test]
fn mixed_document_3() {
    let events = vec![
        Event::Start(Tag::List(None)),
        Event::Start(Tag::Item),
        Event::Text("tight".to_string()),
        Event::End(Tag::Item),
        Event::Start(Tag::Item),
        Event::Start(Tag::List(None)),
        Event::Start(Tag::Item),
        Event::Text("tight".to_string()),
        Event::End(Tag::Item),
        Event::Start(Tag::Item),
        Event::Text("tight".to_string()),
        Event::End(Tag::Item),
        Event::Start(Tag::Item),
        Event::Text("tight".to_string()),
        Event::End(Tag::Item),
        Event::End(Tag::List(None)),
        Event::End(Tag::Item),
        Event::Start(Tag::Item),
        Event::Start(Tag::List(None)),
        Event::Start(Tag::Item),
        Event::Start(Tag::Heading(3)),
        Event::Text("head".to_string()),
        Event::End(Tag::Heading(3)),
        Event::End(Tag::Item),
        Event::Start(Tag::Item),
        Event::Start(Tag::CodeBlock(CodeBlockKind::Fenced("".to_string()))),
        Event::Text("code body\n".to_string()),
        Event::End(Tag::CodeBlock(CodeBlockKind::Fenced("".to_string()))),
        Event::End(Tag::Item),
        Event::Start(Tag::Item),
        Event::Start(Tag::Paragraph),
        Event::Code("c0de".to_string()),
        Event::End(Tag::Paragraph),
        Event::End(Tag::Item),
        Event::End(Tag::List(None)),
        Event::End(Tag::Item),
        Event::End(Tag::List(None)),
        Event::Start(Tag::BlockQuote),
        Event::Start(Tag::BlockQuote),
        Event::Start(Tag::Heading(2)),
        Event::Text("head".to_string()),
        Event::End(Tag::Heading(2)),
        Event::End(Tag::BlockQuote),
        Event::Start(Tag::BlockQuote),
        Event::Start(Tag::CodeBlock(CodeBlockKind::Fenced("".to_string()))),
        Event::Text("code body\n".to_string()),
        Event::End(Tag::CodeBlock(CodeBlockKind::Fenced("".to_string()))),
        Event::Start(Tag::Heading(3)),
        Event::Text("head".to_string()),
        Event::End(Tag::Heading(3)),
        Event::End(Tag::BlockQuote),
        Event::End(Tag::BlockQuote),
    ];
    assert_eq!(render_doc(events), "* tight\n* * tight\n  * tight\n  * tight\n* * ### head\n  * ````\n    code body\n  * `c0de`\n\n> > ## head\n> > ````\n> > code body\n> > ### head");
}

#[test]
fn mixed_document_4() {
    let events = vec![
        Event::Start(Tag::CodeBlock(CodeBlockKind::Fenced("".to_string()))),
        Event::Text("code body\n".to_string()),
        Event::End(Tag::CodeBlock(CodeBlockKind::Fenced("".to_string()))),
        Event::Start(Tag::List(None)),
        Event::Start(Tag::Item),
        Event::Start(Tag::List(None)),
        Event::Start(Tag::Item),
        Event::Start(Tag::CodeBlock(CodeBlockKind::Fenced("txt".to_string()))),
        Event::Text("code body\n".to_string()),
        Event::End(Tag::CodeBlock(CodeBlockKind::Fenced("txt".to_string()))),
        Event::End(Tag::Item),
        Event::End(Tag::List(None)),
        Event::End(Tag::Item),
        Event::End(Tag::List(None)),
        Event::Start(Tag::List(Some(11))),
        Event::Start(Tag::Item),
        Event::Text("tight".to_string()),
        Event::End(Tag::Item),
        Event::End(Tag::List(Some(11))),
        Event::Start(Tag::Heading(1)),
        Event::Text("head".to_string()),
        Event::End(Tag::Heading(1)),
    ];
    assert_eq!(render_doc(events), "````\ncode body\n* * ````txt\n    code body\n\n11. tight\n\n# head");
}

#[test]
fn mixed_document_5() {
    let events = vec![
        Event::Start(Tag::List(Some(4))),
        Event::Start(Tag::Item),
        Event::Start(Tag::CodeBlock(CodeBlockKind::Fenced("txt".to_string()))),
        Event::Text("code body\n".to_string()),
        Event::End(Tag::CodeBlock(CodeBlockKind::Fenced("txt".to_string()))),
        Event::End(Tag::Item),
        Event::Start(Tag::Item),
        Event::Text("tight".to_string()),
        Event::End(Tag::Item),
        Event::Start(Tag::Item),
        Event::Text("tight".to_string()),
        Event::End(Tag::Item),
        Event::End(Tag::List(Some(4))),
        Event::Start(Tag::List(Some(1))),
        Event::Start(Tag::Item),
        Event::Text("tight".to_string()),
        Event::End(Tag::Item),
        Event::End(Tag::List(Some(1))),
    ];
    assert_eq!(render_doc(events), "4. ````txt\n   code body\n5. tight\n6. tight\n\n1. tight");
}

#[test]
fn mixed_document_6() {
    let events = vec![
        Event::Rule,
        Event::Start(Tag::BlockQuote),
        Event::Start(Tag::Paragraph),
        Event::Text("a".to_string()),
        Event::SoftBreak,
        Event::Text("b".to_string()),
        Event::Text("a".to_string()),
        Event::SoftBreak,
        Event::Text("b".to_string()),
        Event::End(Tag::Paragraph),
        Event::End(Tag::BlockQuote),
        Event::Rule,
        Event::Rule,
    ];
    assert_eq!(render_doc(events), "***\n> a\n> ba\n> b\n***\n***");
}
