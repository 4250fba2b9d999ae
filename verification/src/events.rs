//! The event data model: the tokens of the parser's flat stream, and the
//! classifier predicates that sort an event into one of the serializer's
//! phases (block start, inline, childless leaf, block end).

use vstd::prelude::*;

verus! {

/// Kind of a code block: indented by four spaces, or fenced with an info string.
#[derive(Debug, Clone)]
pub enum CodeBlockKind {
    Indented,
    Fenced(String),
}

/// How a link or image was written in the source. Only `Autolink` and `Email`
/// change the emitted syntax (`<...>` instead of `[...](...)`).
#[derive(Debug, Clone, Copy)]
pub enum LinkType {
    Inline,
    Reference,
    Collapsed,
    Shortcut,
    Autolink,
    Email,
}

/// What a `Start`/`End` pair encloses: a leaf block, a container block, or an
/// inline span.
#[derive(Debug, Clone)]
pub enum Tag {
    Paragraph,
    Heading(u32),
    BlockQuote,
    CodeBlock(CodeBlockKind),
    List(Option<u64>),
    Item,
    FootnoteDefinition(String),
    Table,
    TableHead,
    TableRow,
    TableCell,
    Emphasis,
    Strong,
    Link(LinkType, String, String),
    Image(LinkType, String, String),
}

/// One token of the parser's flat event stream.
#[derive(Debug, Clone)]
pub enum Event {
    Start(Tag),
    End(Tag),
    Text(String),
    Code(String),
    Html(String),
    SoftBreak,
    HardBreak,
    Rule,
}

/// True of the tags that open a block (leaf or container), as opposed to an
/// inline span.
pub open spec fn spec_is_block_tag(tag: &Tag) -> bool {
    match tag {
        Tag::Paragraph => true,
        Tag::Heading(_) => true,
        Tag::BlockQuote => true,
        Tag::CodeBlock(_) => true,
        Tag::List(_) => true,
        Tag::Item => true,
        Tag::FootnoteDefinition(_) => true,
        Tag::Table => true,
        Tag::TableHead => true,
        Tag::TableRow => true,
        Tag::TableCell => true,
        _ => false,
    }
}

#[verifier::when_used_as_spec(spec_is_block_tag)]
pub fn is_block_tag(tag: &Tag) -> (r: bool)
    ensures
        r == spec_is_block_tag(tag),
{
    matches!(
        tag,
        Tag::Paragraph
            | Tag::Heading(_)
            | Tag::BlockQuote
            | Tag::CodeBlock(_)
            | Tag::List(_)
            | Tag::Item
            | Tag::FootnoteDefinition(_)
            | Tag::Table
            | Tag::TableHead
            | Tag::TableRow
            | Tag::TableCell
    )
}

/// True of the block tags that may contain further blocks; the remaining block
/// tags are leaf blocks, which contain only inlines.
pub open spec fn spec_is_container_block_tag(tag: &Tag) -> bool {
    match tag {
        Tag::BlockQuote => true,
        Tag::List(_) => true,
        Tag::Item => true,
        Tag::Table => true,
        Tag::TableHead => true,
        Tag::TableRow => true,
        Tag::TableCell => true,
        _ => false,
    }
}

#[verifier::when_used_as_spec(spec_is_container_block_tag)]
pub fn is_container_block_tag(tag: &Tag) -> (r: bool)
    ensures
        r == spec_is_container_block_tag(tag),
{
    matches!(
        tag,
        Tag::BlockQuote
            | Tag::List(_)
            | Tag::Item
            | Tag::Table
            | Tag::TableHead
            | Tag::TableRow
            | Tag::TableCell
    )
}

/// True of `Start` events that open a block: the events collected in phase 1.
pub open spec fn spec_is_block_nesting_start(event: &Event) -> bool {
    match event {
        Event::Start(tag) => spec_is_block_tag(tag),
        _ => false,
    }
}

#[verifier::when_used_as_spec(spec_is_block_nesting_start)]
pub fn is_block_nesting_start(event: &Event) -> (r: bool)
    ensures
        r == spec_is_block_nesting_start(event),
{
    if let Event::Start(tag) = event {
        is_block_tag(tag)
    } else {
        false
    }
}

/// True of `End` events that close a block: the events counted in phase 4.
pub open spec fn spec_is_block_nesting_end(event: &Event) -> bool {
    match event {
        Event::End(tag) => spec_is_block_tag(tag),
        _ => false,
    }
}

#[verifier::when_used_as_spec(spec_is_block_nesting_end)]
pub fn is_block_nesting_end(event: &Event) -> (r: bool)
    ensures
        r == spec_is_block_nesting_end(event),
{
    if let Event::End(tag) = event {
        is_block_tag(tag)
    } else {
        false
    }
}

/// True of `Start` events that open a leaf block (a block holding only
/// inlines).
pub open spec fn spec_is_leaf_block_start(event: &Event) -> bool {
    match event {
        Event::Start(tag) => spec_is_block_tag(tag) && !spec_is_container_block_tag(tag),
        _ => false,
    }
}

#[verifier::when_used_as_spec(spec_is_leaf_block_start)]
pub fn is_leaf_block_start(event: &Event) -> (r: bool)
    ensures
        r == spec_is_leaf_block_start(event),
{
    if let Event::Start(tag) = event {
        is_block_tag(tag) && !is_container_block_tag(tag)
    } else {
        false
    }
}

/// Three-valued answer of the context-free childless-leaf test: `Rule` always
/// is one, `Html` and `Text` depend on the surrounding context.
#[derive(Debug, Clone, Copy, PartialEq, Eq, Structural)]
pub enum TriBool {
    True,
    False,
    Maybe,
}

/// Context-free part of the classifier: does this event form a zero-width
/// block of its own?
pub open spec fn spec_is_childless_block(event: &Event) -> TriBool {
    match event {
        Event::Rule => TriBool::True,
        Event::Html(_) => TriBool::Maybe,
        Event::Text(_) => TriBool::Maybe,
        _ => TriBool::False,
    }
}

#[verifier::when_used_as_spec(spec_is_childless_block)]
pub fn is_childless_block(event: &Event) -> (r: TriBool)
    ensures
        r == spec_is_childless_block(event),
{
    if matches!(event, Event::Rule) {
        TriBool::True
    } else if matches!(event, Event::Html(_) | Event::Text(_)) {
        TriBool::Maybe
    } else {
        TriBool::False
    }
}

} // verus!
