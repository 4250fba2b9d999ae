//! The container stack: what the serializer remembers of each open block, and
//! the re-emission of container prefixes at the start of a new line.

use vstd::prelude::*;

use crate::events::Event;
use crate::events::Tag;
use crate::events::CodeBlockKind;
use crate::text::decimal_len;
use crate::text::decimal_seq;
use crate::text::push_spaces;
use crate::text::space_seq;

verus! {

/// One open block on the container stack. This records exactly what later
/// emission steps read back from the stack: the block's kind, a heading's
/// level, and an ordered list's running index (which is mutated in place as
/// items are entered). Childless leaves (`Rule`, block-level `Html`,
/// tight-list `Text`) occupy a stack slot of their own while their implicit
/// end is pending.
#[derive(Debug, Clone, Copy)]
pub enum StackEntry {
    Paragraph,
    Heading(u32),
    BlockQuote,
    CodeIndented,
    CodeFenced,
    ListNone,
    ListSome(u64),
    Item,
    FootnoteDefinition,
    Table,
    TableHead,
    TableRow,
    TableCell,
    RuleLeaf,
    HtmlLeaf,
    TextLeaf,
    Other,
}

/// The stack entry that stands for an event once it is pushed onto the
/// container stack.
pub open spec fn spec_entry_of(event: &Event) -> StackEntry {
    match event {
        Event::Start(tag) => match tag {
            Tag::Paragraph => StackEntry::Paragraph,
            Tag::Heading(n) => StackEntry::Heading(*n),
            Tag::BlockQuote => StackEntry::BlockQuote,
            Tag::CodeBlock(CodeBlockKind::Indented) => StackEntry::CodeIndented,
            Tag::CodeBlock(CodeBlockKind::Fenced(_)) => StackEntry::CodeFenced,
            Tag::List(None) => StackEntry::ListNone,
            Tag::List(Some(i)) => StackEntry::ListSome(*i),
            Tag::Item => StackEntry::Item,
            Tag::FootnoteDefinition(_) => StackEntry::FootnoteDefinition,
            Tag::Table => StackEntry::Table,
            Tag::TableHead => StackEntry::TableHead,
            Tag::TableRow => StackEntry::TableRow,
            Tag::TableCell => StackEntry::TableCell,
            _ => StackEntry::Other,
        },
        Event::Rule => StackEntry::RuleLeaf,
        Event::Html(_) => StackEntry::HtmlLeaf,
        Event::Text(_) => StackEntry::TextLeaf,
        _ => StackEntry::Other,
    }
}

#[verifier::when_used_as_spec(spec_entry_of)]
pub fn entry_of(event: &Event) -> (r: StackEntry)
    ensures
        r == spec_entry_of(event),
{
    match event {
        Event::Start(tag) => match tag {
            Tag::Paragraph => StackEntry::Paragraph,
            Tag::Heading(n) => StackEntry::Heading(*n),
            Tag::BlockQuote => StackEntry::BlockQuote,
            Tag::CodeBlock(CodeBlockKind::Indented) => StackEntry::CodeIndented,
            Tag::CodeBlock(CodeBlockKind::Fenced(_)) => StackEntry::CodeFenced,
            Tag::List(None) => StackEntry::ListNone,
            Tag::List(Some(i)) => StackEntry::ListSome(*i),
            Tag::Item => StackEntry::Item,
            Tag::FootnoteDefinition(_) => StackEntry::FootnoteDefinition,
            Tag::Table => StackEntry::Table,
            Tag::TableHead => StackEntry::TableHead,
            Tag::TableRow => StackEntry::TableRow,
            Tag::TableCell => StackEntry::TableCell,
            _ => StackEntry::Other,
        },
        Event::Rule => StackEntry::RuleLeaf,
        Event::Html(_) => StackEntry::HtmlLeaf,
        Event::Text(_) => StackEntry::TextLeaf,
        _ => StackEntry::Other,
    }
}

/// True of entries that stand for the `Start` of a leaf block (a block
/// holding only inlines).
pub open spec fn spec_is_leaf_block_entry(e: StackEntry) -> bool {
    match e {
        StackEntry::Paragraph => true,
        StackEntry::Heading(_) => true,
        StackEntry::CodeIndented => true,
        StackEntry::CodeFenced => true,
        StackEntry::FootnoteDefinition => true,
        _ => false,
    }
}

#[verifier::when_used_as_spec(spec_is_leaf_block_entry)]
pub fn is_leaf_block_entry(e: StackEntry) -> (r: bool)
    ensures
        r == spec_is_leaf_block_entry(e),
{
    matches!(
        e,
        StackEntry::Paragraph
            | StackEntry::Heading(_)
            | StackEntry::CodeIndented
            | StackEntry::CodeFenced
            | StackEntry::FootnoteDefinition,
    )
}

/// True of entries standing for the `Start` of a code block of either kind.
pub open spec fn spec_is_code_block_entry(e: StackEntry) -> bool {
    e is CodeIndented || e is CodeFenced
}

#[verifier::when_used_as_spec(spec_is_code_block_entry)]
pub fn is_code_block_entry(e: StackEntry) -> (r: bool)
    ensures
        r == spec_is_code_block_entry(e),
{
    matches!(e, StackEntry::CodeIndented | StackEntry::CodeFenced)
}

/// Context-dependent half of the childless-leaf classification, resolved
/// against the innermost entry of the effective container stack: `Rule` is
/// always a childless leaf; `Html` is one unless it sits directly inside a
/// leaf block (then it is that block's content); a bare `Text` directly
/// inside an `Item` is a tight-list text.
pub open spec fn spec_is_childless_block_2(last: Option<StackEntry>, event: &Event) -> bool {
    match event {
        Event::Rule => true,
        Event::Html(_) => !match last {
            Some(e) => spec_is_leaf_block_entry(e),
            None => false,
        },
        Event::Text(_) => match last {
            Some(e) => e is Item,
            None => false,
        },
        _ => false,
    }
}

#[verifier::when_used_as_spec(spec_is_childless_block_2)]
pub fn is_childless_block_2(last: Option<StackEntry>, event: &Event) -> (r: bool)
    ensures
        r == spec_is_childless_block_2(last, event),
{
    if matches!(event, Event::Rule) {
        true
    } else if matches!(event, Event::Html(_)) {
        !match last {
            Some(e) => is_leaf_block_entry(e),
            None => false,
        }
    } else if matches!(event, Event::Text(_)) {
        matches!(last, Some(StackEntry::Item))
    } else {
        false
    }
}

/// The index an ordered list's counter held before its last item was entered
/// (the counter is incremented as each item's marker is written).
pub open spec fn prev_index(i: u64) -> nat {
    if i > 0 {
        (i - 1) as nat
    } else {
        0
    }
}

/// The textual prefix that must open a continuation line under the given
/// context, walked outermost first: four spaces under an indented code block,
/// `> ` under a block quote, and under a list whose innermost open child is
/// an item, as many spaces as the item's marker was wide. Entries that emit
/// no prefix (paragraphs, headings, fenced code, leaves) are passed over.
pub open spec fn renew_from(context: Seq<StackEntry>, j: int) -> Seq<char>
    decreases context.len() - j,
{
    if j < 0 || j >= context.len() {
        Seq::empty()
    } else {
        match context[j] {
            StackEntry::CodeIndented => seq![' ', ' ', ' ', ' '] + renew_from(context, j + 1),
            StackEntry::BlockQuote => seq!['>', ' '] + renew_from(context, j + 1),
            StackEntry::ListNone => if j + 1 < context.len() && context[j + 1] is Item {
                seq![' ', ' '] + renew_from(context, j + 2)
            } else {
                renew_from(context, j + 1)
            },
            StackEntry::ListSome(i) => if j + 1 < context.len() && context[j + 1] is Item {
                space_seq(decimal_seq(prev_index(i)).len() + 2) + renew_from(context, j + 2)
            } else {
                renew_from(context, j + 1)
            },
            _ => renew_from(context, j + 1),
        }
    }
}

/// The whole line-start prefix of a context.
pub open spec fn renew_seq(context: Seq<StackEntry>) -> Seq<char> {
    renew_from(context, 0)
}

/// Appends the line-start prefix of `stack[0..upto]` to `out`.
pub fn renew_line_start(out: &mut Vec<char>, stack: &Vec<StackEntry>, upto: usize)
    requires
        upto <= stack@.len(),
    ensures
        final(out)@ == old(out)@ + renew_seq(stack@.take(upto as int)),
{
    let ghost ctx = stack@.take(upto as int);
    let mut j: usize = 0;
    while j < upto
        invariant
            j <= upto <= stack@.len(),
            ctx == stack@.take(upto as int),
            old(out)@ + renew_seq(ctx) == out@ + renew_from(ctx, j as int),
        decreases upto - j,
    {
        assert(ctx[j as int] == stack@[j as int]);
        let ghost out0 = out@;
        match stack[j] {
            StackEntry::CodeIndented => {
                out.push(' ');
                out.push(' ');
                out.push(' ');
                out.push(' ');
                proof {
                    assert(out@ =~= out0 + seq![' ', ' ', ' ', ' ']);
                    assert(out0 + renew_from(ctx, j as int) =~= out@ + renew_from(
                        ctx,
                        j + 1 as int,
                    ));
                }
                j = j + 1;
            },
            StackEntry::BlockQuote => {
                out.push('>');
                out.push(' ');
                proof {
                    assert(out@ =~= out0 + seq!['>', ' ']);
                    assert(out0 + renew_from(ctx, j as int) =~= out@ + renew_from(
                        ctx,
                        j + 1 as int,
                    ));
                }
                j = j + 1;
            },
            StackEntry::ListNone => {
                if j + 1 < upto && matches!(stack[j + 1], StackEntry::Item) {
                    out.push(' ');
                    out.push(' ');
                    proof {
                        assert(out@ =~= out0 + seq![' ', ' ']);
                        assert(out0 + renew_from(ctx, j as int) =~= out@ + renew_from(
                            ctx,
                            j + 2 as int,
                        ));
                    }
                    j = j + 2;
                } else {
                    j = j + 1;
                }
            },
            StackEntry::ListSome(i) => {
                if j + 1 < upto && matches!(stack[j + 1], StackEntry::Item) {
                    let prev = if i > 0 {
                        i - 1
                    } else {
                        0
                    };
                    let w = decimal_len(prev);
                    push_spaces(out, w + 2);
                    proof {
                        assert(out@ == out0 + space_seq((w + 2) as nat));
                        assert(out0 + renew_from(ctx, j as int) =~= out@ + renew_from(
                            ctx,
                            j + 2 as int,
                        ));
                    }
                    j = j + 2;
                } else {
                    j = j + 1;
                }
            },
            _ => {
                j = j + 1;
            },
        }
    }
    proof {
        assert(renew_from(ctx, upto as int) =~= Seq::<char>::empty());
        assert(out@ + renew_from(ctx, upto as int) =~= out@);
    }
}

} // verus!
