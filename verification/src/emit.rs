//! The four emitters: entering a run of block starts, closing a run of block
//! ends, the transition between sibling blocks, and inline runs.

use vstd::prelude::*;

use crate::context::StackEntry;
use crate::context::renew_seq;
use crate::context::renew_line_start;
use crate::context::spec_entry_of;
use crate::context::entry_of;
use crate::context::spec_is_code_block_entry;
use crate::context::is_code_block_entry;
use crate::events::Event;
use crate::events::Tag;
use crate::events::CodeBlockKind;
use crate::events::LinkType;
use crate::text::decimal_seq;
use crate::text::push_decimal;
use crate::text::escape_seq;
use crate::text::push_escaped;
use crate::text::push_verbatim;
use crate::text::hash_seq;
use crate::text::push_hashes;

verus! {

/// Whether a string's view ends with a linefeed.
pub open spec fn ends_newline(t: Seq<char>) -> bool {
    t.len() > 0 && t.last() == '\n'
}

/// Whether the view of `s` ends with a linefeed.
pub fn str_ends_newline(s: &String) -> (r: bool)
    ensures
        r == ends_newline(s@),
{
    let n = s.as_str().unicode_len();
    if n == 0 {
        false
    } else {
        s.as_str().get_char(n - 1) == '\n'
    }
}

/// The saturating successor of an ordered list's running index.
pub open spec fn next_index(i: u64) -> u64 {
    if i < u64::MAX {
        (i + 1) as u64
    } else {
        i
    }
}

/// What entering one collected event emits, with `stack` the container stack
/// as grown by the preceding events of the same run: a thematic break is
/// `***` (`---` directly inside a list item), raw HTML is verbatim, text is
/// escaped unless inside a code block, and each block start contributes its
/// opening marker. Paragraphs and lists open silently.
pub open spec fn enter_emit(stack: Seq<StackEntry>, event: Event) -> Seq<char> {
    match event {
        Event::Rule => if stack.len() > 0 && stack.last() is Item {
            seq!['-', '-', '-']
        } else {
            seq!['*', '*', '*']
        },
        Event::Html(s) => s@ + if ends_newline(s@) {
            renew_seq(stack)
        } else {
            Seq::empty()
        },
        Event::Text(s) => if stack.len() > 0 && spec_is_code_block_entry(stack.last()) {
            s@
        } else {
            escape_seq(s@, false)
        },
        Event::Start(tag) => match tag {
            Tag::Paragraph => Seq::empty(),
            Tag::List(_) => Seq::empty(),
            Tag::Heading(n) => hash_seq(n as nat) + seq![' '],
            Tag::BlockQuote => seq!['>', ' '],
            Tag::CodeBlock(CodeBlockKind::Indented) => seq![' ', ' ', ' ', ' '],
            Tag::CodeBlock(CodeBlockKind::Fenced(info)) => seq!['`', '`', '`', '`'] + info@ + seq![
                '\n',
            ] + renew_seq(stack),
            Tag::Item => if stack.len() > 0 {
                match stack.last() {
                    StackEntry::ListSome(i) => decimal_seq(i as nat) + seq!['.', ' '],
                    StackEntry::ListNone => seq!['*', ' '],
                    _ => Seq::empty(),
                }
            } else {
                Seq::empty()
            },
            _ => Seq::empty(),
        },
        _ => Seq::empty(),
    }
}

/// How entering one collected event grows the container stack: the event's
/// entry is appended, and entering an item of an ordered list first bumps the
/// list's running index in place.
pub open spec fn enter_push(stack: Seq<StackEntry>, event: Event) -> Seq<StackEntry> {
    let base = if event matches Event::Start(Tag::Item) && stack.len() > 0 {
        match stack.last() {
            StackEntry::ListSome(i) => stack.update(
                stack.len() - 1,
                StackEntry::ListSome(next_index(i)),
            ),
            _ => stack,
        }
    } else {
        stack
    };
    base.push(spec_entry_of(&event))
}

/// The output of entering a whole run of collected events, left to right,
/// each seeing the stack as grown by its predecessors.
pub open spec fn enter_run_emit(stack: Seq<StackEntry>, evs: Seq<Event>) -> Seq<char>
    decreases evs.len(),
{
    if evs.len() == 0 {
        Seq::empty()
    } else {
        enter_run_emit(stack, evs.drop_last()) + enter_emit(
            enter_run_stack(stack, evs.drop_last()),
            evs.last(),
        )
    }
}

/// The container stack after entering a whole run of collected events.
pub open spec fn enter_run_stack(stack: Seq<StackEntry>, evs: Seq<Event>) -> Seq<StackEntry>
    decreases evs.len(),
{
    if evs.len() == 0 {
        stack
    } else {
        enter_push(enter_run_stack(stack, evs.drop_last()), evs.last())
    }
}

/// Enters one event: emits its opening marker and pushes its stack entry.
fn enter_one(out: &mut Vec<char>, stack: &mut Vec<StackEntry>, event: &Event)
    ensures
        final(out)@ == old(out)@ + enter_emit(old(stack)@, *event),
        final(stack)@ == enter_push(old(stack)@, *event),
{
    let ghost out0 = out@;
    match event {
        Event::Rule => {
            let in_item = stack.len() > 0 && matches!(stack[stack.len() - 1], StackEntry::Item);
            if in_item {
                out.push('-');
                out.push('-');
                out.push('-');
                assert(out@ =~= out0 + enter_emit(stack@, *event));
            } else {
                out.push('*');
                out.push('*');
                out.push('*');
                assert(out@ =~= out0 + enter_emit(stack@, *event));
            }
        },
        Event::Html(s) => {
            let n = s.as_str().unicode_len();
            push_verbatim(out, s.as_str(), n);
            assert(s@.take(n as int) =~= s@);
            if str_ends_newline(s) {
                renew_line_start(out, stack, stack.len());
                proof {
                    assert(stack@.take(stack@.len() as int) =~= stack@);
                    assert(out@ =~= out0 + enter_emit(stack@, *event));
                }
            } else {
                assert(out@ =~= out0 + enter_emit(stack@, *event));
            }
        },
        Event::Text(s) => {
            let n = s.as_str().unicode_len();
            let in_code = stack.len() > 0 && is_code_block_entry(stack[stack.len() - 1]);
            if in_code {
                push_verbatim(out, s.as_str(), n);
                assert(s@.take(n as int) =~= s@);
            } else {
                push_escaped(out, s.as_str(), n, false);
                assert(s@.take(n as int) =~= s@);
            }
        },
        Event::Start(tag) => {
            match tag {
                Tag::Paragraph => {},
                Tag::List(_) => {},
                Tag::Heading(n) => {
                    push_hashes(out, *n);
                    out.push(' ');
                    assert(out@ =~= out0 + enter_emit(stack@, *event));
                },
                Tag::BlockQuote => {
                    out.push('>');
                    out.push(' ');
                    assert(out@ =~= out0 + enter_emit(stack@, *event));
                },
                Tag::CodeBlock(CodeBlockKind::Indented) => {
                    out.push(' ');
                    out.push(' ');
                    out.push(' ');
                    out.push(' ');
                    assert(out@ =~= out0 + enter_emit(stack@, *event));
                },
                Tag::CodeBlock(CodeBlockKind::Fenced(info)) => {
                    out.push('`');
                    out.push('`');
                    out.push('`');
                    out.push('`');
                    let n = info.as_str().unicode_len();
                    push_verbatim(out, info.as_str(), n);
                    assert(info@.take(n as int) =~= info@);
                    out.push('\n');
                    renew_line_start(out, stack, stack.len());
                    proof {
                        assert(stack@.take(stack@.len() as int) =~= stack@);
                        assert(out@ =~= out0 + enter_emit(stack@, *event));
                    }
                },
                Tag::Item => {
                    if stack.len() > 0 {
                        let li = stack.len() - 1;
                        match stack[li] {
                            StackEntry::ListSome(i) => {
                                push_decimal(out, i);
                                out.push('.');
                                out.push(' ');
                                let bumped = if i < u64::MAX {
                                    i + 1
                                } else {
                                    i
                                };
                                stack.set(li, StackEntry::ListSome(bumped));
                                assert(out@ =~= out0 + enter_emit(old(stack)@, *event));
                            },
                            StackEntry::ListNone => {
                                out.push('*');
                                out.push(' ');
                                assert(out@ =~= out0 + enter_emit(stack@, *event));
                            },
                            _ => {},
                        }
                    }
                },
                _ => {},
            }
        },
        _ => {},
    }
    stack.push(entry_of(event));
    assert(final(stack)@ == enter_push(old(stack)@, *event));
    assert(final(out)@ == old(out)@ + enter_emit(old(stack)@, *event));
}

/// Enters the collected run `events[lo..hi]`: emits each event's opening
/// marker in order and pushes the run onto the container stack.
pub fn emit_enter(
    out: &mut Vec<char>,
    stack: &mut Vec<StackEntry>,
    events: &Vec<Event>,
    lo: usize,
    hi: usize,
)
    requires
        lo <= hi <= events@.len(),
    ensures
        final(out)@ == old(out)@ + enter_run_emit(old(stack)@, events@.subrange(lo as int, hi as int)),
        final(stack)@ == enter_run_stack(old(stack)@, events@.subrange(lo as int, hi as int)),
{
    let ghost evs = events@.subrange(lo as int, hi as int);
    let ghost stack0 = stack@;
    let mut k = lo;
    while k < hi
        invariant
            lo <= k <= hi <= events@.len(),
            evs == events@.subrange(lo as int, hi as int),
            out@ == old(out)@ + enter_run_emit(stack0, evs.take(k - lo)),
            stack@ == enter_run_stack(stack0, evs.take(k - lo)),
        decreases hi - k,
    {
        let ghost done = evs.take(k - lo);
        enter_one(out, stack, &events[k]);
        proof {
            let done2 = evs.take(k + 1 - lo);
            assert(done2.drop_last() =~= done);
            assert(done2.last() == events@[k as int]);
            assert(out@ =~= old(out)@ + enter_run_emit(stack0, done2));
        }
        k = k + 1;
    }
    proof {
        assert(evs.take(hi - lo) =~= evs);
    }
}

/// The optional ` "title"` part of a link or image destination.
pub open spec fn title_seq(title: Seq<char>) -> Seq<char> {
    if title.len() > 0 {
        seq![' ', '"'] + title + seq!['"']
    } else {
        Seq::empty()
    }
}

/// Whether a link of this kind is written `<...>` rather than `[...](...)`.
pub open spec fn spec_is_bare_link(kind: LinkType) -> bool {
    kind is Autolink || kind is Email
}

#[verifier::when_used_as_spec(spec_is_bare_link)]
pub fn is_bare_link(kind: LinkType) -> (r: bool)
    ensures
        r == spec_is_bare_link(kind),
{
    matches!(kind, LinkType::Autolink | LinkType::Email)
}

/// The text of a `Text` event as emitted: with `strip` set (the compensation
/// for the parser's trailing linefeed inside a fenced code block about to
/// close), a final linefeed is dropped first.
pub open spec fn stripped_text(t: Seq<char>, strip: bool) -> Seq<char> {
    if strip && ends_newline(t) {
        t.drop_last()
    } else {
        t
    }
}

/// What one event of an inline run emits, under the full container stack:
/// text is escaped (verbatim inside a code block, with linefeed escaping
/// inside a heading), breaks re-emit the context's line prefix, inline code
/// and emphasis get their delimiters, and links and images their bracket
/// syntax. Events outside the policy emit nothing.
pub open spec fn inline_emit(stack: Seq<StackEntry>, event: Event, strip: bool) -> Seq<char> {
    let in_code = stack.len() > 0 && spec_is_code_block_entry(stack.last());
    let in_heading = stack.len() > 0 && stack.last() is Heading;
    match event {
        Event::Text(s) => {
            let t = stripped_text(s@, strip);
            (if in_code {
                t
            } else if in_heading {
                escape_seq(t, true)
            } else {
                escape_seq(t, false)
            }) + if ends_newline(t) {
                renew_seq(stack)
            } else {
                Seq::empty()
            }
        },
        Event::SoftBreak => if in_heading {
            seq!['&', '#', '1', '0', ';']
        } else {
            seq!['\n'] + renew_seq(stack)
        },
        Event::HardBreak => seq!['\\', '\n'] + renew_seq(stack),
        Event::Code(s) => seq!['`'] + s@ + seq!['`'],
        Event::Html(s) => s@,
        Event::Start(tag) => match tag {
            Tag::Emphasis => seq!['*'],
            Tag::Strong => seq!['*', '*'],
            Tag::Link(kind, _, _) => if spec_is_bare_link(kind) {
                seq!['<']
            } else {
                seq!['[']
            },
            Tag::Image(_, _, _) => seq!['!', '['],
            _ => Seq::empty(),
        },
        Event::End(tag) => match tag {
            Tag::Emphasis => seq!['*'],
            Tag::Strong => seq!['*', '*'],
            Tag::Link(kind, dest, title) => if spec_is_bare_link(kind) {
                seq!['>']
            } else {
                seq![']', '('] + dest@ + title_seq(title@) + seq![')']
            },
            Tag::Image(_, dest, title) => seq![']', '('] + dest@ + title_seq(title@) + seq![')'],
            _ => Seq::empty(),
        },
        _ => Seq::empty(),
    }
}

/// The output of a whole inline run; `strip` applies to the run's final
/// event only.
pub open spec fn inline_run_emit(stack: Seq<StackEntry>, evs: Seq<Event>, strip: bool) -> Seq<char>
    decreases evs.len(),
{
    if evs.len() == 0 {
        Seq::empty()
    } else {
        inline_run_emit(stack, evs.drop_last(), false) + inline_emit(stack, evs.last(), strip)
    }
}

/// Emits the destination-and-title tail `](dest "title")` of a link or
/// image.
fn push_dest_title(out: &mut Vec<char>, dest: &String, title: &String)
    ensures
        final(out)@ == old(out)@ + (seq![']', '('] + dest@ + title_seq(title@) + seq![')']),
{
    let ghost out0 = out@;
    out.push(']');
    out.push('(');
    let nd = dest.as_str().unicode_len();
    push_verbatim(out, dest.as_str(), nd);
    assert(dest@.take(nd as int) =~= dest@);
    let nt = title.as_str().unicode_len();
    if nt > 0 {
        out.push(' ');
        out.push('"');
        push_verbatim(out, title.as_str(), nt);
        assert(title@.take(nt as int) =~= title@);
        out.push('"');
    }
    out.push(')');
    assert(final(out)@ =~= out0 + (seq![']', '('] + dest@ + title_seq(title@) + seq![')']));
}

/// Emits one event of an inline run.
fn inline_one(out: &mut Vec<char>, stack: &Vec<StackEntry>, event: &Event, strip: bool)
    ensures
        final(out)@ == old(out)@ + inline_emit(stack@, *event, strip),
{
    let ghost out0 = out@;
    let in_code = stack.len() > 0 && is_code_block_entry(stack[stack.len() - 1]);
    let in_heading = stack.len() > 0 && matches!(stack[stack.len() - 1], StackEntry::Heading(_));
    match event {
        Event::Text(s) => {
            let n = s.as_str().unicode_len();
            let do_strip = strip && str_ends_newline(s);
            let m = if do_strip {
                n - 1
            } else {
                n
            };
            proof {
                if do_strip {
                    assert(s@.take(m as int) =~= stripped_text(s@, strip));
                } else {
                    assert(s@.take(m as int) =~= stripped_text(s@, strip));
                }
            }
            if in_code {
                push_verbatim(out, s.as_str(), m);
            } else if in_heading {
                push_escaped(out, s.as_str(), m, true);
            } else {
                push_escaped(out, s.as_str(), m, false);
            }
            let t_ends = if m == 0 {
                false
            } else {
                s.as_str().get_char(m - 1) == '\n'
            };
            assert(t_ends == ends_newline(stripped_text(s@, strip)));
            if t_ends {
                renew_line_start(out, stack, stack.len());
                assert(stack@.take(stack@.len() as int) =~= stack@);
            }
            assert(final(out)@ =~= out0 + inline_emit(stack@, *event, strip));
        },
        Event::SoftBreak => {
            if in_heading {
                out.push('&');
                out.push('#');
                out.push('1');
                out.push('0');
                out.push(';');
            } else {
                out.push('\n');
                renew_line_start(out, stack, stack.len());
                assert(stack@.take(stack@.len() as int) =~= stack@);
            }
            assert(final(out)@ =~= out0 + inline_emit(stack@, *event, strip));
        },
        Event::HardBreak => {
            out.push('\\');
            out.push('\n');
            renew_line_start(out, stack, stack.len());
            proof {
                assert(stack@.take(stack@.len() as int) =~= stack@);
                assert(final(out)@ =~= out0 + inline_emit(stack@, *event, strip));
            }
        },
        Event::Code(s) => {
            out.push('`');
            let n = s.as_str().unicode_len();
            push_verbatim(out, s.as_str(), n);
            assert(s@.take(n as int) =~= s@);
            out.push('`');
            assert(final(out)@ =~= out0 + inline_emit(stack@, *event, strip));
        },
        Event::Html(s) => {
            let n = s.as_str().unicode_len();
            push_verbatim(out, s.as_str(), n);
            assert(s@.take(n as int) =~= s@);
            assert(final(out)@ =~= out0 + inline_emit(stack@, *event, strip));
        },
        Event::Start(tag) => {
            match tag {
                Tag::Emphasis => {
                    out.push('*');
                },
                Tag::Strong => {
                    out.push('*');
                    out.push('*');
                },
                Tag::Link(kind, _, _) => {
                    if is_bare_link(*kind) {
                        out.push('<');
                    } else {
                        out.push('[');
                    }
                },
                Tag::Image(_, _, _) => {
                    out.push('!');
                    out.push('[');
                },
                _ => {},
            }
            assert(final(out)@ =~= out0 + inline_emit(stack@, *event, strip));
        },
        Event::End(tag) => {
            match tag {
                Tag::Emphasis => {
                    out.push('*');
                },
                Tag::Strong => {
                    out.push('*');
                    out.push('*');
                },
                Tag::Link(kind, dest, title) => {
                    if is_bare_link(*kind) {
                        out.push('>');
                    } else {
                        push_dest_title(out, dest, title);
                    }
                },
                Tag::Image(_, dest, title) => {
                    push_dest_title(out, dest, title);
                },
                _ => {},
            }
            assert(final(out)@ =~= out0 + inline_emit(stack@, *event, strip));
        },
        _ => {
            assert(final(out)@ =~= out0 + inline_emit(stack@, *event, strip));
        },
    }
}

/// Emits the collected inline run `events[lo..hi]` under the full container
/// stack; `strip` asks the run's final `Text`, if any, to lose a trailing
/// linefeed.
pub fn emit_inline(
    out: &mut Vec<char>,
    stack: &Vec<StackEntry>,
    events: &Vec<Event>,
    lo: usize,
    hi: usize,
    strip: bool,
)
    requires
        lo <= hi <= events@.len(),
    ensures
        final(out)@ == old(out)@ + inline_run_emit(
            stack@,
            events@.subrange(lo as int, hi as int),
            strip,
        ),
{
    let ghost evs = events@.subrange(lo as int, hi as int);
    let mut k = lo;
    while k < hi
        invariant
            lo <= k <= hi <= events@.len(),
            evs == events@.subrange(lo as int, hi as int),
            out@ == old(out)@ + inline_run_emit(
                stack@,
                evs.take(k - lo),
                strip && k == hi,
            ),
        decreases hi - k,
    {
        let strip_this = strip && k + 1 == hi;
        inline_one(out, stack, &events[k], strip_this);
        proof {
            let done2 = evs.take(k + 1 - lo);
            assert(done2.drop_last() =~= evs.take(k - lo));
            assert(done2.last() == events@[k as int]);
            assert(inline_run_emit(stack@, done2, strip_this) == inline_run_emit(
                stack@,
                evs.take(k - lo),
                false,
            ) + inline_emit(stack@, events@[k as int], strip_this));
            assert(out@ =~= old(out)@ + inline_run_emit(stack@, done2, strip_this));
        }
        k = k + 1;
    }
    proof {
        assert(evs.take(hi - lo) =~= evs);
    }
}

/// What closing the trailing entries `stack[rem..j]` emits, innermost first:
/// only a fenced code block closes audibly, with a newline, the line prefix
/// of everything still open outside it, and the closing fence of four
/// backticks. Every other block closes silently.
pub open spec fn exit_run_emit(stack: Seq<StackEntry>, rem: int, j: int) -> Seq<char>
    decreases j - rem,
{
    if j <= rem || j > stack.len() {
        Seq::empty()
    } else {
        (if stack[j - 1] is CodeFenced {
            seq!['\n'] + renew_seq(stack.take(j - 1)) + seq!['`', '`', '`', '`']
        } else {
            Seq::empty()
        }) + exit_run_emit(stack, rem, j - 1)
    }
}

/// Closes the trailing entries `stack[rem..]`, innermost first.
pub fn emit_exit(out: &mut Vec<char>, stack: &Vec<StackEntry>, rem: usize)
    requires
        rem <= stack@.len(),
    ensures
        final(out)@ == old(out)@ + exit_run_emit(stack@, rem as int, stack@.len() as int),
{
    let mut j = stack.len();
    while j > rem
        invariant
            rem <= j <= stack@.len(),
            out@ + exit_run_emit(stack@, rem as int, j as int) == old(out)@ + exit_run_emit(
                stack@,
                rem as int,
                stack@.len() as int,
            ),
        decreases j,
    {
        let ghost out0 = out@;
        if matches!(stack[j - 1], StackEntry::CodeFenced) {
            out.push('\n');
            renew_line_start(out, stack, j - 1);
            out.push('`');
            out.push('`');
            out.push('`');
            out.push('`');
            proof {
                assert(out@ =~= out0 + (seq!['\n'] + renew_seq(stack@.take(j - 1)) + seq![
                    '`',
                    '`',
                    '`',
                    '`',
                ]));
                assert(out0 + exit_run_emit(stack@, rem as int, j as int) =~= out@ + exit_run_emit(
                    stack@,
                    rem as int,
                    j - 1 as int,
                ));
            }
        }
        j = j - 1;
    }
    proof {
        assert(exit_run_emit(stack@, rem as int, rem as int) =~= Seq::<char>::empty());
        assert(out@ + exit_run_emit(stack@, rem as int, rem as int) =~= out@);
    }
}

/// The three vertical-spacing strategies between sibling blocks.
#[derive(Debug, Clone, Copy)]
pub enum TransitionStrategy {
    DoNothing,
    NewlineAndRenew,
    ExtraNewlineAndRenew,
}

/// Which strategy separates the blocks being closed (`removing`, as stack
/// entries) from the blocks being opened (`adding`, as collected events),
/// under the still-open `context`. The first matching rule wins; the final
/// rule is the recovery fallback for combinations the policy does not name.
pub open spec fn transition_strategy(
    context: Seq<StackEntry>,
    removing: Seq<StackEntry>,
    adding: Seq<Event>,
) -> TransitionStrategy {
    if adding.len() == 0 && context.len() == 0 {
        TransitionStrategy::DoNothing
    } else if removing.len() == 1 && removing[0] is Paragraph && adding.len() == 1 && (adding[0]
        matches Event::Start(Tag::Paragraph)) {
        TransitionStrategy::ExtraNewlineAndRenew
    } else if removing.len() == 1 && removing[0] is Heading && adding.len() == 1 && (adding[0]
        matches Event::Start(Tag::Heading(_))) {
        TransitionStrategy::NewlineAndRenew
    } else if removing.len() == 2 && removing[0] is BlockQuote && removing[1] is Paragraph
        && adding.len() == 2 && (adding[0] matches Event::Start(Tag::BlockQuote)) && (adding[1]
        matches Event::Start(Tag::Paragraph)) {
        TransitionStrategy::ExtraNewlineAndRenew
    } else if removing.len() == 1 && removing[0] is HtmlLeaf && adding.len() == 1 && (adding[0]
        matches Event::Html(_)) {
        TransitionStrategy::DoNothing
    } else if removing.len() == 1 && removing[0] is TextLeaf && adding.len() == 1 && (adding[0]
        matches Event::Text(_)) {
        TransitionStrategy::DoNothing
    } else if removing.len() >= 1 && (removing[0] is ListNone || removing[0] is ListSome) {
        TransitionStrategy::ExtraNewlineAndRenew
    } else {
        TransitionStrategy::NewlineAndRenew
    }
}

/// What the transition emits: nothing, or a newline plus the context's line
/// prefix, once or twice.
pub open spec fn transition_seq(
    context: Seq<StackEntry>,
    removing: Seq<StackEntry>,
    adding: Seq<Event>,
) -> Seq<char> {
    match transition_strategy(context, removing, adding) {
        TransitionStrategy::DoNothing => Seq::empty(),
        TransitionStrategy::NewlineAndRenew => seq!['\n'] + renew_seq(context),
        TransitionStrategy::ExtraNewlineAndRenew => seq!['\n'] + renew_seq(context) + seq!['\n']
            + renew_seq(context),
    }
}

/// Emits the transition from the blocks `stack[rem..]` being closed to the
/// collected run `events[lo..hi]` being opened, under the still-open context
/// `stack[0..rem]`.
pub fn emit_transition(
    out: &mut Vec<char>,
    stack: &Vec<StackEntry>,
    rem: usize,
    events: &Vec<Event>,
    lo: usize,
    hi: usize,
)
    requires
        rem <= stack@.len(),
        lo <= hi <= events@.len(),
    ensures
        final(out)@ == old(out)@ + transition_seq(
            stack@.take(rem as int),
            stack@.skip(rem as int),
            events@.subrange(lo as int, hi as int),
        ),
{
    let ghost context = stack@.take(rem as int);
    let ghost removing = stack@.skip(rem as int);
    let ghost adding = events@.subrange(lo as int, hi as int);
    let n_rem = stack.len() - rem;
    let n_add = hi - lo;
    proof {
        assert(removing.len() == n_rem);
        assert(adding.len() == n_add);
        assert(context.len() == rem);
        if n_rem >= 1 {
            assert(removing[0] == stack@[rem as int]);
        }
        if n_rem >= 2 {
            assert(removing[1] == stack@[(rem + 1) as int]);
        }
        if n_add >= 1 {
            assert(adding[0] == events@[lo as int]);
        }
        if n_add >= 2 {
            assert(adding[1] == events@[(lo + 1) as int]);
        }
    }
    let strategy = if n_add == 0 && rem == 0 {
        TransitionStrategy::DoNothing
    } else if n_rem == 1 && matches!(stack[rem], StackEntry::Paragraph) && n_add == 1 && matches!(
        events[lo],
        Event::Start(Tag::Paragraph),
    ) {
        TransitionStrategy::ExtraNewlineAndRenew
    } else if n_rem == 1 && matches!(stack[rem], StackEntry::Heading(_)) && n_add == 1 && matches!(
        events[lo],
        Event::Start(Tag::Heading(_)),
    ) {
        TransitionStrategy::NewlineAndRenew
    } else if n_rem == 2 && matches!(stack[rem], StackEntry::BlockQuote) && matches!(
        stack[rem + 1],
        StackEntry::Paragraph,
    ) && n_add == 2 && matches!(events[lo], Event::Start(Tag::BlockQuote)) && matches!(
        events[lo + 1],
        Event::Start(Tag::Paragraph),
    ) {
        TransitionStrategy::ExtraNewlineAndRenew
    } else if n_rem == 1 && matches!(stack[rem], StackEntry::HtmlLeaf) && n_add == 1 && matches!(
        events[lo],
        Event::Html(_),
    ) {
        TransitionStrategy::DoNothing
    } else if n_rem == 1 && matches!(stack[rem], StackEntry::TextLeaf) && n_add == 1 && matches!(
        events[lo],
        Event::Text(_),
    ) {
        TransitionStrategy::DoNothing
    } else if n_rem >= 1 && matches!(stack[rem], StackEntry::ListNone | StackEntry::ListSome(_)) {
        TransitionStrategy::ExtraNewlineAndRenew
    } else {
        TransitionStrategy::NewlineAndRenew
    };
    assert(strategy == transition_strategy(context, removing, adding));
    let ghost out0 = out@;
    match strategy {
        TransitionStrategy::DoNothing => {
            assert(out@ =~= out0 + transition_seq(context, removing, adding));
        },
        TransitionStrategy::NewlineAndRenew => {
            out.push('\n');
            renew_line_start(out, stack, rem);
            assert(out@ =~= out0 + transition_seq(context, removing, adding));
        },
        TransitionStrategy::ExtraNewlineAndRenew => {
            out.push('\n');
            renew_line_start(out, stack, rem);
            out.push('\n');
            renew_line_start(out, stack, rem);
            assert(out@ =~= out0 + transition_seq(context, removing, adding));
        },
    }
}

} // verus!
