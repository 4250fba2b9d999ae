//! Stated properties of the serializer, proved against `serialize_spec`.

use vstd::prelude::*;

use crate::context::StackEntry;
use crate::emit::enter_run_emit;
use crate::emit::enter_run_stack;
use crate::emit::exit_run_emit;
use crate::emit::inline_run_emit;
use crate::emit::stripped_text;
use crate::events::CodeBlockKind;
use crate::events::Event;
use crate::events::Tag;
use crate::writer::MState;
use crate::writer::classify;
use crate::writer::commit_emit;
use crate::writer::initial_state;
use crate::writer::serialize_from;
use crate::writer::serialize_spec;
use crate::writer::step_emit;
use crate::writer::step_state;
use crate::writer::seed_emit;
use crate::writer::commit_stack;
use crate::writer::effective_last;
use crate::writer::remaining_len;
use crate::emit::enter_emit;
use crate::emit::enter_push;
use crate::events::spec_is_block_nesting_start;
use crate::events::spec_is_block_nesting_end;
use crate::text::escape_seq;

verus! {

/// A fenced code block is emitted between fences of four backticks, with its
/// content verbatim in between, so content holding a run of three backticks
/// survives a re-parse intact. A trailing linefeed of the content is dropped
/// (the upstream parser supplies a spurious one when a further block
/// follows, and the re-parse reinstates it).
pub proof fn lemma_fenced_block_output(info: String, text: String)
    ensures
        serialize_spec(
            seq![
                Event::Start(Tag::CodeBlock(CodeBlockKind::Fenced(info))),
                Event::Text(text),
                Event::End(Tag::CodeBlock(CodeBlockKind::Fenced(info))),
            ],
        ) == seq!['`', '`', '`', '`'] + info@ + seq!['\n'] + stripped_text(text@, true) + seq![
            '\n',
            '`',
            '`',
            '`',
            '`',
        ],
{
    let s_ev = Event::Start(Tag::CodeBlock(CodeBlockKind::Fenced(info)));
    let t_ev = Event::Text(text);
    let e_ev = Event::End(Tag::CodeBlock(CodeBlockKind::Fenced(info)));
    let evs = seq![s_ev, t_ev, e_ev];
    let st0 = initial_state();

    assert(classify(st0, s_ev) == 1);
    assert(step_emit(st0, s_ev) =~= Seq::<char>::empty());
    let st1 = step_state(st0, s_ev);
    assert(st1 =~= MState { phase: 1, stack: Seq::empty(), outgoing: 0, inc: seq![s_ev] });

    assert(classify(st1, t_ev) == 2);
    let st2 = step_state(st1, t_ev);
    assert(seq![s_ev].drop_last() =~= Seq::<Event>::empty());
    assert(seq![s_ev].last() == s_ev);
    assert(enter_run_stack(Seq::empty(), Seq::<Event>::empty()) == Seq::<StackEntry>::empty());
    assert(enter_run_emit(Seq::empty(), Seq::<Event>::empty()) == Seq::<char>::empty());
    assert(enter_run_stack(Seq::empty(), seq![s_ev]) =~= seq![StackEntry::CodeFenced]);
    assert(st2 =~= MState {
        phase: 2,
        stack: seq![StackEntry::CodeFenced],
        outgoing: 0,
        inc: seq![t_ev],
    });
    let open_part = seq!['`', '`', '`', '`'] + info@ + seq!['\n'];
    assert(crate::context::renew_seq(Seq::<StackEntry>::empty()) == Seq::<char>::empty());
    assert(enter_run_emit(Seq::empty(), seq![s_ev]) =~= open_part);
    assert(step_emit(st1, t_ev) =~= open_part);

    assert(classify(st2, e_ev) == 4);
    let st3 = step_state(st2, e_ev);
    assert(st3 =~= MState {
        phase: 4,
        stack: seq![StackEntry::CodeFenced],
        outgoing: 1,
        inc: Seq::empty(),
    });
    let t_part = stripped_text(text@, true);
    let fenced_stack = seq![StackEntry::CodeFenced];
    assert(seq![t_ev].drop_last() =~= Seq::<Event>::empty());
    assert(seq![t_ev].last() == t_ev);
    assert(inline_run_emit(fenced_stack, Seq::<Event>::empty(), false) == Seq::<char>::empty());
    assert(crate::context::renew_from(fenced_stack, 1) == Seq::<char>::empty());
    assert(crate::context::renew_seq(fenced_stack) =~= Seq::<char>::empty());
    assert(inline_run_emit(fenced_stack, seq![t_ev], true) =~= t_part);
    assert(step_emit(st2, e_ev) =~= t_part);

    let close_part = seq!['\n', '`', '`', '`', '`'];
    assert(fenced_stack.take(0) =~= Seq::<StackEntry>::empty());
    assert(exit_run_emit(fenced_stack, 0, 0) == Seq::<char>::empty());
    assert(exit_run_emit(fenced_stack, 0, 1) =~= close_part);
    assert(commit_emit(st3, 0) =~= close_part);

    assert(serialize_from(evs, 3, st3) == commit_emit(st3, 0));
    assert(serialize_from(evs, 2, st2) == step_emit(st2, e_ev) + serialize_from(evs, 3, st3));
    assert(serialize_from(evs, 1, st1) == step_emit(st1, t_ev) + serialize_from(evs, 2, st2));
    assert(serialize_from(evs, 0, st0) == step_emit(st0, s_ev) + serialize_from(evs, 1, st1));
    assert(serialize_spec(evs) =~= seq!['`', '`', '`', '`'] + info@ + seq!['\n'] + t_part + seq![
        '\n',
        '`',
        '`',
        '`',
        '`',
    ]);
}

/// Two sibling paragraphs are separated by a blank line: the first `End` is
/// held back (deferred pop), the following `Start` reopens phase 1, and the
/// transition policy chooses the double newline, whatever the two texts are.
pub proof fn lemma_paragraph_separation(first: String, second: String)
    ensures
        serialize_spec(
            seq![
                Event::Start(Tag::Paragraph),
                Event::Text(first),
                Event::End(Tag::Paragraph),
                Event::Start(Tag::Paragraph),
                Event::Text(second),
                Event::End(Tag::Paragraph),
            ],
        ) == escape_seq(first@, false) + seq!['\n', '\n'] + escape_seq(second@, false),
{
    let p_ev = Event::Start(Tag::Paragraph);
    let e_ev = Event::End(Tag::Paragraph);
    let ta = Event::Text(first);
    let tb = Event::Text(second);
    let evs = seq![p_ev, ta, e_ev, p_ev, tb, e_ev];
    let p_stack = seq![StackEntry::Paragraph];
    let no_events = Seq::<Event>::empty();
    let no_chars = Seq::<char>::empty();
    let no_entries = Seq::<StackEntry>::empty();

    assert(crate::context::renew_from(p_stack, 1) == no_chars);
    assert(crate::context::renew_seq(p_stack) =~= no_chars);
    assert(crate::context::renew_seq(no_entries) == no_chars);
    assert(seq![p_ev].drop_last() =~= no_events);
    assert(seq![p_ev].last() == p_ev);
    assert(enter_run_stack(no_entries, no_events) == no_entries);
    assert(enter_run_emit(no_entries, no_events) == no_chars);
    assert(enter_run_stack(no_entries, seq![p_ev]) =~= p_stack);
    assert(enter_run_emit(no_entries, seq![p_ev]) =~= no_chars);

    let st0 = initial_state();
    assert(classify(st0, p_ev) == 1);
    let st1 = step_state(st0, p_ev);
    assert(st1 =~= MState { phase: 1, stack: no_entries, outgoing: 0, inc: seq![p_ev] });
    assert(step_emit(st0, p_ev) == no_chars);

    assert(classify(st1, ta) == 2);
    let st2 = step_state(st1, ta);
    assert(st2 =~= MState { phase: 2, stack: p_stack, outgoing: 0, inc: seq![ta] });
    assert(step_emit(st1, ta) =~= no_chars);

    assert(classify(st2, e_ev) == 4);
    let st3 = step_state(st2, e_ev);
    assert(st3 =~= MState { phase: 4, stack: p_stack, outgoing: 1, inc: no_events });
    let a_part = escape_seq(first@, false);
    assert(seq![ta].drop_last() =~= no_events);
    assert(inline_run_emit(p_stack, no_events, false) == no_chars);
    assert(inline_run_emit(p_stack, seq![ta], false) =~= a_part);
    assert(step_emit(st2, e_ev) =~= a_part);

    assert(classify(st3, p_ev) == 1);
    let st4 = step_state(st3, p_ev);
    assert(st4 =~= MState { phase: 1, stack: p_stack, outgoing: 1, inc: seq![p_ev] });
    assert(step_emit(st3, p_ev) == no_chars);

    assert(classify(st4, tb) == 2);
    let st5 = step_state(st4, tb);
    assert(remaining_len(st4) == 0);
    assert(p_stack.take(0) =~= no_entries);
    assert(p_stack.skip(0) =~= p_stack);
    let gap = seq!['\n'] + crate::context::renew_seq(no_entries) + seq!['\n']
        + crate::context::renew_seq(no_entries);
    assert(crate::emit::transition_seq(no_entries, p_stack, seq![p_ev]) == gap);
    assert(commit_emit(st4, 2) == crate::emit::transition_seq(no_entries, p_stack, seq![p_ev])
        + enter_run_emit(no_entries, seq![p_ev]));
    assert(st5 =~= MState { phase: 2, stack: p_stack, outgoing: 0, inc: seq![tb] });
    assert(step_emit(st4, tb) =~= seq!['\n', '\n']);

    assert(classify(st5, e_ev) == 4);
    let st6 = step_state(st5, e_ev);
    assert(st6 =~= MState { phase: 4, stack: p_stack, outgoing: 1, inc: no_events });
    let b_part = escape_seq(second@, false);
    assert(seq![tb].drop_last() =~= no_events);
    assert(inline_run_emit(p_stack, seq![tb], false) =~= b_part);
    assert(step_emit(st5, e_ev) =~= b_part);

    assert(remaining_len(st6) == 0);
    assert(exit_run_emit(p_stack, 0, 0) == no_chars);
    assert(exit_run_emit(p_stack, 0, 1) =~= no_chars);
    assert(commit_emit(st6, 0) == no_chars);

    assert(serialize_from(evs, 6, st6) == commit_emit(st6, 0));
    assert(serialize_from(evs, 5, st5) == step_emit(st5, e_ev) + serialize_from(evs, 6, st6));
    assert(serialize_from(evs, 4, st4) == step_emit(st4, tb) + serialize_from(evs, 5, st5));
    assert(serialize_from(evs, 3, st3) == step_emit(st3, p_ev) + serialize_from(evs, 4, st4));
    assert(serialize_from(evs, 2, st2) == step_emit(st2, e_ev) + serialize_from(evs, 3, st3));
    assert(serialize_from(evs, 1, st1) == step_emit(st1, ta) + serialize_from(evs, 2, st2));
    assert(serialize_from(evs, 0, st0) == step_emit(st0, p_ev) + serialize_from(evs, 1, st1));
    assert(serialize_spec(evs) =~= a_part + seq!['\n', '\n'] + b_part);
}

/// While the collected run is being grown in phase 1, block-start events
/// only accumulate: nothing is emitted, and the run extends.
proof fn lemma_accumulate_starts(events: Seq<Event>, j: nat, upto: nat, st: MState)
    requires
        st.phase == 1,
        j <= upto <= events.len(),
        forall|m: int| j <= m < upto ==> spec_is_block_nesting_start(&events[m]),
    ensures
        serialize_from(events, j, st) == serialize_from(
            events,
            upto,
            MState {
                phase: 1,
                stack: st.stack,
                outgoing: st.outgoing,
                inc: st.inc + events.subrange(j as int, upto as int),
            },
        ),
    decreases upto - j,
{
    if j == upto {
        assert(st.inc + events.subrange(j as int, upto as int) =~= st.inc);
        assert(MState {
            phase: 1,
            stack: st.stack,
            outgoing: st.outgoing,
            inc: st.inc + events.subrange(j as int, upto as int),
        } =~= st);
    } else {
        let ev = events[j as int];
        assert(spec_is_block_nesting_start(&ev));
        assert(classify(st, ev) == 1);
        let st2 = step_state(st, ev);
        assert(st2 =~= MState {
            phase: 1,
            stack: st.stack,
            outgoing: st.outgoing,
            inc: st.inc.push(ev),
        });
        assert(step_emit(st, ev) == Seq::<char>::empty());
        assert(serialize_from(events, j, st) =~= serialize_from(events, j + 1, st2));
        lemma_accumulate_starts(events, j + 1, upto, st2);
        assert(st2.inc + events.subrange((j + 1) as int, upto as int) =~= st.inc + events.subrange(
            j as int,
            upto as int,
        ));
        assert(MState {
            phase: 1,
            stack: st2.stack,
            outgoing: st2.outgoing,
            inc: st2.inc + events.subrange((j + 1) as int, upto as int),
        } =~= MState {
            phase: 1,
            stack: st.stack,
            outgoing: st.outgoing,
            inc: st.inc + events.subrange(j as int, upto as int),
        });
    }
}

/// While ends are being counted in phase 4, block-end events only bump the
/// outgoing counter: nothing is emitted.
proof fn lemma_accumulate_ends(events: Seq<Event>, j: nat, upto: nat, st: MState)
    requires
        st.phase == 4,
        j <= upto <= events.len(),
        forall|m: int| j <= m < upto ==> spec_is_block_nesting_end(&events[m]),
    ensures
        serialize_from(events, j, st) == serialize_from(
            events,
            upto,
            MState {
                phase: 4,
                stack: st.stack,
                outgoing: (st.outgoing + upto - j) as nat,
                inc: st.inc,
            },
        ),
    decreases upto - j,
{
    if j == upto {
        assert(MState {
            phase: 4,
            stack: st.stack,
            outgoing: (st.outgoing + upto - j) as nat,
            inc: st.inc,
        } =~= st);
    } else {
        let ev = events[j as int];
        assert(spec_is_block_nesting_end(&ev));
        assert(classify(st, ev) == 4);
        let st2 = step_state(st, ev);
        assert(st2 =~= MState {
            phase: 4,
            stack: st.stack,
            outgoing: st.outgoing + 1,
            inc: st.inc,
        });
        assert(step_emit(st, ev) == Seq::<char>::empty());
        assert(serialize_from(events, j, st) =~= serialize_from(events, j + 1, st2));
        lemma_accumulate_ends(events, j + 1, upto, st2);
        assert(MState {
            phase: 4,
            stack: st2.stack,
            outgoing: (st2.outgoing + upto - (j + 1)) as nat,
            inc: st2.inc,
        } =~= MState {
            phase: 4,
            stack: st.stack,
            outgoing: (st.outgoing + upto - j) as nat,
            inc: st.inc,
        });
    }
}

/// Closing a run of entries none of which is a fenced code block emits
/// nothing.
proof fn lemma_exit_silent(stack: Seq<StackEntry>, rem: int, j: int)
    requires
        forall|m: int| rem <= m < j && m < stack.len() ==> !(stack[m] is CodeFenced),
    ensures
        exit_run_emit(stack, rem, j) == Seq::<char>::empty(),
    decreases j - rem,
{
    if j <= rem || j > stack.len() {
    } else {
        assert(!(stack[j - 1] is CodeFenced));
        lemma_exit_silent(stack, rem, j - 1);
        assert(exit_run_emit(stack, rem, j) =~= Seq::<char>::empty());
    }
}

/// The event stream of `k` nested lists around one tight item text: `k`
/// pairs `Start(List(None))`, `Start(Item)`, then the bare text, then the
/// matching ends innermost first.
pub open spec fn nested_list_open(k: nat) -> Seq<Event>
    decreases k,
{
    if k == 0 {
        Seq::empty()
    } else {
        nested_list_open((k - 1) as nat) + seq![
            Event::Start(Tag::List(None)),
            Event::Start(Tag::Item),
        ]
    }
}

/// The closing half: `k` pairs `End(Item)`, `End(List(None))`.
pub open spec fn nested_list_close(k: nat) -> Seq<Event>
    decreases k,
{
    if k == 0 {
        Seq::empty()
    } else {
        nested_list_close((k - 1) as nat) + seq![Event::End(Tag::Item), Event::End(Tag::List(None))]
    }
}

/// The whole nested-list stream of depth `k` with a tight text at the
/// bottom.
pub open spec fn nested_list_events(k: nat, text: String) -> Seq<Event> {
    nested_list_open(k) + seq![Event::Text(text)] + nested_list_close(k)
}

/// `k` unordered item markers in a row.
pub open spec fn list_markers(k: nat) -> Seq<char>
    decreases k,
{
    if k == 0 {
        Seq::empty()
    } else {
        list_markers((k - 1) as nat) + seq!['*', ' ']
    }
}

/// The stack entries that `k` nested list openings leave behind.
pub open spec fn entry_pairs(k: nat) -> Seq<StackEntry>
    decreases k,
{
    if k == 0 {
        Seq::empty()
    } else {
        entry_pairs((k - 1) as nat) + seq![StackEntry::ListNone, StackEntry::Item]
    }
}

proof fn lemma_open_shape(k: nat)
    ensures
        nested_list_open(k).len() == 2 * k,
        forall|m: int|
            0 <= m < 2 * k ==> spec_is_block_nesting_start(&#[trigger] nested_list_open(k)[m]),
        k >= 1 ==> nested_list_open(k).last() == Event::Start(Tag::Item),
    decreases k,
{
    if k > 0 {
        lemma_open_shape((k - 1) as nat);
    }
}

proof fn lemma_close_shape(k: nat)
    ensures
        nested_list_close(k).len() == 2 * k,
        forall|m: int|
            0 <= m < 2 * k ==> spec_is_block_nesting_end(&#[trigger] nested_list_close(k)[m]),
    decreases k,
{
    if k > 0 {
        lemma_close_shape((k - 1) as nat);
    }
}

proof fn lemma_pairs_shape(k: nat)
    ensures
        entry_pairs(k).len() == 2 * k,
        forall|m: int|
            0 <= m < 2 * k ==> (#[trigger] entry_pairs(k)[m] is ListNone || entry_pairs(k)[m]
                is Item),
        k >= 1 ==> entry_pairs(k).last() == StackEntry::Item,
    decreases k,
{
    if k > 0 {
        lemma_pairs_shape((k - 1) as nat);
    }
}

/// Entering the `k` nested list openings emits exactly `k` item markers and
/// pushes the `k` entry pairs, whatever stack they grow on.
proof fn lemma_enter_open_run(s: Seq<StackEntry>, k: nat)
    ensures
        enter_run_emit(s, nested_list_open(k)) == list_markers(k),
        enter_run_stack(s, nested_list_open(k)) == s + entry_pairs(k),
    decreases k,
{
    if k == 0 {
        assert(s + entry_pairs(0) =~= s);
    } else {
        lemma_enter_open_run(s, (k - 1) as nat);
        let open_prev = nested_list_open((k - 1) as nat);
        let open_k = nested_list_open(k);
        let l_ev = Event::Start(Tag::List(None));
        let i_ev = Event::Start(Tag::Item);
        let with_l = open_prev + seq![l_ev];
        assert(open_k =~= with_l + seq![i_ev]);
        assert(open_k.drop_last() =~= with_l);
        assert(open_k.last() == i_ev);
        assert(with_l.drop_last() =~= open_prev);
        assert(with_l.last() == l_ev);

        let s_prev = enter_run_stack(s, open_prev);
        assert(s_prev == s + entry_pairs((k - 1) as nat));
        let s_with_l = enter_run_stack(s, with_l);
        assert(s_with_l == enter_push(s_prev, l_ev));
        assert(s_with_l =~= s_prev.push(StackEntry::ListNone));
        assert(enter_run_stack(s, open_k) == enter_push(s_with_l, i_ev));
        assert(s_with_l.last() == StackEntry::ListNone);
        assert(enter_push(s_with_l, i_ev) =~= s_with_l.push(StackEntry::Item));
        assert(enter_run_stack(s, open_k) =~= s + entry_pairs(k));

        assert(enter_emit(s_prev, l_ev) == Seq::<char>::empty());
        assert(enter_run_emit(s, with_l) =~= enter_run_emit(s, open_prev));
        assert(enter_emit(s_with_l, i_ev) =~= seq!['*', ' ']);
        assert(enter_run_emit(s, open_k) == enter_run_emit(s, with_l) + enter_emit(
            s_with_l,
            i_ev,
        ));
        assert(enter_run_emit(s, open_k) =~= list_markers(k));
    }
}

/// A nesting of `k` lists, each holding one item, with a tight text at the
/// bottom, is emitted as `k` item markers `* ` followed by the escaped text:
/// the output re-parses to list nesting of the same depth.
pub proof fn lemma_nested_list_depth(k: nat, text: String)
    requires
        1 <= k,
    ensures
        serialize_spec(nested_list_events(k, text)) == list_markers(k) + escape_seq(text@, false),
{
    let evs = nested_list_events(k, text);
    let opens = nested_list_open(k);
    let closes = nested_list_close(k);
    let t_ev = Event::Text(text);
    lemma_open_shape(k);
    lemma_close_shape(k);
    lemma_pairs_shape(k);
    assert(evs.len() == 4 * k + 1);

    let st0 = initial_state();
    let ev0 = evs[0];
    assert(ev0 == opens[0]);
    assert(spec_is_block_nesting_start(&ev0));
    assert(classify(st0, ev0) == 1);
    let st1 = step_state(st0, ev0);
    assert(st1 =~= MState { phase: 1, stack: Seq::empty(), outgoing: 0, inc: seq![ev0] });
    assert(step_emit(st0, ev0) == Seq::<char>::empty());
    assert(serialize_from(evs, 0, st0) =~= serialize_from(evs, 1, st1));

    assert forall|m: int| 1 <= m < 2 * k implies spec_is_block_nesting_start(&evs[m]) by {
        assert(evs[m] == opens[m]);
    }
    lemma_accumulate_starts(evs, 1, 2 * k, st1);
    let st_a = MState {
        phase: 1,
        stack: Seq::empty(),
        outgoing: 0,
        inc: seq![ev0] + evs.subrange(1, 2 * k as int),
    };
    assert(serialize_from(evs, 1, st1) == serialize_from(evs, 2 * k, st_a));
    assert(st_a.inc =~= opens);

    assert(evs[2 * k as int] == t_ev);
    assert(opens.last() == Event::Start(Tag::Item));
    assert(effective_last(st_a) == Some(StackEntry::Item));
    assert(classify(st_a, t_ev) == 3);
    lemma_enter_open_run(Seq::empty(), k);
    let pairs = entry_pairs(k);
    assert(commit_stack(st_a) == Seq::empty() + pairs);
    assert(Seq::empty() + pairs =~= pairs);
    assert(commit_emit(st_a, 3) == enter_run_emit(Seq::empty(), st_a.inc));
    assert(commit_emit(st_a, 3) == list_markers(k));

    let st_b = step_state(st_a, t_ev);
    assert(seq![t_ev].drop_last() =~= Seq::<Event>::empty());
    assert(seq![t_ev].last() == t_ev);
    assert(enter_run_stack(pairs, Seq::<Event>::empty()) == pairs);
    assert(enter_run_emit(pairs, Seq::<Event>::empty()) == Seq::<char>::empty());
    assert(pairs.last() == StackEntry::Item);
    assert(enter_emit(pairs, t_ev) == escape_seq(text@, false));
    assert(enter_run_emit(pairs, seq![t_ev]) =~= escape_seq(text@, false));
    assert(enter_push(pairs, t_ev) =~= pairs.push(StackEntry::TextLeaf));
    assert(enter_run_stack(pairs, seq![t_ev]) =~= pairs.push(StackEntry::TextLeaf));
    assert(seed_emit(st_a, 3, t_ev) == enter_run_emit(pairs, seq![t_ev]));
    assert(st_b =~= MState {
        phase: 4,
        stack: pairs.push(StackEntry::TextLeaf),
        outgoing: 1,
        inc: Seq::empty(),
    });
    assert(step_emit(st_a, t_ev) == commit_emit(st_a, 3) + seed_emit(st_a, 3, t_ev));
    assert(serialize_from(evs, 2 * k, st_a) == step_emit(st_a, t_ev) + serialize_from(
        evs,
        2 * k + 1,
        st_b,
    ));

    assert forall|m: int| 2 * k + 1 <= m < 4 * k + 1 implies spec_is_block_nesting_end(
        &evs[m],
    ) by {
        assert(evs[m] == closes[m - (2 * k + 1)]);
    }
    lemma_accumulate_ends(evs, 2 * k + 1, 4 * k + 1, st_b);
    let st_c = MState {
        phase: 4,
        stack: pairs.push(StackEntry::TextLeaf),
        outgoing: (2 * k + 1) as nat,
        inc: Seq::empty(),
    };
    assert(MState {
        phase: 4,
        stack: st_b.stack,
        outgoing: (st_b.outgoing + (4 * k + 1) - (2 * k + 1)) as nat,
        inc: st_b.inc,
    } =~= st_c);
    assert(serialize_from(evs, 2 * k + 1, st_b) == serialize_from(evs, 4 * k + 1, st_c));

    assert(serialize_from(evs, 4 * k + 1, st_c) == commit_emit(st_c, 0));
    assert(remaining_len(st_c) == 0);
    assert forall|m: int| 0 <= m < st_c.stack.len() implies !(#[trigger] st_c.stack[m]
        is CodeFenced) by {
        if m < 2 * k {
            assert(st_c.stack[m] == pairs[m]);
        } else {
            assert(st_c.stack[m] == StackEntry::TextLeaf);
        }
    }
    lemma_exit_silent(st_c.stack, 0, st_c.stack.len() as int);
    assert(commit_emit(st_c, 0) == Seq::<char>::empty());

    assert(serialize_spec(evs) =~= list_markers(k) + escape_seq(text@, false));
}

} // verus!
