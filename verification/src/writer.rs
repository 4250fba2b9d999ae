//! The phase sequencer: a five-phase state machine that groups consecutive
//! like-classified events, tracks the container stack with its deferred-pop
//! counter, and dispatches the grouped runs to the emitters.
//!
//! The behaviour is stated by `serialize_spec`, a pure function from the
//! event stream to the emitted characters, and `push_markdown` is proved to
//! produce exactly that.

use vstd::prelude::*;

use crate::context::StackEntry;
use crate::context::spec_entry_of;
use crate::context::entry_of;
use crate::context::spec_is_childless_block_2;
use crate::context::is_childless_block_2;
use crate::emit::emit_enter;
use crate::emit::emit_exit;
use crate::emit::emit_inline;
use crate::emit::emit_transition;
use crate::emit::enter_run_emit;
use crate::emit::enter_run_stack;
use crate::emit::exit_run_emit;
use crate::emit::inline_run_emit;
use crate::emit::transition_seq;
use crate::events::Event;
use crate::events::TriBool;
use crate::events::spec_is_block_nesting_start;
use crate::events::is_block_nesting_start;
use crate::events::spec_is_block_nesting_end;
use crate::events::is_block_nesting_end;
use crate::events::spec_is_childless_block;
use crate::events::is_childless_block;
use crate::text::chars_to_string;
use vstd::string::StringExecFns;

verus! {

/// The sequencer's state between two events: the current phase (0 initial,
/// 1 collecting block starts, 2 collecting inlines, 4 counting block ends;
/// phase 3, a childless leaf, never persists), the container stack, the
/// count of trailing stack entries whose `End` has been consumed but whose
/// closing is still pending, and the run of events collected in the current
/// phase.
#[verifier::ext_equal]
pub ghost struct MState {
    pub phase: int,
    pub stack: Seq<StackEntry>,
    pub outgoing: nat,
    pub inc: Seq<Event>,
}

/// The state at the start of a run: initial phase, everything empty.
pub open spec fn initial_state() -> MState {
    MState { phase: 0, stack: Seq::empty(), outgoing: 0, inc: Seq::empty() }
}

/// How much of the stack survives once the pending `outgoing` entries are
/// popped (floored at zero, so that even an unbalanced stream is handled
/// without failure).
pub open spec fn remaining_len(st: MState) -> int {
    if st.outgoing <= st.stack.len() {
        st.stack.len() - st.outgoing
    } else {
        0
    }
}

/// The innermost entry of the effective container context at classification
/// time: in phase 4 the stack minus the entries already marked outgoing; in
/// phase 1 the collected run extends the stack.
pub open spec fn effective_last(st: MState) -> Option<StackEntry> {
    if st.phase == 4 {
        if remaining_len(st) > 0 {
            Some(st.stack[remaining_len(st) - 1])
        } else {
            None
        }
    } else if st.phase == 1 && st.inc.len() > 0 {
        Some(spec_entry_of(&st.inc.last()))
    } else if st.stack.len() > 0 {
        Some(st.stack.last())
    } else {
        None
    }
}

/// The phase an event belongs to, given the innermost effective context
/// entry: 1 for block starts, 4 for block ends, 3 for childless leaves,
/// 2 for everything else (the inlines).
pub open spec fn classify_with(last: Option<StackEntry>, event: &Event) -> int {
    if spec_is_block_nesting_start(event) {
        1
    } else if spec_is_block_nesting_end(event) {
        4
    } else {
        match spec_is_childless_block(event) {
            TriBool::True => 3,
            TriBool::False => 2,
            TriBool::Maybe => if spec_is_childless_block_2(last, event) {
                3
            } else {
                2
            },
        }
    }
}

/// The phase an event belongs to, against the current state.
pub open spec fn classify(st: MState, event: Event) -> int {
    classify_with(effective_last(st), &event)
}

/// Whether the trailing-linefeed compensation applies on leaving phase 2:
/// the parser leaves a spurious `\n` in the last `Text` of a fenced code
/// block exactly when a further block follows (`next` is 4).
pub open spec fn strip_applies(st: MState, next: int) -> bool {
    next == 4 && st.stack.len() > 0 && st.stack.last() is CodeFenced
}

/// What leaving the current phase emits, with the next event classified as
/// `next` (0 at input exhaustion). Leaving phase 1 first emits the deferred
/// transition if ends were short-circuited, then enters the collected run;
/// leaving phase 2 emits the inline run; leaving phase 4 closes the outgoing
/// entries (the stack itself is truncated only when a childless leaf is
/// seeded next, mirroring the deferred pop).
pub open spec fn commit_emit(st: MState, next: int) -> Seq<char> {
    if st.phase == 1 {
        if st.outgoing > 0 {
            transition_seq(
                st.stack.take(remaining_len(st)),
                st.stack.skip(remaining_len(st)),
                st.inc,
            ) + enter_run_emit(st.stack.take(remaining_len(st)), st.inc)
        } else {
            enter_run_emit(st.stack, st.inc)
        }
    } else if st.phase == 2 {
        inline_run_emit(st.stack, st.inc, strip_applies(st, next))
    } else if st.phase == 4 {
        exit_run_emit(st.stack, remaining_len(st), st.stack.len() as int)
    } else {
        Seq::empty()
    }
}

/// The container stack after the commit: leaving phase 1 pushes the
/// collected run (after truncating if a transition was taken); other phases
/// leave the stack as it is.
pub open spec fn commit_stack(st: MState) -> Seq<StackEntry> {
    if st.phase == 1 {
        if st.outgoing > 0 {
            enter_run_stack(st.stack.take(remaining_len(st)), st.inc)
        } else {
            enter_run_stack(st.stack, st.inc)
        }
    } else {
        st.stack
    }
}

/// What seeding the next phase with its first event emits. Only a childless
/// leaf (phase 3) emits at seed time: it is written at once — preceded, when
/// phase 4 is being left, by the deferred transition — and holds a stack slot
/// whose implicit end is already pending.
pub open spec fn seed_emit(st: MState, c: int, ev: Event) -> Seq<char> {
    if c == 3 {
        let stack1 = commit_stack(st);
        if st.phase == 4 {
            transition_seq(
                stack1.take(remaining_len(st)),
                stack1.skip(remaining_len(st)),
                seq![ev],
            ) + enter_run_emit(stack1.take(remaining_len(st)), seq![ev])
        } else {
            enter_run_emit(stack1, seq![ev])
        }
    } else {
        Seq::empty()
    }
}

/// The state after seeding the next phase with its first event.
pub open spec fn seed_state(st: MState, c: int, ev: Event) -> MState {
    let stack1 = commit_stack(st);
    if c == 1 || c == 2 {
        MState { phase: c, stack: stack1, outgoing: 0, inc: seq![ev] }
    } else if c == 3 {
        let stack2 = if st.phase == 4 {
            stack1.take(remaining_len(st))
        } else {
            stack1
        };
        MState { phase: 4, stack: enter_run_stack(stack2, seq![ev]), outgoing: 1, inc: Seq::empty() }
    } else {
        MState { phase: 4, stack: stack1, outgoing: 1, inc: Seq::empty() }
    }
}

/// What processing one event emits: nothing while the event only accumulates
/// into the current run (or switches phase 4 back to 1 for the deferred
/// transition), else the commit of the phase being left plus the seed of the
/// one being entered.
pub open spec fn step_emit(st: MState, ev: Event) -> Seq<char> {
    let c = classify(st, ev);
    if c == st.phase && (st.phase == 1 || st.phase == 2) {
        Seq::empty()
    } else if st.phase == 4 && c == 4 {
        Seq::empty()
    } else if st.phase == 4 && c == 1 {
        Seq::empty()
    } else {
        commit_emit(st, c) + seed_emit(st, c, ev)
    }
}

/// The state after processing one event.
pub open spec fn step_state(st: MState, ev: Event) -> MState {
    let c = classify(st, ev);
    if c == st.phase && (st.phase == 1 || st.phase == 2) {
        MState { phase: st.phase, stack: st.stack, outgoing: st.outgoing, inc: st.inc.push(ev) }
    } else if st.phase == 4 && c == 4 {
        MState { phase: st.phase, stack: st.stack, outgoing: st.outgoing + 1, inc: st.inc }
    } else if st.phase == 4 && c == 1 {
        MState { phase: 1, stack: st.stack, outgoing: st.outgoing, inc: st.inc.push(ev) }
    } else {
        seed_state(st, c, ev)
    }
}

/// Everything still to be emitted from event `i` on, starting in state `st`;
/// at input exhaustion the current phase is committed a last time.
pub open spec fn serialize_from(events: Seq<Event>, i: nat, st: MState) -> Seq<char>
    decreases events.len() - i,
{
    if i >= events.len() {
        commit_emit(st, 0)
    } else {
        step_emit(st, events[i as int]) + serialize_from(events, i + 1, step_state(st, events[i as int]))
    }
}

/// The full output of the serializer on an event stream.
pub open spec fn serialize_spec(events: Seq<Event>) -> Seq<char> {
    serialize_from(events, 0, initial_state())
}

/// The abstract state that the runtime variables stand for: the collected
/// run is the contiguous slice `events[lo..hi]` of the input.
pub open spec fn abs_state(
    phase: u8,
    stack: Seq<StackEntry>,
    outgoing: nat,
    events: Seq<Event>,
    lo: int,
    hi: int,
) -> MState {
    MState { phase: phase as int, stack, outgoing, inc: events.subrange(lo, hi) }
}

/// The innermost effective context entry, as `effective_last` names it.
fn effective_last_entry(
    phase: u8,
    stack: &Vec<StackEntry>,
    outgoing: usize,
    events: &Vec<Event>,
    lo: usize,
    hi: usize,
) -> (r: Option<StackEntry>)
    requires
        lo <= hi <= events@.len(),
    ensures
        r == effective_last(abs_state(phase, stack@, outgoing as nat, events@, lo as int, hi as int)),
{
    let ghost st = abs_state(phase, stack@, outgoing as nat, events@, lo as int, hi as int);
    if phase == 4 {
        let rem = if outgoing <= stack.len() {
            stack.len() - outgoing
        } else {
            0
        };
        assert(rem == remaining_len(st));
        if rem > 0 {
            Some(stack[rem - 1])
        } else {
            None
        }
    } else if phase == 1 && hi > lo {
        let r = Some(entry_of(&events[hi - 1]));
        assert(st.inc.last() == events@[(hi - 1) as int]);
        r
    } else if stack.len() > 0 {
        Some(stack[stack.len() - 1])
    } else {
        None
    }
}

/// The classifier: which phase the next event belongs to.
fn classify_event(last: Option<StackEntry>, event: &Event) -> (c: u8)
    ensures
        c as int == classify_with(last, event),
        1 <= c <= 4,
{
    if is_block_nesting_start(event) {
        1
    } else {
        if is_block_nesting_end(event) {
            4
        } else {
            match is_childless_block(event) {
                TriBool::True => 3,
                TriBool::False => 2,
                TriBool::Maybe => if is_childless_block_2(last, event) {
                    3
                } else {
                    2
                },
            }
        }
    }
}

/// Commits the phase being left: emits its run and updates the stack.
fn commit_phase(
    out: &mut Vec<char>,
    stack: &mut Vec<StackEntry>,
    outgoing: usize,
    events: &Vec<Event>,
    lo: usize,
    hi: usize,
    phase: u8,
    next: u8,
)
    requires
        lo <= hi <= events@.len(),
    ensures
        final(out)@ == old(out)@ + commit_emit(
            abs_state(phase, old(stack)@, outgoing as nat, events@, lo as int, hi as int),
            next as int,
        ),
        final(stack)@ == commit_stack(
            abs_state(phase, old(stack)@, outgoing as nat, events@, lo as int, hi as int),
        ),
{
    let ghost st = abs_state(phase, stack@, outgoing as nat, events@, lo as int, hi as int);
    if phase == 1 {
        if outgoing > 0 {
            let rem = if outgoing <= stack.len() {
                stack.len() - outgoing
            } else {
                0
            };
            assert(rem == remaining_len(st));
            emit_transition(out, stack, rem, events, lo, hi);
            stack.truncate(rem);
            assert(stack@ == st.stack.take(remaining_len(st)));
            emit_enter(out, stack, events, lo, hi);
            assert(final(out)@ =~= old(out)@ + commit_emit(st, next as int));
        } else {
            emit_enter(out, stack, events, lo, hi);
        }
    } else if phase == 2 {
        let strip = next == 4 && stack.len() > 0 && matches!(
            stack[stack.len() - 1],
            StackEntry::CodeFenced,
        );
        assert(strip == strip_applies(st, next as int));
        emit_inline(out, stack, events, lo, hi, strip);
    } else if phase == 4 {
        let rem = if outgoing <= stack.len() {
            stack.len() - outgoing
        } else {
            0
        };
        assert(rem == remaining_len(st));
        emit_exit(out, stack, rem);
    } else {
        assert(final(out)@ =~= old(out)@ + commit_emit(st, next as int));
    }
}

/// Serializes the event stream into Markdown text, appended to `s`: the
/// characters produced are exactly `serialize_spec` of the events.
pub fn push_markdown(s: &mut String, events: &Vec<Event>)
    ensures
        final(s)@ == old(s)@ + serialize_spec(events@),
{
    let mut out: Vec<char> = Vec::new();
    let mut stack: Vec<StackEntry> = Vec::new();
    let mut phase: u8 = 0;
    let mut outgoing: usize = 0;
    let mut lo: usize = 0;
    let mut hi: usize = 0;
    let mut i: usize = 0;
    while i < events.len()
        invariant
            lo <= hi <= i <= events@.len(),
            phase == 0 || phase == 1 || phase == 2 || phase == 4,
            (phase == 1 || phase == 2) ==> hi == i,
            (phase == 0 || phase == 4) ==> lo == hi,
            outgoing <= i,
            serialize_spec(events@) == out@ + serialize_from(
                events@,
                i as nat,
                abs_state(phase, stack@, outgoing as nat, events@, lo as int, hi as int),
            ),
        decreases events@.len() - i,
    {
        let ghost st = abs_state(phase, stack@, outgoing as nat, events@, lo as int, hi as int);
        let ghost ev = events@[i as int];
        let last = effective_last_entry(phase, &stack, outgoing, events, lo, hi);
        let c = classify_event(last, &events[i]);
        assert(c as int == classify(st, ev));
        if c == phase && (phase == 1 || phase == 2) {
            hi = hi + 1;
            proof {
                let st2 = abs_state(phase, stack@, outgoing as nat, events@, lo as int, hi as int);
                assert(events@.subrange(lo as int, hi as int) =~= events@.subrange(
                    lo as int,
                    (hi - 1) as int,
                ).push(ev));
                assert(st2 =~= step_state(st, ev));
                assert(out@ + serialize_from(events@, (i + 1) as nat, st2) =~= out@ + (step_emit(
                    st,
                    ev,
                ) + serialize_from(events@, (i + 1) as nat, st2)));
            }
        } else if phase == 4 && c == 4 {
            outgoing = outgoing + 1;
            proof {
                let st2 = abs_state(phase, stack@, outgoing as nat, events@, lo as int, hi as int);
                assert(st2 =~= step_state(st, ev));
                assert(out@ + serialize_from(events@, (i + 1) as nat, st2) =~= out@ + (step_emit(
                    st,
                    ev,
                ) + serialize_from(events@, (i + 1) as nat, st2)));
            }
        } else if phase == 4 && c == 1 {
            phase = 1;
            lo = i;
            hi = i + 1;
            proof {
                let st2 = abs_state(phase, stack@, outgoing as nat, events@, lo as int, hi as int);
                assert(st.inc =~= Seq::<Event>::empty());
                assert(events@.subrange(lo as int, hi as int) =~= st.inc.push(ev));
                assert(st2 =~= step_state(st, ev));
                assert(out@ + serialize_from(events@, (i + 1) as nat, st2) =~= out@ + (step_emit(
                    st,
                    ev,
                ) + serialize_from(events@, (i + 1) as nat, st2)));
            }
        } else {
            let ghost out0 = out@;
            commit_phase(&mut out, &mut stack, outgoing, events, lo, hi, phase, c);
            assert(out@ == out0 + commit_emit(st, c as int));
            assert(stack@ == commit_stack(st));
            if c == 1 || c == 2 {
                lo = i;
                hi = i + 1;
                outgoing = 0;
                let ghost c0 = c as int;
                phase = c;
                proof {
                    let st2 = abs_state(
                        phase,
                        stack@,
                        outgoing as nat,
                        events@,
                        lo as int,
                        hi as int,
                    );
                    assert(events@.subrange(lo as int, hi as int) =~= seq![ev]);
                    assert(st2 =~= seed_state(st, c0, ev));
                    assert(step_emit(st, ev) == commit_emit(st, c0) + seed_emit(st, c0, ev));
                    assert(seed_emit(st, c0, ev) =~= Seq::<char>::empty());
                    assert(out@ =~= out0 + step_emit(st, ev));
                    assert(out@ + serialize_from(events@, (i + 1) as nat, st2) =~= out0 + (step_emit(
                        st,
                        ev,
                    ) + serialize_from(events@, (i + 1) as nat, st2)));
                }
            } else if c == 3 {
                let ghost out1 = out@;
                if phase == 4 {
                    let rem = if outgoing <= stack.len() {
                        stack.len() - outgoing
                    } else {
                        0
                    };
                    assert(rem == remaining_len(st));
                    emit_transition(&mut out, &stack, rem, events, i, i + 1);
                    stack.truncate(rem);
                }
                emit_enter(&mut out, &mut stack, events, i, i + 1);
                outgoing = 1;
                phase = 4;
                lo = i + 1;
                hi = i + 1;
                proof {
                    let st2 = abs_state(
                        phase,
                        stack@,
                        outgoing as nat,
                        events@,
                        lo as int,
                        hi as int,
                    );
                    assert(events@.subrange(i as int, (i + 1) as int) =~= seq![ev]);
                    assert(events@.subrange(lo as int, hi as int) =~= Seq::<Event>::empty());
                    assert(st2 =~= seed_state(st, 3, ev));
                    assert(out@ =~= out1 + seed_emit(st, 3, ev));
                    assert(out@ =~= out0 + step_emit(st, ev));
                    assert(out@ + serialize_from(events@, (i + 1) as nat, st2) =~= out0 + (step_emit(
                        st,
                        ev,
                    ) + serialize_from(events@, (i + 1) as nat, st2)));
                }
            } else {
                outgoing = 1;
                phase = 4;
                lo = i + 1;
                hi = i + 1;
                proof {
                    let st2 = abs_state(
                        phase,
                        stack@,
                        outgoing as nat,
                        events@,
                        lo as int,
                        hi as int,
                    );
                    assert(events@.subrange(lo as int, hi as int) =~= Seq::<Event>::empty());
                    assert(st2 =~= seed_state(st, 4, ev));
                    assert(seed_emit(st, 4, ev) =~= Seq::<char>::empty());
                    assert(out@ =~= out0 + step_emit(st, ev));
                    assert(out@ + serialize_from(events@, (i + 1) as nat, st2) =~= out0 + (step_emit(
                        st,
                        ev,
                    ) + serialize_from(events@, (i + 1) as nat, st2)));
                }
            }
        }
        i = i + 1;
    }
    let ghost st_end = abs_state(phase, stack@, outgoing as nat, events@, lo as int, hi as int);
    let ghost out_end = out@;
    commit_phase(&mut out, &mut stack, outgoing, events, lo, hi, phase, 0);
    assert(out@ == out_end + commit_emit(st_end, 0));
    assert(serialize_from(events@, i as nat, st_end) == commit_emit(st_end, 0));
    assert(out@ =~= serialize_spec(events@));
    let converted = chars_to_string(&out);
    s.append(converted.as_str());
}

} // verus!
