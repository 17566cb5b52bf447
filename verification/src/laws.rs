//! What holds of the parser and of the scheduler as a whole: laws that relate
//! several of their functions, each proved from the definitions.

use crate::instruction::{render, Op};
use crate::machine::{
    after_kill, after_subtract, differs, fresh, initial_state, killed, lemma_step_progress, moved,
    pass_result, resolve, run_result, step_result, tick_result, State, ThreadView,
};
use crate::natural::decimal;
use crate::parser::{
    digits_value, is_digit, lemma_digits_end, line_ops, lines_of, ops_from, program_ops,
};
use vstd::prelude::*;

verus! {

/// The decimal form of a number is a run of digits, at least one.
pub proof fn lemma_decimal_is_digits(n: nat)
    ensures
        decimal(n).len() >= 1,
        forall|i: int| 0 <= i < decimal(n).len() ==> is_digit(#[trigger] decimal(n)[i]),
    decreases n,
{
    if n >= 10 {
        lemma_decimal_is_digits(n / 10);
    }
}

/// Reading the decimal form of a number gives the number back.
pub proof fn lemma_decimal_value(n: nat)
    ensures
        digits_value(decimal(n)) == n,
    decreases n,
{
    if n < 10 {
        assert(digits_value(decimal(n).drop_last()) == 0);
    } else {
        lemma_decimal_value(n / 10);
        assert(decimal(n).drop_last() =~= decimal(n / 10));
    }
}

/// A filter that every member passes changes nothing.
proof fn lemma_filter_keeps_all<A>(s: Seq<A>, keep: spec_fn(A) -> bool)
    requires
        forall|i: int| 0 <= i < s.len() ==> keep(#[trigger] s[i]),
    ensures
        s.filter(keep) == s,
    decreases s.len(),
{
    if s.len() == 0 {
        s.lemma_filter_len(keep);
    } else {
        lemma_filter_keeps_all(s.drop_last(), keep);
        s.drop_last().lemma_filter_push(s.last(), keep);
        assert(s.drop_last().push(s.last()) =~= s);
    }
}

/// A text without a newline is a single line.
proof fn lemma_one_line(text: Seq<char>)
    requires
        forall|i: int| 0 <= i < text.len() ==> #[trigger] text[i] != '\n',
    ensures
        lines_of(text) == seq![text],
    decreases text.len(),
{
    if text.len() == 0 {
        assert(text =~= Seq::<char>::empty());
    } else {
        lemma_one_line(text.drop_last());
        let before = lines_of(text.drop_last());
        assert(before.last().push(text.last()) =~= text);
    }
}

/// The canonical text of an instruction holds neither a space nor a newline.
proof fn lemma_render_is_dense(op: Op)
    ensures
        render(op).len() >= 1,
        forall|i: int| 0 <= i < render(op).len() ==> #[trigger] render(op)[i] != ' ',
        forall|i: int| 0 <= i < render(op).len() ==> #[trigger] render(op)[i] != '\n',
{
    match op {
        Op::Load(n) | Op::Spawn(n) | Op::SpawnMulti(n) | Op::Kill(n) | Op::Jump(n) => {
            lemma_decimal_is_digits(n);
            assert forall|i: int| 0 <= i < render(op).len() implies #[trigger] render(op)[i] != ' '
                && render(op)[i] != '\n' by {}
        },
        _ => {},
    }
}

/// A line that is the canonical text of an instruction holds that instruction
/// alone.
pub proof fn lemma_render_is_one_instruction(op: Op)
    ensures
        line_ops(render(op)) == Some(seq![op]),
{
    let line = render(op);
    match op {
        Op::Load(n) | Op::Spawn(n) | Op::SpawnMulti(n) | Op::Kill(n) | Op::Jump(n) => {
            lemma_decimal_is_digits(n);
            lemma_decimal_value(n);
            assert forall|j: int| 1 <= j < line.len() implies is_digit(#[trigger] line[j]) by {}
            lemma_digits_end(line, 1, line.len() as int);
            assert(line.subrange(1, line.len() as int) =~= decimal(n));
            assert(ops_from(line, line.len() as int) == Some(Seq::<Op>::empty()));
        },
        _ => {},
    }
}

/// Parsing undoes formatting: the canonical text of any instruction, taken as
/// a whole program, parses to one line that holds exactly that instruction.
pub proof fn lemma_parse_inverts_render(op: Op)
    ensures
        program_ops(render(op)) == Some(seq![seq![op]]),
{
    let text = render(op);
    lemma_render_is_dense(op);
    lemma_filter_keeps_all(text, |c: char| c != ' ');
    lemma_one_line(text);
    lemma_render_is_one_instruction(op);
}

/// A text has one line more than it has newlines, so that blank lines and
/// a last line without a newline all count.
pub proof fn lemma_line_count(text: Seq<char>)
    ensures
        lines_of(text).len() == text.filter(|c: char| c == '\n').len() + 1,
    decreases text.len(),
{
    let newline = |c: char| c == '\n';
    if text.len() == 0 {
        text.lemma_filter_len(newline);
    } else {
        lemma_line_count(text.drop_last());
        text.drop_last().lemma_filter_push(text.last(), newline);
        assert(text.drop_last().push(text.last()) =~= text);
    }
}

/// No register of the state is below zero.
pub open spec fn nonnegative(s: State) -> bool {
    &&& forall|i: int| 0 <= i < s.threads.len() ==> (#[trigger] s.threads[i]).register >= 0
    &&& forall|i: int| 0 <= i < s.spawned.len() ==> (#[trigger] s.spawned[i]).register >= 0
}

/// Whatever passes a filter was in the sequence.
proof fn lemma_filter_member<A>(s: Seq<A>, keep: spec_fn(A) -> bool, i: int) -> (j: int)
    requires
        0 <= i < s.filter(keep).len(),
    ensures
        0 <= j < s.len(),
        s[j] == s.filter(keep)[i],
        keep(s[j]),
{
    let kept = s.filter(keep);
    s.lemma_filter_contains_rev(keep, kept[i]);
    s.lemma_filter_pred(keep, i);
    choose|j: int| 0 <= j < s.len() && s[j] == kept[i]
}

/// A subtraction stops at zero: every other register becomes the difference
/// where that is not negative, and zero where it is.
pub proof fn lemma_subtract_stops_at_zero(threads: Seq<ThreadView>, cursor: int, i: int)
    requires
        0 <= cursor < threads.len(),
        0 <= i < threads.len(),
        i != cursor,
    ensures
        after_subtract(threads, cursor)[i].register >= 0,
        after_subtract(threads, cursor)[i].register == if threads[i].register
            - threads[cursor].register >= 0 {
            threads[i].register - threads[cursor].register
        } else {
            0
        },
{
}

/// A kill leaves registers that were not below zero, and a count that is not
/// below zero.
proof fn lemma_kill_nonnegative(threads: Seq<ThreadView>, cursor: int, v: int)
    requires
        0 <= cursor < threads.len(),
        forall|i: int| 0 <= i < threads.len() ==> (#[trigger] threads[i]).register >= 0,
    ensures
        killed(threads, cursor, v) >= 0,
        forall|i: int|
            0 <= i < after_kill(threads, cursor, v).len() ==> (#[trigger] after_kill(
                threads,
                cursor,
                v,
            )[i]).register >= 0,
{
    let keep = differs(v);
    let front = threads.take(cursor);
    let back = threads.skip(cursor + 1);
    front.lemma_filter_len(keep);
    back.lemma_filter_len(keep);
    let result = after_kill(threads, cursor, v);
    assert forall|i: int| 0 <= i < result.len() implies (#[trigger] result[i]).register >= 0 by {
        if i < front.filter(keep).len() {
            lemma_filter_member(front, keep, i);
        } else if i > front.filter(keep).len() {
            lemma_filter_member(back, keep, i - front.filter(keep).len() - 1);
        }
    }
}

/// A turn keeps every register at or above zero.
pub proof fn lemma_step_nonnegative(code: Seq<Seq<Op>>, ascii: bool, s: State, cursor: nat)
    requires
        nonnegative(s),
    ensures
        match step_result(code, ascii, s, cursor) {
            Ok((state, _)) => nonnegative(state),
            Err(_) => true,
        },
{
    if cursor < s.threads.len() {
        let t = s.threads[cursor as int];
        match resolve(code, t.line, t.offset) {
            None => {},
            Some((line, offset)) => {
                match code[line as int][offset as int] {
                    Op::Kill(v) => {
                        lemma_kill_nonnegative(
                            moved(s.threads, cursor as int, line, offset + 1),
                            cursor as int,
                            v as int,
                        );
                    },
                    _ => {},
                }
            },
        }
    }
}

/// The rest of a pass keeps every register at or above zero.
pub proof fn lemma_pass_nonnegative(code: Seq<Seq<Op>>, ascii: bool, s: State, cursor: nat)
    requires
        nonnegative(s),
    ensures
        nonnegative(pass_result(code, ascii, s, cursor).state),
    decreases s.threads.len() - cursor,
{
    if cursor < s.threads.len() {
        lemma_step_progress(code, ascii, s, cursor);
        lemma_step_nonnegative(code, ascii, s, cursor);
        match step_result(code, ascii, s, cursor) {
            Ok((state, next)) => {
                lemma_pass_nonnegative(code, ascii, state, next);
            },
            Err(_) => {},
        }
    }
}

/// A tick keeps every register at or above zero.
pub proof fn lemma_tick_nonnegative(code: Seq<Seq<Op>>, ascii: bool, s: State)
    requires
        nonnegative(s),
    ensures
        nonnegative(tick_result(code, ascii, s).state),
{
    lemma_pass_nonnegative(code, ascii, s, 0);
}

/// Registers never go below zero: in every state that a run reaches from the
/// start, whatever the program and the input, each thread's register is zero
/// or more.
pub proof fn lemma_run_nonnegative(
    code: Seq<Seq<Op>>,
    ascii: bool,
    input: Seq<usize>,
    ticks: nat,
)
    ensures
        nonnegative(run_result(code, ascii, initial_state(input), ticks).0),
{
    lemma_run_keeps_nonnegative(code, ascii, initial_state(input), ticks);
}

/// A run keeps every register at or above zero.
pub proof fn lemma_run_keeps_nonnegative(code: Seq<Seq<Op>>, ascii: bool, s: State, ticks: nat)
    requires
        nonnegative(s),
    ensures
        nonnegative(run_result(code, ascii, s, ticks).0),
    decreases ticks,
{
    if s.threads.len() != 0 && ticks != 0 {
        lemma_tick_nonnegative(code, ascii, s);
        let tick = tick_result(code, ascii, s);
        if tick.fault is None {
            lemma_run_keeps_nonnegative(code, ascii, tick.state, (ticks - 1) as nat);
        }
    }
}

/// A kill never removes the thread that executes it, even where that thread's
/// own register holds the number killed. After the turn the killer stands
/// just in front of the position at which the pass goes on, behind its
/// instruction, and its register holds the number of threads that left; no
/// other thread with the number killed is left.
pub proof fn lemma_kill_spares_the_killer(
    code: Seq<Seq<Op>>,
    ascii: bool,
    s: State,
    cursor: nat,
    line: nat,
    offset: nat,
    v: nat,
)
    requires
        cursor < s.threads.len(),
        resolve(code, s.threads[cursor as int].line, s.threads[cursor as int].offset) == Some(
            (line, offset),
        ),
        code[line as int][offset as int] == Op::Kill(v),
    ensures
        match step_result(code, ascii, s, cursor) {
            Ok((state, next)) => {
                &&& 1 <= next <= state.threads.len() <= s.threads.len()
                &&& state.threads[next - 1] == ThreadView {
                    register: s.threads.len() - state.threads.len(),
                    line,
                    offset: offset + 1,
                }
                &&& forall|i: int|
                    0 <= i < state.threads.len() && i != next - 1 ==> (
                    #[trigger] state.threads[i]).register != v
            },
            Err(_) => false,
        },
{
    let threads = moved(s.threads, cursor as int, line, offset + 1);
    let keep = differs(v as int);
    let front = threads.take(cursor as int);
    let back = threads.skip(cursor as int + 1);
    front.lemma_filter_len(keep);
    back.lemma_filter_len(keep);
    let result = after_kill(threads, cursor as int, v as int);
    assert forall|i: int| 0 <= i < result.len() && i != front.filter(keep).len() implies (
    #[trigger] result[i]).register != v by {
        if i < front.filter(keep).len() {
            front.lemma_filter_pred(keep, i);
        } else {
            let k = i - front.filter(keep).len() - 1;
            back.lemma_filter_pred(keep, k);
        }
    }
}

/// Whether a thread is as it was created: at the start of a line, with an
/// empty register.
pub open spec fn unstarted(t: ThreadView) -> bool {
    t == fresh(t.line)
}

/// Whether `later` is `earlier` with nothing but unstarted threads added at
/// its end.
pub open spec fn grown_by_unstarted(earlier: Seq<ThreadView>, later: Seq<ThreadView>) -> bool {
    &&& earlier.len() <= later.len()
    &&& later.take(earlier.len() as int) == earlier
    &&& forall|i: int| earlier.len() <= i < later.len() ==> unstarted(#[trigger] later[i])
}

/// Growing twice is growing.
proof fn lemma_grown_twice(a: Seq<ThreadView>, b: Seq<ThreadView>, c: Seq<ThreadView>)
    requires
        grown_by_unstarted(a, b),
        grown_by_unstarted(b, c),
    ensures
        grown_by_unstarted(a, c),
{
    assert forall|i: int| 0 <= i < b.len() implies c[i] == b[i] by {}
    assert forall|i: int| 0 <= i < a.len() implies b[i] == a[i] by {}
    assert(c.take(a.len() as int) =~= a);
}

/// A turn does not let a created thread in: the list of active threads does
/// not grow, and the list of created threads only grows, by unstarted threads
/// at its end.
pub proof fn lemma_step_defers_spawned(code: Seq<Seq<Op>>, ascii: bool, s: State, cursor: nat)
    ensures
        match step_result(code, ascii, s, cursor) {
            Ok((state, _)) => {
                &&& state.threads.len() <= s.threads.len()
                &&& grown_by_unstarted(s.spawned, state.spawned)
            },
            Err(_) => true,
        },
{
    assert(s.spawned.take(s.spawned.len() as int) =~= s.spawned);
    if cursor < s.threads.len() {
        lemma_step_progress(code, ascii, s, cursor);
        let t = s.threads[cursor as int];
        match resolve(code, t.line, t.offset) {
            None => {},
            Some((line, offset)) => {
                let threads = moved(s.threads, cursor as int, line, offset + 1);
                match code[line as int][offset as int] {
                    Op::Kill(v) => {
                        threads.take(cursor as int).lemma_filter_len(differs(v as int));
                        threads.skip(cursor as int + 1).lemma_filter_len(differs(v as int));
                    },
                    _ => {
                        match step_result(code, ascii, s, cursor) {
                            Ok((state, _)) => {
                                assert(state.spawned.take(s.spawned.len() as int) =~= s.spawned);
                            },
                            Err(_) => {},
                        }
                    },
                }
            },
        }
    }
}

/// The rest of a pass does not let a created thread in.
pub proof fn lemma_pass_defers_spawned(code: Seq<Seq<Op>>, ascii: bool, s: State, cursor: nat)
    ensures
        pass_result(code, ascii, s, cursor).state.threads.len() <= s.threads.len(),
        grown_by_unstarted(s.spawned, pass_result(code, ascii, s, cursor).state.spawned),
    decreases s.threads.len() - cursor,
{
    assert(s.spawned.take(s.spawned.len() as int) =~= s.spawned);
    if cursor < s.threads.len() {
        lemma_step_progress(code, ascii, s, cursor);
        lemma_step_defers_spawned(code, ascii, s, cursor);
        match step_result(code, ascii, s, cursor) {
            Ok((state, next)) => {
                lemma_pass_defers_spawned(code, ascii, state, next);
                lemma_grown_twice(
                    s.spawned,
                    state.spawned,
                    pass_result(code, ascii, state, next).state.spawned,
                );
            },
            Err(_) => {},
        }
    }
}

/// A thread created during a tick takes no turn before the next tick. During
/// the pass of a tick the list of active threads never grows, and the list of
/// created threads only grows, by unstarted threads at its end. Only when the
/// pass is over do the created threads join the active ones, behind all of
/// them and in the order of their creation, and each thread created on the
/// way is then still unstarted.
pub proof fn lemma_spawn_waits_for_next_tick(code: Seq<Seq<Op>>, ascii: bool, s: State)
    ensures
        ({
            let pass = pass_result(code, ascii, s, 0).state;
            let end = tick_result(code, ascii, s);
            &&& pass.threads.len() <= s.threads.len()
            &&& grown_by_unstarted(s.spawned, pass.spawned)
            &&& end.fault is None ==> {
                &&& end.state.threads == pass.threads + pass.spawned
                &&& end.state.spawned.len() == 0
                &&& forall|i: int|
                    pass.threads.len() + s.spawned.len() <= i < end.state.threads.len()
                        ==> unstarted(#[trigger] end.state.threads[i])
            }
        }),
{
    lemma_pass_defers_spawned(code, ascii, s, 0);
}

} // verus!
