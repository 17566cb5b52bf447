//! The scheduler: a population of threads that take turns, one instruction
//! each per tick.
//!
//! The first half of this file says what running a program means, as
//! functions on a mathematical [`State`]. The second half is the executable
//! [`Machine`], each of whose operations is proved to do what the first half
//! says.

use crate::error::Error;
use crate::instruction::{Code, Instruction, Op};
use crate::natural::{
    big_add_assign, big_from_usize, big_lt, big_sub_assign, big_to_string, big_to_usize,
    big_value, decimal,
};
use crate::text::is_scalar_value;
use num_bigint::BigUint;
use vstd::prelude::*;
use vstd::string::StringExecFns;

verus! {

/// What a thread is, to the contracts: its register and the place of the
/// instruction it executes next. Lines and offsets count from zero.
pub struct ThreadView {
    /// The value held. It is an integer here, so that its never going below
    /// zero is a law of the instructions and not a matter of its type.
    pub register: int,
    /// The index of the line at which the thread stands.
    pub line: nat,
    /// The index within that line of the instruction to execute next.
    pub offset: nat,
}

/// What a machine is, to the contracts.
pub struct State {
    /// The active threads, in the order in which they take their turns.
    pub threads: Seq<ThreadView>,
    /// The threads created during the tick in progress, in order of creation.
    pub spawned: Seq<ThreadView>,
    /// The input values not yet read.
    pub input: Seq<usize>,
    /// Everything written so far.
    pub output: Seq<char>,
}

/// How a run stands.
#[derive(Clone, Copy, Debug, PartialEq, Eq, Structural)]
pub enum Status {
    /// No thread is left.
    Finished,
    /// Threads are left, and nothing has failed.
    Running,
    /// The run failed and is over.
    Failed(Error),
}

/// Where a pass over the threads left the machine, and the failure that
/// stopped it, if one did.
pub struct Pass {
    /// The state at the end of the pass, or just before the turn that failed.
    pub state: State,
    /// The failure that stopped the pass, if one did.
    pub fault: Option<Error>,
}

/// A thread as it is created: at the start of a line, with an empty register.
pub open spec fn fresh(line: nat) -> ThreadView {
    ThreadView { register: 0, line, offset: 0 }
}

/// The state in which every run starts: one fresh thread at the first line.
pub open spec fn initial_state(input: Seq<usize>) -> State {
    State { threads: seq![fresh(0)], spawned: Seq::empty(), input, output: Seq::empty() }
}

/// The first line at or after `line` that holds an instruction.
pub open spec fn first_code_from(code: Seq<Seq<Op>>, line: nat) -> Option<nat>
    decreases code.len() - line,
{
    if line >= code.len() {
        None
    } else if code[line as int].len() > 0 {
        Some(line)
    } else {
        first_code_from(code, line + 1)
    }
}

/// The place of the instruction that a thread at `(line, offset)` executes
/// next. Where the offset is within the line, that is the place itself. Where
/// it is at or past the line's end, it is the start of the next line that
/// holds an instruction. There is none where the program ends first, or where
/// `line` is no line of the program.
pub open spec fn resolve(code: Seq<Seq<Op>>, line: nat, offset: nat) -> Option<(nat, nat)> {
    if line >= code.len() {
        None
    } else if offset < code[line as int].len() {
        Some((line, offset))
    } else {
        match first_code_from(code, line + 1) {
            Some(next) => Some((next, 0nat)),
            None => None,
        }
    }
}

/// The index of the line that an instruction names by its one-based number.
/// There is none for line zero, nor for a number that no `usize` holds.
pub open spec fn target_index(number: nat) -> Option<nat> {
    if 1 <= number <= usize::MAX {
        Some((number - 1) as nat)
    } else {
        None
    }
}

/// What a write emits: in character mode the character whose code the
/// register holds, if there is one; otherwise the register in decimal and a
/// newline.
pub open spec fn written(ascii: bool, register: int) -> Option<Seq<char>> {
    if ascii {
        if is_scalar_value(register) {
            Some(seq![register as char])
        } else {
            None
        }
    } else {
        Some(decimal(register as nat).push('\n'))
    }
}

/// The threads with the one at `cursor` moved to `(line, offset)`.
pub open spec fn moved(threads: Seq<ThreadView>, cursor: int, line: nat, offset: nat) -> Seq<
    ThreadView,
>
    recommends
        0 <= cursor < threads.len(),
{
    threads.update(cursor, ThreadView { register: threads[cursor].register, line, offset })
}

/// The threads with `register` in the register of the one at `cursor`.
pub open spec fn loaded(threads: Seq<ThreadView>, cursor: int, register: int) -> Seq<ThreadView>
    recommends
        0 <= cursor < threads.len(),
{
    threads.update(cursor, ThreadView { register, ..threads[cursor] })
}

/// Whether a thread's register differs from `v`.
pub open spec fn differs(v: int) -> spec_fn(ThreadView) -> bool {
    |t: ThreadView| t.register != v
}

/// The threads in front of `cursor` that a kill of `v` leaves.
pub open spec fn spared_before(threads: Seq<ThreadView>, cursor: int, v: int) -> Seq<ThreadView> {
    threads.take(cursor).filter(differs(v))
}

/// The threads behind `cursor` that a kill of `v` leaves.
pub open spec fn spared_after(threads: Seq<ThreadView>, cursor: int, v: int) -> Seq<ThreadView> {
    threads.skip(cursor + 1).filter(differs(v))
}

/// How many threads a kill of `v` by the thread at `cursor` removes.
pub open spec fn killed(threads: Seq<ThreadView>, cursor: int, v: int) -> int {
    threads.len() - 1 - spared_before(threads, cursor, v).len() - spared_after(
        threads,
        cursor,
        v,
    ).len()
}

/// The threads after the one at `cursor` has killed `v`: every other thread
/// whose register is `v` is gone, the rest keep their order, and the killer
/// holds the number of threads removed.
pub open spec fn after_kill(threads: Seq<ThreadView>, cursor: int, v: int) -> Seq<ThreadView>
    recommends
        0 <= cursor < threads.len(),
{
    spared_before(threads, cursor, v).push(
        ThreadView { register: killed(threads, cursor, v), ..threads[cursor] },
    ) + spared_after(threads, cursor, v)
}

/// The threads after the one at `cursor` has added its register to every
/// other.
pub open spec fn after_add(threads: Seq<ThreadView>, cursor: int) -> Seq<ThreadView>
    recommends
        0 <= cursor < threads.len(),
{
    Seq::new(
        threads.len(),
        |i: int|
            if i == cursor {
                threads[i]
            } else {
                ThreadView {
                    register: threads[i].register + threads[cursor].register,
                    ..threads[i]
                }
            },
    )
}

/// The threads after the one at `cursor` has subtracted its register from
/// every other; a register that is the smaller one becomes zero.
pub open spec fn after_subtract(threads: Seq<ThreadView>, cursor: int) -> Seq<ThreadView>
    recommends
        0 <= cursor < threads.len(),
{
    Seq::new(
        threads.len(),
        |i: int|
            if i == cursor {
                threads[i]
            } else if threads[i].register < threads[cursor].register {
                ThreadView { register: 0, ..threads[i] }
            } else {
                ThreadView {
                    register: threads[i].register - threads[cursor].register,
                    ..threads[i]
                }
            },
    )
}

/// What an instruction does. The thread at `cursor` executes `op`; its place
/// in `s` is already behind the instruction. The result is the new state and
/// the position at which the pass goes on, or the failure. A thread that
/// leaves the list lets the next one move into its position, so the pass goes
/// on at the same position.
pub open spec fn execute(op: Op, ascii: bool, s: State, cursor: int) -> Result<(State, nat), Error>
    recommends
        0 <= cursor < s.threads.len(),
{
    let me = s.threads[cursor];
    let next = (cursor + 1) as nat;
    match op {
        Op::Load(v) => Ok((State { threads: loaded(s.threads, cursor, v as int), ..s }, next)),
        Op::Spawn(number) => match target_index(number) {
            Some(line) => Ok((State { spawned: s.spawned.push(fresh(line)), ..s }, next)),
            None => Err(Error::InvalidTarget),
        },
        Op::SpawnMulti(number) => if me.register <= 0 {
            Ok((s, next))
        } else {
            match target_index(number) {
                Some(line) => Ok(
                    (
                        State {
                            spawned: s.spawned + Seq::new(me.register as nat, |i: int| fresh(line)),
                            ..s
                        },
                        next,
                    ),
                ),
                None => Err(Error::InvalidTarget),
            }
        },
        Op::Kill(v) => Ok(
            (
                State { threads: after_kill(s.threads, cursor, v as int), ..s },
                (spared_before(s.threads, cursor, v as int).len() + 1) as nat,
            ),
        ),
        Op::Jump(number) => match target_index(number) {
            Some(line) => Ok((State { threads: moved(s.threads, cursor, line, 0), ..s }, next)),
            None => Err(Error::InvalidTarget),
        },
        Op::Read => if s.input.len() == 0 {
            Err(Error::InputExhausted)
        } else {
            Ok(
                (
                    State {
                        threads: loaded(s.threads, cursor, s.input[0] as int),
                        input: s.input.drop_first(),
                        ..s
                    },
                    next,
                ),
            )
        },
        Op::Write => match written(ascii, me.register) {
            Some(text) => Ok((State { output: s.output + text, ..s }, next)),
            None => Err(Error::OutputEncodingError),
        },
        Op::Halt => Ok((State { threads: s.threads.remove(cursor), ..s }, cursor as nat)),
        Op::Sleep => Ok((s, next)),
        Op::GlobalAdd => Ok((State { threads: after_add(s.threads, cursor), ..s }, next)),
        Op::GlobalSubtract => Ok((State { threads: after_subtract(s.threads, cursor), ..s }, next)),
    }
}

/// One turn: what the thread at `cursor` does, and where the pass goes on.
/// The thread first finds its instruction ([`resolve`]). Where there is none
/// left it has fallen off the end of the program and leaves the list. Else it
/// moves behind the instruction and executes it. A failure leaves the state
/// as it was before the turn.
pub open spec fn step_result(code: Seq<Seq<Op>>, ascii: bool, s: State, cursor: nat) -> Result<
    (State, nat),
    Error,
> {
    if cursor >= s.threads.len() {
        Ok((s, cursor))
    } else {
        let t = s.threads[cursor as int];
        match resolve(code, t.line, t.offset) {
            None => Ok((State { threads: s.threads.remove(cursor as int), ..s }, cursor)),
            Some((line, offset)) => execute(
                code[line as int][offset as int],
                ascii,
                State { threads: moved(s.threads, cursor as int, line, offset + 1), ..s },
                cursor as int,
            ),
        }
    }
}

/// A turn brings the pass nearer to its end: fewer threads are left behind
/// the position at which it goes on, and that position is within the list or
/// at its end.
pub proof fn lemma_step_progress(code: Seq<Seq<Op>>, ascii: bool, s: State, cursor: nat)
    requires
        cursor < s.threads.len(),
    ensures
        match step_result(code, ascii, s, cursor) {
            Ok((state, next)) => {
                &&& next <= state.threads.len()
                &&& state.threads.len() - next < s.threads.len() - cursor
            },
            Err(_) => true,
        },
{
    let t = s.threads[cursor as int];
    match resolve(code, t.line, t.offset) {
        None => {},
        Some((line, offset)) => {
            let threads = moved(s.threads, cursor as int, line, offset + 1);
            match code[line as int][offset as int] {
                Op::Kill(v) => {
                    threads.take(cursor as int).lemma_filter_len(differs(v as int));
                    threads.skip(cursor as int + 1).lemma_filter_len(differs(v as int));
                },
                _ => {},
            }
        },
    }
}

/// The rest of a pass: the threads from `cursor` on take their turns in
/// order, until the end of the list is reached or a turn fails.
pub open spec fn pass_result(code: Seq<Seq<Op>>, ascii: bool, s: State, cursor: nat) -> Pass
    decreases s.threads.len() - cursor,
    via pass_result_decreases
{
    if cursor >= s.threads.len() {
        Pass { state: s, fault: None }
    } else {
        match step_result(code, ascii, s, cursor) {
            Ok((state, next)) => pass_result(code, ascii, state, next),
            Err(error) => Pass { state: s, fault: Some(error) },
        }
    }
}

#[via_fn]
proof fn pass_result_decreases(code: Seq<Seq<Op>>, ascii: bool, s: State, cursor: nat) {
    if cursor < s.threads.len() {
        lemma_step_progress(code, ascii, s, cursor);
    }
}

/// One tick: a pass over all active threads, after which the threads created
/// during the pass join the end of the list. A pass that fails stops where it
/// failed, and nothing joins.
pub open spec fn tick_result(code: Seq<Seq<Op>>, ascii: bool, s: State) -> Pass {
    let pass = pass_result(code, ascii, s, 0);
    if pass.fault is Some {
        pass
    } else {
        Pass {
            state: State {
                threads: pass.state.threads + pass.state.spawned,
                spawned: Seq::empty(),
                ..pass.state
            },
            fault: None,
        }
    }
}

/// A run of at most `ticks` ticks: tick after tick until no thread is left, a
/// tick fails, or the ticks are used up.
pub open spec fn run_result(code: Seq<Seq<Op>>, ascii: bool, s: State, ticks: nat) -> (
    State,
    Status,
)
    decreases ticks,
{
    if s.threads.len() == 0 {
        (s, Status::Finished)
    } else if ticks == 0 {
        (s, Status::Running)
    } else {
        let tick = tick_result(code, ascii, s);
        match tick.fault {
            Some(error) => (tick.state, Status::Failed(error)),
            None => run_result(code, ascii, tick.state, (ticks - 1) as nat),
        }
    }
}

/// One execution context: a register and the place of the next instruction.
#[derive(Clone, Debug, PartialEq, Eq)]
pub struct Thread {
    /// The one value that the thread holds.
    pub register: BigUint,
    /// The index of the line at which the thread stands, from zero.
    pub line: usize,
    /// The index within that line of the instruction to execute next.
    pub offset: usize,
}

impl View for Thread {
    type V = ThreadView;

    open spec fn view(&self) -> ThreadView {
        ThreadView {
            register: big_value(self.register) as int,
            line: self.line as nat,
            offset: self.offset as nat,
        }
    }
}

impl DeepView for Thread {
    type V = ThreadView;

    open spec fn deep_view(&self) -> ThreadView {
        self@
    }
}

/// A program being run.
#[derive(Debug)]
pub struct Machine {
    /// The program.
    pub code: Code,
    /// Whether a write emits a character rather than a number.
    pub ascii: bool,
    /// The active threads, in the order in which they take their turns.
    pub threads: Vec<Thread>,
    /// The threads created during the tick in progress.
    pub spawned: Vec<Thread>,
    /// The input values not yet read, the next one first.
    pub input: Vec<usize>,
    /// What has been written and not yet taken away.
    pub output: String,
}

impl View for Machine {
    type V = State;

    open spec fn view(&self) -> State {
        State {
            threads: self.threads.deep_view(),
            spawned: self.spawned.deep_view(),
            input: self.input@,
            output: self.output@,
        }
    }
}

/// Finds the instruction that a thread at `(line, offset)` executes next.
pub fn locate(code: &Code, line: usize, offset: usize) -> (r: Option<(usize, usize)>)
    ensures
        match r {
            Some((l, o)) => {
                &&& resolve(code.deep_view(), line as nat, offset as nat) == Some(
                    (l as nat, o as nat),
                )
                &&& l < code.len()
                &&& o < code[l as int].len()
            },
            None => resolve(code.deep_view(), line as nat, offset as nat) is None,
        },
{
    let ghost model = code.deep_view();
    assert forall|i: int| 0 <= i < code.len() implies (#[trigger] model[i]).len()
        == code[i].len() by {}
    if line >= code.len() {
        return None;
    }
    if offset < code[line].len() {
        return Some((line, offset));
    }
    let mut next: usize = line + 1;
    while next < code.len() && code[next].len() == 0
        invariant
            line < next <= code.len(),
            model == code.deep_view(),
            forall|i: int| 0 <= i < code.len() ==> (#[trigger] model[i]).len() == code[i].len(),
            first_code_from(model, (line + 1) as nat) == first_code_from(model, next as nat),
        decreases code.len() - next,
    {
        next += 1;
    }
    if next < code.len() {
        Some((next, 0))
    } else {
        None
    }
}

/// Turns the one-based line number of an instruction into a line index.
pub fn target(number: &BigUint) -> (r: Result<usize, Error>)
    ensures
        match r {
            Ok(line) => target_index(big_value(*number)) == Some(line as nat),
            Err(e) => e == Error::InvalidTarget && target_index(big_value(*number)) is None,
        },
{
    match big_to_usize(number) {
        Ok(n) => if n == 0 {
            Err(Error::InvalidTarget)
        } else {
            Ok(n - 1)
        },
        Err(_) => Err(Error::InvalidTarget),
    }
}

/// Appends to `output` what a write of `register` emits, or fails and leaves
/// `output` alone.
pub fn emit(output: &mut String, register: &BigUint, ascii: bool) -> (r: Result<(), Error>)
    ensures
        match written(ascii, big_value(*register) as int) {
            Some(text) => r is Ok && final(output)@ == old(output)@ + text,
            None => r == Err::<(), Error>(Error::OutputEncodingError) && final(output)@ == old(
                output,
            )@,
        },
{
    if ascii {
        let code = match big_to_usize(register) {
            Ok(n) => if n <= 0x10FFFF {
                char::from_u32(n as u32)
            } else {
                None
            },
            Err(_) => None,
        };
        match code {
            Some(c) => {
                output.push(c);
                Ok(())
            },
            None => Err(Error::OutputEncodingError),
        }
    } else {
        let digits = big_to_string(register);
        output.append(digits.as_str());
        output.push('\n');
        Ok(())
    }
}

/// Appends `count` fresh threads at `line` to `spawned`.
pub fn spawn_many(spawned: &mut Vec<Thread>, count: &BigUint, line: usize)
    ensures
        final(spawned).deep_view() == old(spawned).deep_view() + Seq::new(
            big_value(*count),
            |i: int| fresh(line as nat),
        ),
{
    let zero = big_from_usize(0);
    let one = big_from_usize(1);
    let mut left = count.clone();
    let ghost mut made: nat = 0;
    while big_lt(&zero, &left)
        invariant
            big_value(zero) == 0,
            big_value(one) == 1,
            big_value(left) + made == big_value(*count),
            spawned.deep_view() == old(spawned).deep_view() + Seq::new(
                made,
                |i: int| fresh(line as nat),
            ),
        decreases big_value(left),
    {
        let ghost before = spawned.deep_view();
        spawned.push(Thread { register: big_from_usize(0), line, offset: 0 });
        big_sub_assign(&mut left, &one);
        proof {
            assert(before.push(fresh(line as nat)) =~= old(spawned).deep_view() + Seq::new(
                made + 1,
                |i: int| fresh(line as nat),
            ));
            made = made + 1;
        }
    }
}

/// What a kill has kept of the first `done` threads.
spec fn kept(model: Seq<ThreadView>, cursor: int, v: int, done: int) -> Seq<ThreadView> {
    if done <= cursor {
        model.take(done).filter(differs(v))
    } else {
        model.take(cursor).filter(differs(v)).push(model[cursor]) + model.subrange(
            cursor + 1,
            done,
        ).filter(differs(v))
    }
}

/// Looking at one more thread keeps it or drops it.
proof fn lemma_kept_next(model: Seq<ThreadView>, cursor: int, v: int, done: int)
    requires
        0 <= cursor < model.len(),
        0 <= done < model.len(),
    ensures
        kept(model, cursor, v, done + 1) == if done == cursor || model[done].register != v {
            kept(model, cursor, v, done).push(model[done])
        } else {
            kept(model, cursor, v, done)
        },
{
    if done < cursor {
        assert(model.take(done + 1) =~= model.take(done).push(model[done]));
        model.take(done).lemma_filter_push(model[done], differs(v));
    } else if done > cursor {
        let seen = model.subrange(cursor + 1, done);
        assert(model.subrange(cursor + 1, done + 1) =~= seen.push(model[done]));
        seen.lemma_filter_push(model[done], differs(v));
    }
}

/// Executes a kill of `v` for the thread at `cursor`: removes every other
/// thread whose register holds `v`, keeps the order of the rest, and leaves
/// the number of threads removed in the killer's register. Gives the position
/// behind the killer, which may have moved towards the front. Where no
/// thread stands at `cursor` there is no killer: nothing changes, and the
/// position is given back.
pub fn kill(threads: &mut Vec<Thread>, cursor: usize, v: &BigUint) -> (next: usize)
    ensures
        cursor < old(threads).len() ==> final(threads).deep_view() == after_kill(
            old(threads).deep_view(),
            cursor as int,
            big_value(*v) as int,
        ) && next == spared_before(
            old(threads).deep_view(),
            cursor as int,
            big_value(*v) as int,
        ).len() + 1,
        cursor >= old(threads).len() ==> final(threads).deep_view() == old(threads).deep_view()
            && next == cursor,
{
    if cursor >= threads.len() {
        return cursor;
    }
    let ghost model = threads.deep_view();
    let ghost value = big_value(*v) as int;
    let mut all: Vec<Thread> = Vec::new();
    std::mem::swap(threads, &mut all);
    let ghost items = all@;
    let mut place: usize = 0;
    let mut removed: usize = 0;
    let mut i: usize = 0;
    for t in it: all
        invariant
            i == it.index(),
            it.seq() == items,
            items.len() == model.len(),
            items.len() <= usize::MAX,
            cursor < model.len(),
            value == big_value(*v) as int,
            forall|j: int| 0 <= j < items.len() ==> (#[trigger] items[j])@ == model[j],
            threads.deep_view() == kept(model, cursor as int, value, i as int),
            removed + threads.len() == i,
            i <= cursor ==> place == 0,
            i > cursor ==> place == spared_before(model, cursor as int, value).len(),
    {
        proof {
            lemma_kept_next(model, cursor as int, value, i as int);
        }
        if i == cursor {
            place = threads.len();
            threads.push(t);
        } else if t.register == *v {
            removed += 1;
        } else {
            threads.push(t);
        }
        i += 1;
    }
    let ghost rebuilt = threads.deep_view();
    assert(rebuilt[place as int] == model[cursor as int]);
    threads[place].register = big_from_usize(removed);
    assert(threads.deep_view() =~= rebuilt.update(
        place as int,
        ThreadView { register: removed as int, ..model[cursor as int] },
    ));
    place + 1
}

/// Adds the register of the thread at `cursor` to the register of every
/// other thread. Where no thread stands at `cursor`, nothing changes.
pub fn global_add(threads: &mut Vec<Thread>, cursor: usize)
    ensures
        cursor < old(threads).len() ==> final(threads).deep_view() == after_add(
            old(threads).deep_view(),
            cursor as int,
        ),
        cursor >= old(threads).len() ==> final(threads).deep_view() == old(threads).deep_view(),
{
    if cursor >= threads.len() {
        return;
    }
    let ghost model = threads.deep_view();
    let amount = threads[cursor].register.clone();
    let mut i: usize = 0;
    while i < threads.len()
        invariant
            i <= threads.len(),
            threads.len() == model.len(),
            cursor < model.len(),
            big_value(amount) == model[cursor as int].register,
            forall|j: int|
                0 <= j < i ==> (#[trigger] threads[j])@ == after_add(model, cursor as int)[j],
            forall|j: int| i <= j < threads.len() ==> (#[trigger] threads[j])@ == model[j],
        decreases threads.len() - i,
    {
        if i != cursor {
            big_add_assign(&mut threads[i].register, &amount);
        }
        i += 1;
    }
}

/// Subtracts the register of the thread at `cursor` from the register of
/// every other thread; a register that is the smaller one becomes zero. Where
/// no thread stands at `cursor`, nothing changes.
pub fn global_subtract(threads: &mut Vec<Thread>, cursor: usize)
    ensures
        cursor < old(threads).len() ==> final(threads).deep_view() == after_subtract(
            old(threads).deep_view(),
            cursor as int,
        ),
        cursor >= old(threads).len() ==> final(threads).deep_view() == old(threads).deep_view(),
{
    if cursor >= threads.len() {
        return;
    }
    let ghost model = threads.deep_view();
    let amount = threads[cursor].register.clone();
    let mut i: usize = 0;
    while i < threads.len()
        invariant
            i <= threads.len(),
            threads.len() == model.len(),
            cursor < model.len(),
            big_value(amount) == model[cursor as int].register,
            forall|j: int|
                0 <= j < i ==> (#[trigger] threads[j])@ == after_subtract(model, cursor as int)[j],
            forall|j: int| i <= j < threads.len() ==> (#[trigger] threads[j])@ == model[j],
        decreases threads.len() - i,
    {
        if i != cursor {
            if big_lt(&threads[i].register, &amount) {
                threads[i].register = big_from_usize(0);
            } else {
                big_sub_assign(&mut threads[i].register, &amount);
            }
        }
        i += 1;
    }
}

/// Moves the thread at `cursor` to `(line, offset)`.
fn place_thread(threads: &mut Vec<Thread>, cursor: usize, line: usize, offset: usize)
    requires
        cursor < old(threads).len(),
    ensures
        final(threads).deep_view() == moved(
            old(threads).deep_view(),
            cursor as int,
            line as nat,
            offset as nat,
        ),
{
    threads[cursor].line = line;
    threads[cursor].offset = offset;
}

/// Puts `value` into the register of the thread at `cursor`.
fn set_register(threads: &mut Vec<Thread>, cursor: usize, value: BigUint)
    requires
        cursor < old(threads).len(),
    ensures
        final(threads).deep_view() == loaded(
            old(threads).deep_view(),
            cursor as int,
            big_value(value) as int,
        ),
{
    threads[cursor].register = value;
}

/// Takes the thread at `cursor` out of the list.
fn remove_thread(threads: &mut Vec<Thread>, cursor: usize)
    requires
        cursor < old(threads).len(),
    ensures
        final(threads).deep_view() == old(threads).deep_view().remove(cursor as int),
{
    threads.remove(cursor);
}

/// Appends one fresh thread at `line` to `spawned`.
fn spawn_one(spawned: &mut Vec<Thread>, line: usize)
    ensures
        final(spawned).deep_view() == old(spawned).deep_view().push(fresh(line as nat)),
{
    spawned.push(Thread { register: big_from_usize(0), line, offset: 0 });
}

impl Machine {
    /// A machine about to run `code`: one fresh thread at the first line, and
    /// nothing written yet.
    pub fn new(code: Code, input: Vec<usize>, ascii: bool) -> (m: Machine)
        ensures
            m.code == code,
            m.ascii == ascii,
            m@ == initial_state(input@),
    {
        let mut threads: Vec<Thread> = Vec::new();
        threads.push(Thread { register: big_from_usize(0), line: 0, offset: 0 });
        let m = Machine {
            code,
            ascii,
            threads,
            spawned: Vec::new(),
            input,
            output: String::new(),
        };
        assert(m.threads.deep_view() =~= seq![fresh(0)]);
        assert(m.spawned.deep_view() =~= Seq::<ThreadView>::empty());
        m
    }

    /// Whether no thread is left.
    pub fn is_finished(&self) -> (r: bool)
        ensures
            r == (self@.threads.len() == 0),
    {
        self.threads.len() == 0
    }

    /// Hands over what has been written since the last call, and forgets it.
    pub fn take_output(&mut self) -> (r: String)
        ensures
            r@ == old(self)@.output,
            final(self)@ == (State { output: Seq::empty(), ..old(self)@ }),
            final(self).code == old(self).code,
            final(self).ascii == old(self).ascii,
    {
        let mut taken = String::new();
        std::mem::swap(&mut self.output, &mut taken);
        taken
    }

    /// Gives the thread at `cursor` its turn: one instruction, or its removal
    /// where it has fallen off the end of the program. Returns the position at
    /// which the pass goes on. A failure leaves the machine as it was.
    pub fn step(&mut self, cursor: usize) -> (r: Result<usize, Error>)
        ensures
            final(self).code == old(self).code,
            final(self).ascii == old(self).ascii,
            match step_result(
                old(self).code.deep_view(),
                old(self).ascii,
                old(self)@,
                cursor as nat,
            ) {
                Ok((state, next)) => r == Ok::<usize, Error>(next as usize) && final(self)@
                    == state,
                Err(error) => r == Err::<usize, Error>(error) && final(self)@ == old(self)@,
            },
    {
        if cursor >= self.threads.len() {
            return Ok(cursor);
        }
        let found = locate(&self.code, self.threads[cursor].line, self.threads[cursor].offset);
        let (line, offset) = match found {
            Some(place) => place,
            None => {
                remove_thread(&mut self.threads, cursor);
                return Ok(cursor);
            },
        };
        match &self.code[line][offset] {
            Instruction::Load(v) => {
                place_thread(&mut self.threads, cursor, line, offset + 1);
                set_register(&mut self.threads, cursor, v.clone());
            },
            Instruction::Spawn(number) => {
                let to = target(number)?;
                place_thread(&mut self.threads, cursor, line, offset + 1);
                spawn_one(&mut self.spawned, to);
            },
            Instruction::SpawnMulti(number) => {
                let zero = big_from_usize(0);
                if big_lt(&zero, &self.threads[cursor].register) {
                    let to = target(number)?;
                    spawn_many(&mut self.spawned, &self.threads[cursor].register, to);
                }
                place_thread(&mut self.threads, cursor, line, offset + 1);
            },
            Instruction::Kill(v) => {
                place_thread(&mut self.threads, cursor, line, offset + 1);
                let next = kill(&mut self.threads, cursor, v);
                return Ok(next);
            },
            Instruction::Jump(number) => {
                let to = target(number)?;
                place_thread(&mut self.threads, cursor, to, 0);
                assert(self.threads.deep_view() =~= moved(
                    moved(old(self)@.threads, cursor as int, line as nat, (offset + 1) as nat),
                    cursor as int,
                    to as nat,
                    0,
                ));
            },
            Instruction::Read => {
                if self.input.len() == 0 {
                    return Err(Error::InputExhausted);
                }
                let value = self.input.remove(0);
                place_thread(&mut self.threads, cursor, line, offset + 1);
                set_register(&mut self.threads, cursor, big_from_usize(value));
            },
            Instruction::Write => {
                emit(&mut self.output, &self.threads[cursor].register, self.ascii)?;
                place_thread(&mut self.threads, cursor, line, offset + 1);
            },
            Instruction::Halt => {
                remove_thread(&mut self.threads, cursor);
                assert(self.threads.deep_view() =~= moved(
                    old(self)@.threads,
                    cursor as int,
                    line as nat,
                    (offset + 1) as nat,
                ).remove(cursor as int));
                return Ok(cursor);
            },
            Instruction::Sleep => {
                place_thread(&mut self.threads, cursor, line, offset + 1);
            },
            Instruction::GlobalAdd => {
                place_thread(&mut self.threads, cursor, line, offset + 1);
                global_add(&mut self.threads, cursor);
            },
            Instruction::GlobalSubtract => {
                place_thread(&mut self.threads, cursor, line, offset + 1);
                global_subtract(&mut self.threads, cursor);
            },
        }
        Ok(cursor + 1)
    }

    /// One tick: every active thread takes one turn, in order, and then the
    /// threads created on the way join the end of the list. Stops at the first
    /// turn that fails and leaves the machine as it was before that turn.
    pub fn tick(&mut self) -> (r: Result<(), Error>)
        ensures
            final(self).code == old(self).code,
            final(self).ascii == old(self).ascii,
            final(self)@ == tick_result(
                old(self).code.deep_view(),
                old(self).ascii,
                old(self)@,
            ).state,
            r == match tick_result(
                old(self).code.deep_view(),
                old(self).ascii,
                old(self)@,
            ).fault {
                Some(error) => Err::<(), Error>(error),
                None => Ok::<(), Error>(()),
            },
    {
        let ghost model = self.code.deep_view();
        let mut cursor: usize = 0;
        while cursor < self.threads.len()
            invariant
                self.code == old(self).code,
                self.ascii == old(self).ascii,
                model == self.code.deep_view(),
                cursor <= self.threads.len(),
                pass_result(model, self.ascii, old(self)@, 0) == pass_result(
                    model,
                    self.ascii,
                    self@,
                    cursor as nat,
                ),
            decreases self.threads.len() - cursor,
        {
            proof {
                lemma_step_progress(model, self.ascii, self@, cursor as nat);
            }
            match self.step(cursor) {
                Ok(next) => {
                    cursor = next;
                },
                Err(error) => {
                    return Err(error);
                },
            }
        }
        let ghost walked = self@;
        self.threads.append(&mut self.spawned);
        assert(self.threads.deep_view() =~= walked.threads + walked.spawned);
        assert(self.spawned.deep_view() =~= Seq::<ThreadView>::empty());
        Ok(())
    }

    /// Runs for at most `max_ticks` ticks: until no thread is left, a tick
    /// fails, or the ticks are used up.
    pub fn run(&mut self, max_ticks: usize) -> (r: Status)
        ensures
            final(self).code == old(self).code,
            final(self).ascii == old(self).ascii,
            (final(self)@, r) == run_result(
                old(self).code.deep_view(),
                old(self).ascii,
                old(self)@,
                max_ticks as nat,
            ),
    {
        let ghost model = self.code.deep_view();
        let mut left: usize = max_ticks;
        while left > 0 && self.threads.len() > 0
            invariant
                self.code == old(self).code,
                self.ascii == old(self).ascii,
                model == self.code.deep_view(),
                run_result(model, self.ascii, old(self)@, max_ticks as nat) == run_result(
                    model,
                    self.ascii,
                    self@,
                    left as nat,
                ),
            decreases left,
        {
            match self.tick() {
                Ok(()) => {},
                Err(error) => {
                    return Status::Failed(error);
                },
            }
            left -= 1;
        }
        if self.threads.len() == 0 {
            Status::Finished
        } else {
            Status::Running
        }
    }
}

/// Runs `code` from the start on the given input for at most `max_ticks`
/// ticks. Returns everything written, and how the run stood at the end.
pub fn interpret(code: Code, input: Vec<usize>, ascii: bool, max_ticks: usize) -> (r: (
    String,
    Status,
))
    ensures
        (r.0@, r.1) == ({
            let end = run_result(code.deep_view(), ascii, initial_state(input@), max_ticks as nat);
            (end.0.output, end.1)
        }),
{
    let mut machine = Machine::new(code, input, ascii);
    let status = machine.run(max_ticks);
    (machine.output, status)
}

} // verus!
