use ishi::error::Error;
use ishi::instruction::Instruction;
use ishi::machine::{
    emit, global_add, global_subtract, interpret, kill, locate, spawn_many, target, Machine,
    Status, Thread,
};
use ishi::parser::parse;
use num_bigint::BigUint;

fn big(n: u64) -> BigUint {
    BigUint::from(n)
}

fn thread(register: u64, line: usize, offset: usize) -> Thread {
    Thread { register: big(register), line, offset }
}

fn run(text: &str, input: Vec<usize>, ascii: bool) -> (String, Status) {
    interpret(parse(text).unwrap(), input, ascii, 1000)
}

#[test]
fn load_write_halt_prints_the_number() {
    assert_eq!(run("=5\nw\n!", vec![], false), ("5\n".to_string(), Status::Finished));
}

#[test]
fn a_spawned_thread_runs_after_its_maker_has_halted() {
    assert_eq!(run("+3\n!\n=7\nw\n!", vec![], false), ("7\n".to_string(), Status::Finished));
}

#[test]
fn character_mode_prints_the_character_and_the_thread_falls_off_the_end() {
    assert_eq!(run("=65\nw", vec![], true), ("A".to_string(), Status::Finished));
}

#[test]
fn kill_counts_the_threads_it_removes() {
    let text = "+4+4..-9w!\n\n#two threads wait below\n=9\n.:5";
    assert_eq!(run(text, vec![], false), ("2\n".to_string(), Status::Finished));
}

#[test]
fn kill_of_two_threads_leaves_two_in_the_register() {
    let mut threads = vec![thread(9, 3, 1), thread(4, 0, 5), thread(9, 4, 1)];
    let next = kill(&mut threads, 1, &big(9));
    assert_eq!(threads, vec![thread(2, 0, 5)]);
    assert_eq!(next, 1);
}

#[test]
fn kill_spares_the_killer_even_with_the_same_register() {
    let mut threads =
        vec![thread(9, 0, 0), thread(7, 1, 0), thread(9, 2, 2), thread(9, 3, 0), thread(5, 4, 0)];
    let next = kill(&mut threads, 2, &big(9));
    assert_eq!(threads, vec![thread(7, 1, 0), thread(2, 2, 2), thread(5, 4, 0)]);
    assert_eq!(next, 2);
}

#[test]
fn kill_that_finds_nothing_counts_zero() {
    let mut threads = vec![thread(1, 0, 0), thread(2, 0, 0), thread(3, 0, 0)];
    let next = kill(&mut threads, 0, &big(8));
    assert_eq!(threads, vec![thread(0, 0, 0), thread(2, 0, 0), thread(3, 0, 0)]);
    assert_eq!(next, 1);
}

#[test]
fn operations_without_an_executing_thread_change_nothing() {
    let before = vec![thread(1, 0, 0), thread(1, 0, 0)];
    let mut threads = before.clone();
    assert_eq!(kill(&mut threads, 2, &big(1)), 2);
    global_add(&mut threads, 2);
    global_subtract(&mut threads, 9);
    assert_eq!(threads, before);
}

#[test]
fn threads_behind_a_killer_still_take_their_turn() {
    // The first thread spawns two, then kills register 0: the first spawned
    // thread has loaded 1 by then, the second still holds 0 and goes.
    let text = "+2+2-0w!\n=1..w!";
    assert_eq!(run(text, vec![], false), ("1\n1\n".to_string(), Status::Finished));
}

#[test]
fn global_add_changes_every_other_register() {
    let mut threads = vec![thread(1, 0, 0), thread(2, 1, 1), thread(3, 2, 2)];
    global_add(&mut threads, 1);
    assert_eq!(threads, vec![thread(3, 0, 0), thread(2, 1, 1), thread(5, 2, 2)]);
}

#[test]
fn global_subtract_stops_at_zero() {
    let mut threads = vec![thread(1, 0, 0), thread(2, 1, 1), thread(5, 2, 2), thread(2, 3, 3)];
    global_subtract(&mut threads, 1);
    assert_eq!(
        threads,
        vec![thread(0, 0, 0), thread(2, 1, 1), thread(3, 2, 2), thread(0, 3, 3)]
    );
}

#[test]
fn global_operations_through_a_program() {
    // Thread one holds 10, thread two holds 3. Thread two adds, then both write.
    let add = "+3=10..w!\n\n=3$!";
    assert_eq!(run(add, vec![], false), ("13\n".to_string(), Status::Finished));
    let subtract = "+3=10..w!\n\n=3~!";
    assert_eq!(run(subtract, vec![], false), ("7\n".to_string(), Status::Finished));
    let clamp = "+3=2..w!\n\n=3~!";
    assert_eq!(run(clamp, vec![], false), ("0\n".to_string(), Status::Finished));
}

#[test]
fn spawn_many_appends_fresh_threads() {
    let mut spawned = vec![thread(4, 1, 1)];
    spawn_many(&mut spawned, &big(3), 7);
    assert_eq!(spawned, vec![thread(4, 1, 1), thread(0, 7, 0), thread(0, 7, 0), thread(0, 7, 0)]);
    spawn_many(&mut spawned, &big(0), 2);
    assert_eq!(spawned.len(), 4);
}

#[test]
fn spawn_multi_uses_the_register_as_count() {
    let text = "=3*3!\n\n=1w!";
    assert_eq!(run(text, vec![], false), ("1\n1\n1\n".to_string(), Status::Finished));
}

#[test]
fn spawn_multi_keeps_the_register() {
    let text = "=2*3w!\n\n!";
    assert_eq!(run(text, vec![], false), ("2\n".to_string(), Status::Finished));
}

#[test]
fn spawn_multi_of_nothing_never_looks_at_its_target() {
    assert_eq!(run("*0w!", vec![], false), ("0\n".to_string(), Status::Finished));
}

#[test]
fn spawned_threads_wait_for_the_next_tick() {
    let mut machine = Machine::new(parse("+2.\n=8w!").unwrap(), vec![], false);
    assert_eq!(machine.tick(), Ok(()));
    assert_eq!(machine.threads, vec![thread(0, 0, 1), thread(0, 1, 0)]);
    assert!(machine.spawned.is_empty());
    assert_eq!(machine.output, "");
    assert_eq!(machine.tick(), Ok(()));
    assert_eq!(machine.threads, vec![thread(0, 0, 2), thread(8, 1, 1)]);
}

#[test]
fn spawned_threads_join_behind_the_others_in_order_of_creation() {
    let mut machine = Machine::new(parse("+2+3\n.\n.").unwrap(), vec![], false);
    assert_eq!(machine.tick(), Ok(()));
    assert_eq!(machine.tick(), Ok(()));
    assert_eq!(machine.threads, vec![thread(0, 0, 2), thread(0, 1, 1), thread(0, 2, 0)]);
}

#[test]
fn a_halt_lets_the_next_thread_run_in_the_same_tick() {
    let mut machine = Machine::new(parse("+2!\nw!").unwrap(), vec![], false);
    assert_eq!(machine.tick(), Ok(()));
    assert_eq!(machine.tick(), Ok(()));
    assert_eq!(machine.output, "0\n");
    assert_eq!(machine.threads, vec![thread(0, 1, 1)]);
    assert_eq!(machine.tick(), Ok(()));
    assert!(machine.is_finished());
}

#[test]
fn falling_off_the_end_lets_the_next_thread_run_in_the_same_tick() {
    let mut machine = Machine::new(parse("+2\nw.").unwrap(), vec![], false);
    assert_eq!(machine.tick(), Ok(()));
    // The first thread walks on into line two.
    assert_eq!(machine.tick(), Ok(()));
    assert_eq!(machine.output, "0\n0\n");
    assert_eq!(machine.tick(), Ok(()));
    assert_eq!(machine.tick(), Ok(()));
    assert!(machine.is_finished());
}

#[test]
fn step_reports_where_the_pass_goes_on() {
    let mut machine = Machine::new(parse("!").unwrap(), vec![], false);
    machine.threads = vec![thread(0, 0, 0), thread(0, 0, 1), thread(0, 0, 0)];
    assert_eq!(machine.step(0), Ok(0));
    assert_eq!(machine.threads.len(), 2);
    assert_eq!(machine.step(0), Ok(0));
    assert_eq!(machine.threads, vec![thread(0, 0, 0)]);
    assert_eq!(machine.step(5), Ok(5));
    assert_eq!(machine.threads.len(), 1);
}

#[test]
fn step_that_fails_changes_nothing() {
    let mut machine = Machine::new(parse("r\n:0\n+0").unwrap(), vec![], true);
    machine.threads = vec![thread(55296, 0, 0), thread(1, 1, 0), thread(2, 2, 0)];
    machine.spawned = vec![thread(0, 7, 0)];
    assert_eq!(machine.step(0), Err(Error::InputExhausted));
    assert_eq!(machine.step(1), Err(Error::InvalidTarget));
    assert_eq!(machine.step(2), Err(Error::InvalidTarget));
    machine.code = parse("w").unwrap();
    assert_eq!(machine.step(0), Err(Error::OutputEncodingError));
    assert_eq!(machine.threads, vec![thread(55296, 0, 0), thread(1, 1, 0), thread(2, 2, 0)]);
    assert_eq!(machine.spawned, vec![thread(0, 7, 0)]);
    assert_eq!(machine.output, "");
}

#[test]
fn a_tick_that_fails_keeps_what_the_earlier_turns_did() {
    let mut machine = Machine::new(parse("=1\nr").unwrap(), vec![], false);
    machine.threads = vec![thread(0, 0, 0), thread(0, 1, 0), thread(0, 0, 0)];
    assert_eq!(machine.tick(), Err(Error::InputExhausted));
    assert_eq!(machine.threads, vec![thread(1, 0, 1), thread(0, 1, 0), thread(0, 0, 0)]);
}

#[test]
fn a_jump_takes_effect_at_the_next_fetch() {
    let mut machine = Machine::new(parse(":3\n=1w!\n=2w!").unwrap(), vec![], false);
    assert_eq!(machine.tick(), Ok(()));
    assert_eq!(machine.threads, vec![thread(0, 2, 0)]);
    assert_eq!(machine.run(10), Status::Finished);
    assert_eq!(machine.output, "2\n");
}

#[test]
fn a_jump_to_an_empty_line_moves_on_to_the_next_instruction() {
    assert_eq!(run(":2\n\n#\n=4w!", vec![], false), ("4\n".to_string(), Status::Finished));
}

#[test]
fn a_jump_behind_the_program_ends_the_thread() {
    assert_eq!(run(":100\nw", vec![], false), (String::new(), Status::Finished));
}

#[test]
fn empty_lines_are_skipped_on_the_way() {
    assert_eq!(run("\n\n=1\n\nw\n\n", vec![], false), ("1\n".to_string(), Status::Finished));
}

#[test]
fn a_program_without_instructions_finishes_at_once() {
    assert_eq!(run("", vec![], false), (String::new(), Status::Finished));
    assert_eq!(run("#nothing\n\n", vec![], false), (String::new(), Status::Finished));
    assert_eq!(interpret(vec![], vec![], false, 5), (String::new(), Status::Finished));
}

#[test]
fn read_takes_the_input_in_order() {
    assert_eq!(run("rwrw", vec![3, 4], false), ("3\n4\n".to_string(), Status::Finished));
}

#[test]
fn read_without_input_fails() {
    assert_eq!(run("r", vec![], false), (String::new(), Status::Failed(Error::InputExhausted)));
    assert_eq!(
        run("rwr", vec![8], false),
        ("8\n".to_string(), Status::Failed(Error::InputExhausted))
    );
}

#[test]
fn line_zero_is_no_target() {
    for text in ["+0", ":0", "=1*0"] {
        assert_eq!(run(text, vec![], false), (String::new(), Status::Failed(Error::InvalidTarget)));
    }
}

#[test]
fn a_line_number_beyond_usize_is_no_target() {
    let text = ":340282366920938463463374607431768211456";
    assert_eq!(run(text, vec![], false), (String::new(), Status::Failed(Error::InvalidTarget)));
}

#[test]
fn target_turns_numbers_into_indices() {
    assert_eq!(target(&big(1)), Ok(0));
    assert_eq!(target(&big(42)), Ok(41));
    assert_eq!(target(&big(0)), Err(Error::InvalidTarget));
    assert_eq!(target(&BigUint::from(usize::MAX)), Ok(usize::MAX - 1));
    assert_eq!(target(&(BigUint::from(usize::MAX) + 1u8)), Err(Error::InvalidTarget));
}

#[test]
fn emit_in_number_mode_is_decimal_and_newline() {
    let mut out = String::from("x");
    assert_eq!(emit(&mut out, &big(0), false), Ok(()));
    assert_eq!(emit(&mut out, &big(1203), false), Ok(()));
    let huge = BigUint::from(10u8).pow(30u32);
    assert_eq!(emit(&mut out, &huge, false), Ok(()));
    assert_eq!(out, "x0\n1203\n1000000000000000000000000000000\n");
}

#[test]
fn emit_in_character_mode_is_the_character_alone() {
    let mut out = String::new();
    assert_eq!(emit(&mut out, &big(72), true), Ok(()));
    assert_eq!(emit(&mut out, &big(0x1F600), true), Ok(()));
    assert_eq!(emit(&mut out, &big(0xD7FF), true), Ok(()));
    assert_eq!(emit(&mut out, &big(0xE000), true), Ok(()));
    assert_eq!(emit(&mut out, &big(0x10FFFF), true), Ok(()));
    assert_eq!(out, "H\u{1F600}\u{D7FF}\u{E000}\u{10FFFF}");
}

#[test]
fn emit_in_character_mode_rejects_what_is_no_scalar_value() {
    let mut out = String::from("kept");
    assert_eq!(emit(&mut out, &big(0xD800), true), Err(Error::OutputEncodingError));
    assert_eq!(emit(&mut out, &big(0xDFFF), true), Err(Error::OutputEncodingError));
    assert_eq!(emit(&mut out, &big(0x110000), true), Err(Error::OutputEncodingError));
    assert_eq!(emit(&mut out, &big(u64::MAX), true), Err(Error::OutputEncodingError));
    let huge = BigUint::from(1u8) << 200usize;
    assert_eq!(emit(&mut out, &huge, true), Err(Error::OutputEncodingError));
    assert_eq!(out, "kept");
}

#[test]
fn a_failed_write_ends_the_run() {
    assert_eq!(
        run("=72w=55296w=73w", vec![], true),
        ("H".to_string(), Status::Failed(Error::OutputEncodingError))
    );
}

#[test]
fn a_failure_leaves_the_machine_as_before_the_turn() {
    let mut machine = Machine::new(parse("=5w\nr").unwrap(), vec![], false);
    assert_eq!(machine.run(10), Status::Failed(Error::InputExhausted));
    assert_eq!(machine.threads, vec![thread(5, 0, 2)]);
    assert_eq!(machine.output, "5\n");
}

#[test]
fn a_run_that_does_not_end_stops_when_the_ticks_are_used_up() {
    let (output, status) = interpret(parse("r\nw:2").unwrap(), vec![1], false, 7);
    assert_eq!(status, Status::Running);
    assert_eq!(output, "1\n1\n1\n");
}

#[test]
fn no_ticks_no_work() {
    assert_eq!(interpret(parse("w").unwrap(), vec![], false, 0), (String::new(), Status::Running));
}

#[test]
fn take_output_hands_over_and_forgets() {
    let mut machine = Machine::new(parse("=1w=2w").unwrap(), vec![], false);
    assert_eq!(machine.run(2), Status::Running);
    assert_eq!(machine.take_output(), "1\n");
    assert_eq!(machine.take_output(), "");
    assert_eq!(machine.run(10), Status::Finished);
    assert_eq!(machine.take_output(), "2\n");
}

#[test]
fn the_first_thread_starts_at_the_first_line_with_nothing() {
    let machine = Machine::new(vec![vec![Instruction::Sleep]], vec![4, 5], true);
    assert_eq!(machine.threads, vec![thread(0, 0, 0)]);
    assert!(machine.spawned.is_empty());
    assert_eq!(machine.input, vec![4, 5]);
    assert_eq!(machine.output, "");
    assert!(machine.ascii);
    assert!(!machine.is_finished());
}

#[test]
fn locate_finds_the_next_instruction() {
    let code = parse("ww\n\n#\n!\n").unwrap();
    assert_eq!(locate(&code, 0, 0), Some((0, 0)));
    assert_eq!(locate(&code, 0, 1), Some((0, 1)));
    assert_eq!(locate(&code, 0, 2), Some((3, 0)));
    assert_eq!(locate(&code, 1, 0), Some((3, 0)));
    assert_eq!(locate(&code, 2, 9), Some((3, 0)));
    assert_eq!(locate(&code, 3, 0), Some((3, 0)));
    assert_eq!(locate(&code, 3, 1), None);
    assert_eq!(locate(&code, 4, 0), None);
    assert_eq!(locate(&code, 5, 0), None);
    assert_eq!(locate(&code, usize::MAX, usize::MAX), None);
}

#[test]
fn registers_grow_without_bound() {
    // Doubles the register of a second thread a hundred and thirty times.
    let mut machine = Machine::new(vec![], vec![], false);
    machine.threads = vec![thread(1, 0, 0), thread(1, 0, 0)];
    for _ in 0..130 {
        global_add(&mut machine.threads, 0);
        global_add(&mut machine.threads, 1);
    }
    assert!(machine.threads[0].register > (BigUint::from(1u8) << 128usize));
}
