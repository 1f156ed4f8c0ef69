use col::interpreter::{Action, Interpreter, DEFAULT_GC_INTERVAL};
use col::program::{AdvancedProgramState, SimpleProgramState};
use col::semantics::{Fault, StopReason};

fn get_output_with_input(source: &str, input: &[u8]) -> String {
    let mut interpreter = Interpreter::<AdvancedProgramState>::new(source, DEFAULT_GC_INTERVAL);
    let outcome = interpreter.run(&input.to_vec(), 1_000_000);
    assert_eq!(outcome.stop, StopReason::Terminated);
    outcome.output
}

fn get_output(source: &str) -> String {
    get_output_with_input(source, &[])
}

fn get_stop(source: &str) -> StopReason {
    let mut interpreter = Interpreter::<AdvancedProgramState>::new(source, DEFAULT_GC_INTERVAL);
    interpreter.run(&Vec::new(), 1_000_000).stop
}

fn sorted_indices<P: col::program::ProgramState>(interpreter: &Interpreter<P>) -> Vec<u32> {
    let mut indices: Vec<u32> = interpreter.snapshot().iter().map(|(i, _)| *i).collect();
    indices.sort();
    indices
}

#[test]
fn test_hello_world() {
    assert_eq!(get_output("\"Hello world!\"rp@"), "Hello world!");
}

#[test]
fn test_math() {
    // misc stuff
    assert_eq!(get_output("0123456789ABCDEFr#[#]@"), "0123456789101112131415"); // literals
    assert_eq!(get_output("092++#@"), "11"); // addition
    assert_eq!(get_output("F1+F1+*#@"), "256"); // addition, multiplication
    assert_eq!(get_output("15/4#@"), "4"); // division
    assert_eq!(get_output("FF-# FE-# @"), "01"); // subtraction

    // overflow/underflow
    assert_eq!(get_output("1-#@"), "4294967295");
    assert_eq!(get_output("1-  5+#@"), "4");
}

#[test]
fn test_logic() {
    assert_eq!(get_output("55=# FA=# @"), "10"); // equality
    assert_eq!(get_output("55`# 54`# 45`# @"), "010"); // greater than
    assert_eq!(get_output("5!# 0!# FF+!# 1!# @"), "0100"); // invert
}

#[test]
fn test_io() {
    assert_eq!(get_output_with_input("__+#@", &[1, 2]), "3");
    assert_eq!(get_output_with_input("_$@", b"A"), "A");
    // exhausted input pushes zero
    assert_eq!(get_output_with_input("_#@", &[]), "0");
    assert_eq!(get_output_with_input("__#@", &[7]), "0");
}

#[test]
fn test_flow() {
    // jump to the start of column 1
    assert_eq!(get_output("1;9#@\n2#@"), "2");
    // column indices wrap around the program's columns
    assert_eq!(get_output("4;\n5#@\n6#@"), "5");
    // neighbour and current indices wrap within the ring of columns
    assert_eq!(get_output("<#>#.#@\nx\ny"), "210");
}

#[test]
fn test_stacks() {
    // move a value to column 1's stack and back
    assert_eq!(get_output("1~5^v#@\nx"), "5");
    // the value really sits on the remote stack in between
    assert_eq!(get_output("1~5^#v#@\nx"), "05");
    // swap the local and the remote stacks
    assert_eq!(get_output("1~7s#s#@\nx"), "07");
    // moving within a single stack changes nothing
    assert_eq!(get_output("0~5^#@"), "5");
    assert_eq!(get_output("0~5v##@"), "50");
    // swap top, duplicate, discard, clear
    assert_eq!(get_output("12\\##@"), "12");
    assert_eq!(get_output("3:##@"), "33");
    assert_eq!(get_output("34x#@"), "3");
    assert_eq!(get_output("34c#@"), "0");
}

#[test]
fn test_loops() {
    assert_eq!(get_output("5[:#1-]@"), "54321");
    // a loop whose condition is already zero is skipped entirely
    assert_eq!(get_output("70[#]x#@"), "7");
    // nested loops
    assert_eq!(get_output("2[:[:#1-]x1-]@"), "211");
}

#[test]
fn test_string_mode() {
    assert_eq!(get_output("\"ab\"#$@"), "98a");
    // instruction characters are pushed raw inside string mode
    assert_eq!(get_output("\"@\"#@"), "64");
}

#[test]
fn test_weird_chars() {
    assert_eq!(get_output("1 hello 2+#@"), "3");
    assert_eq!(get_output("1é2+#@"), "3");
    assert_eq!(get_output("\"é\"$@"), "é");
}

#[test]
fn literal_pushes_and_prints() {
    assert_eq!(get_output("12#3##@"), "231");
    assert_eq!(get_output("F#A#@"), "1510");
}

#[test]
fn nand_and_logic() {
    assert_eq!(get_output("FFn#@"), "4294967280");
    assert_eq!(get_output("50&# 05|# 00|# @"), "010");
}

#[test]
fn modulo_and_print_all_skip() {
    assert_eq!(get_output("F4%#@"), "3");
    // print-all leaves out values that are no character
    assert_eq!(get_output("\"ab\"01-rp@"), "ab");
}

#[test]
fn division_by_zero_faults() {
    assert_eq!(get_stop("10/#@"), StopReason::Faulted(Fault::DivisionByZero));
    assert_eq!(get_stop("10%#@"), StopReason::Faulted(Fault::DivisionByZero));
}

#[test]
fn invalid_character_faults() {
    assert_eq!(get_stop("1-$@"), StopReason::Faulted(Fault::InvalidCharacter(4294967295)));
}

#[test]
fn fault_keeps_output_so_far() {
    let mut interpreter = Interpreter::<AdvancedProgramState>::new("7#0/@", DEFAULT_GC_INTERVAL);
    let outcome = interpreter.run(&Vec::new(), 100);
    assert_eq!(outcome.output, "7");
    assert_eq!(outcome.stop, StopReason::Faulted(Fault::DivisionByZero));
}

#[test]
fn step_limit_stops_endless_programs() {
    let mut interpreter = Interpreter::<AdvancedProgramState>::new("1#", DEFAULT_GC_INTERVAL);
    let outcome = interpreter.run(&Vec::new(), 6);
    assert_eq!(outcome.stop, StopReason::StepLimit);
    assert_eq!(outcome.output, "111");
    // a line without instructions stalls but does not end the run
    let mut stalled = Interpreter::<AdvancedProgramState>::new("hello", DEFAULT_GC_INTERVAL);
    assert_eq!(stalled.run(&Vec::new(), 50).stop, StopReason::StepLimit);
}

#[test]
fn random_pushes_a_value() {
    let output = get_output("?#@");
    assert!(output.parse::<u32>().is_ok());
}

#[test]
fn steps_report_actions() {
    let mut interpreter = Interpreter::<SimpleProgramState>::new("_7#@", DEFAULT_GC_INTERVAL);
    assert!(matches!(interpreter.step(), Ok(Action::ReadByte)));
    interpreter.provide_input(Some(3));
    assert!(matches!(interpreter.step(), Ok(Action::Continue)));
    match interpreter.step() {
        Ok(Action::Print(text)) => assert_eq!(text, "7"),
        _ => panic!("expected output"),
    }
    assert!(matches!(interpreter.step(), Ok(Action::Halt)));
    let snapshot = interpreter.snapshot();
    assert_eq!(snapshot, vec![(0, vec![3])]);
}

#[test]
fn step_with_uses_given_value() {
    let mut interpreter = Interpreter::<AdvancedProgramState>::new("?#@", DEFAULT_GC_INTERVAL);
    assert!(matches!(interpreter.step_with(42), Ok(Action::Continue)));
    match interpreter.step_with(0) {
        Ok(Action::Print(text)) => assert_eq!(text, "42"),
        _ => panic!("expected output"),
    }
}

#[test]
fn garbage_collection_removes_unused_extended_stack() {
    // three program-defined columns; column 8 is addressed, then left
    let program = "8~0~@\nx\ny";
    let mut interpreter = Interpreter::<AdvancedProgramState>::new(program, 4);
    interpreter.step_with(0).unwrap();
    interpreter.step_with(0).unwrap();
    assert_eq!(sorted_indices(&interpreter), vec![0, 1, 2, 8]);
    interpreter.step_with(0).unwrap();
    interpreter.step_with(0).unwrap();
    // the fourth step reached the interval: column 8 is gone, column 2 stays
    assert_eq!(sorted_indices(&interpreter), vec![0, 1, 2]);

    let mut simple = Interpreter::<SimpleProgramState>::new(program, 4);
    for _ in 0..4 {
        simple.step_with(0).unwrap();
    }
    assert_eq!(sorted_indices(&simple), vec![0, 1, 2]);
}

#[test]
fn garbage_collection_keeps_remote_and_filled_stacks() {
    // column 9 stays the remote stack; column 8 keeps a value
    let program = "8~5^9~@\n";
    let mut interpreter = Interpreter::<AdvancedProgramState>::new(program, 1);
    let outcome = interpreter.run(&Vec::new(), 100);
    assert_eq!(outcome.stop, StopReason::Terminated);
    assert_eq!(sorted_indices(&interpreter), vec![0, 8, 9]);
}

#[test]
fn step_callback_sees_every_step() {
    let seen = std::cell::RefCell::new(Vec::new());
    let outcome = {
        let callback = |stacks: &Vec<(u32, Vec<u32>)>| seen.borrow_mut().push(stacks.clone());
        let mut observed = Interpreter::<AdvancedProgramState>::new("12@", DEFAULT_GC_INTERVAL).with_step_callback(callback);
        observed.run(&Vec::new(), 100)
    };
    assert_eq!(outcome.stop, StopReason::Terminated);
    assert_eq!(
        seen.into_inner(),
        vec![vec![(0, vec![1])], vec![(0, vec![1, 2])], vec![(0, vec![1, 2])]]
    );
}

#[test]
fn empty_program_stalls() {
    let mut interpreter = Interpreter::<AdvancedProgramState>::new("", DEFAULT_GC_INTERVAL);
    let outcome = interpreter.run(&vec![1, 2], 10);
    assert_eq!(outcome.stop, StopReason::StepLimit);
    assert_eq!(outcome.output, "");
    interpreter.provide_input(Some(1));
    assert!(interpreter.snapshot().is_empty());
}

#[test]
fn zero_gc_interval_collects_every_step() {
    let mut interpreter = Interpreter::<AdvancedProgramState>::new("9~0~@", 0);
    interpreter.step_with(0).unwrap();
    interpreter.step_with(0).unwrap();
    // the remote stack survives while selected
    assert_eq!(sorted_indices(&interpreter), vec![0, 9]);
    interpreter.step_with(0).unwrap();
    interpreter.step_with(0).unwrap();
    assert_eq!(sorted_indices(&interpreter), vec![0]);
}
