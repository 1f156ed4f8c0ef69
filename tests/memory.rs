use col::layout::split_lines;
use col::parser::Instruction;
use col::program::{AdvancedProgramState, ProgramState, SimpleProgramState};
use col::stack::{Stack, VecStack};

fn exercise<P: ProgramState>() {
    let mut state = P::new(3);
    assert!(state.nth(2).unwrap().is_empty());
    assert!(state.nth(3).is_none());
    state.insert_stack(7);
    assert!(state.nth(7).is_some());
    let mut filled = VecStack::default();
    filled.push(4);
    let previous = state.replace_stack(7, filled);
    assert!(previous.is_empty());
    state.insert_stack(9);
    state.insert_stack(12);
    state.collect_garbage(3, 9);
    // 7 holds a value, 9 is the remote stack, 12 is empty and unused
    let mut indices: Vec<u32> = state.stacks().iter().map(|(i, _)| *i).collect();
    indices.sort();
    assert_eq!(indices, vec![0, 1, 2, 7, 9]);
    assert_eq!(state.nth(7).unwrap().values(), &vec![4]);
    // inserting where a stack exists keeps it
    state.insert_stack(7);
    assert_eq!(state.nth(7).unwrap().peek(), 4);
    // collecting twice changes nothing more
    state.collect_garbage(3, 9);
    assert_eq!(state.stacks().len(), 5);
}

#[test]
fn advanced_program_state() {
    exercise::<AdvancedProgramState>();
}

#[test]
fn simple_program_state() {
    exercise::<SimpleProgramState>();
}

#[test]
fn vec_stack_operations() {
    let mut s = VecStack::default();
    assert_eq!(s.pop(), 0);
    assert_eq!(s.peek(), 0);
    assert_eq!(s.pop2(), (0, 0));
    s.push(1);
    s.push(2);
    s.push(3);
    assert_eq!(s.peek(), 3);
    assert_eq!(s.pop2(), (3, 2));
    assert_eq!(s.values(), &vec![1]);
    s.set_all(vec![5, 6, 7]);
    s.reverse();
    assert_eq!(s.values(), &vec![7, 6, 5]);
    assert_eq!(s.snapshot(), vec![7, 6, 5]);
    s.clear();
    assert!(s.is_empty());
}

#[test]
fn stack_trait_operations() {
    fn fill<S: Stack>(s: &mut S) -> u32 {
        s.push(9);
        s.push(8);
        let (a, b) = s.pop2();
        a * 10 + b
    }
    let mut s = VecStack::default();
    assert_eq!(fill(&mut s), 89);
    assert!(Stack::is_empty(&s));
}

#[test]
fn instruction_table() {
    assert_eq!(Instruction::from_char(&'7'), Some(Instruction::Value(7)));
    assert_eq!(Instruction::from_char(&'C'), Some(Instruction::Value(12)));
    assert_eq!(Instruction::from_char(&'@'), Some(Instruction::Terminate));
    assert_eq!(Instruction::from_char(&'`'), Some(Instruction::GreaterThan));
    assert_eq!(Instruction::from_char(&'?'), Some(Instruction::Random));
    assert_eq!(Instruction::from_char(&'G'), None);
    assert_eq!(Instruction::from_char(&' '), None);
}

#[test]
fn source_lines() {
    let lines = split_lines("ab\r\ncd\n\nx");
    assert_eq!(lines, vec![vec!['a', 'b'], vec!['c', 'd'], vec![], vec!['x']]);
    assert_eq!(split_lines("a\n"), vec![vec!['a']]);
    assert!(split_lines("").is_empty());
}
