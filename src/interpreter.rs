//! The execution engine: the fetch, decode and dispatch loop over a program's
//! columns.

use vstd::prelude::*;
use crate::layout::{lines_of, split_lines, lemma_lines_at_most_chars};
use crate::parser::{Instruction, decode};
use crate::program::{ProgramState, is_snapshot};
use crate::semantics::{
    Event, Fault, Machine, StopReason, acts_on_local, advance, after_output, backward_target,
    columns, current_line, execute, fault_of, forward_target, initial, is_scalar, local_event,
    local_result, local_stack, machine_inv, match_backward, match_forward, next_instruction,
    receive, run_steps, scan, step, tick, with_local, lemma_execute_keeps_invariant,
    lemma_replace_keeps_invariant, lemma_scan_finds_instruction, lemma_tick_keeps_invariant,
    lemma_with_local_keeps_invariant,
};
use crate::stack::{VecStack, top, popped};
use crate::text::{decimal_chars, printable_chars, push_char, char_from_u32};

verus! {

/// The garbage-collection interval that `Interpreter::new` is usually given.
pub const DEFAULT_GC_INTERVAL: u32 = 8192;

/// What a step asks of the world around the engine.
pub enum Action {
    /// Nothing: go on.
    Continue,
    /// Write this text to the output.
    Print(String),
    /// Read one byte of input and hand it over with `provide_input` before the next step.
    ReadByte,
    /// The program has terminated.
    Halt,
}

impl View for Action {
    type V = Event;

    open spec fn view(&self) -> Event {
        match self {
            Action::Continue => Event::Continue,
            Action::Print(s) => Event::Output(s@),
            Action::ReadByte => Event::ReadByte,
            Action::Halt => Event::Halt,
        }
    }
}

/// Everything a run wrote, and why it stopped.
pub struct RunOutcome {
    pub output: String,
    pub stop: StopReason,
}

/// An engine with a callback that sees every stack after each step.
pub struct Observed<P: ProgramState, F: Fn(&Vec<(u32, Vec<u32>)>)> {
    pub interpreter: Interpreter<P>,
    pub callback: F,
}

impl<P: ProgramState, F: Fn(&Vec<(u32, Vec<u32>)>)> Observed<P, F> {
    /// Runs the engine as `Interpreter::run` does, calling the callback after each step.
    pub fn run(&mut self, input: &Vec<u8>, max_steps: u64) -> (r: RunOutcome)
        requires
            old(self).interpreter.wf(),
            forall|stacks: &Vec<(u32, Vec<u32>)>| old(self).callback.requires((stacks,)),
        ensures
            final(self).interpreter.wf(),
            exists|draws: Seq<u32>| run_steps(old(self).interpreter@, input@, max_steps as nat, draws)
                == (final(self).interpreter@, r.output@, r.stop),
    {
        self.interpreter.run_observed(input, max_steps, &self.callback)
    }
}

/// The event or fault that a step's result stands for.
pub open spec fn outcome(r: Result<Action, Fault>) -> Result<Event, Fault> {
    match r {
        Ok(a) => Ok(a@),
        Err(f) => Err(f),
    }
}

/// `chars` as a string.
fn string_of(chars: &Vec<char>) -> (r: String)
    ensures
        r@ == chars@,
{
    let mut r = String::new();
    let mut i: usize = 0;
    while i < chars.len()
        invariant
            i <= chars.len(),
            r@ == chars@.subrange(0, i as int),
        decreases chars.len() - i,
    {
        push_char(&mut r, chars[i]);
        i = i + 1;
        assert(r@ =~= chars@.subrange(0, i as int));
    }
    assert(chars@.subrange(0, chars.len() as int) =~= chars@);
    r
}

/// Runs an instruction that acts on the local stack `s` alone, in column `local` of `n`.
fn apply_local(s: &mut VecStack, instr: Instruction, local: u32, n: u32, rnd: u32) -> (e: Action)
    requires
        acts_on_local(instr),
        local < n,
        (instr == Instruction::Divide || instr == Instruction::Modulo) ==> top(old(s)@) != 0,
        instr == Instruction::PrintChar ==> is_scalar(top(old(s)@)),
    ensures
        final(s)@ == local_result(instr, old(s)@, local, n as int, rnd),
        e@ == local_event(instr, old(s)@),
{
    match instr {
        Instruction::PushLeftIndex => {
            s.push(((local as u64 + n as u64 - 1) % n as u64) as u32);
            Action::Continue
        },
        Instruction::PushRightIndex => {
            s.push(((local as u64 + 1) % n as u64) as u32);
            Action::Continue
        },
        Instruction::PushCurrentIndex => {
            s.push(local);
            Action::Continue
        },
        Instruction::SwapTop => {
            let (a, b) = s.pop2();
            s.push(a);
            s.push(b);
            Action::Continue
        },
        Instruction::DuplicateTop => {
            let a = s.peek();
            s.push(a);
            Action::Continue
        },
        Instruction::Discard => {
            s.pop();
            Action::Continue
        },
        Instruction::Clear => {
            s.clear();
            Action::Continue
        },
        Instruction::Reverse => {
            s.reverse();
            Action::Continue
        },
        Instruction::Value(v) => {
            s.push(v);
            Action::Continue
        },
        Instruction::Invert => {
            let a = s.pop();
            s.push(if a == 0 { 1 } else { 0 });
            Action::Continue
        },
        Instruction::Random => {
            s.push(rnd);
            Action::Continue
        },
        Instruction::PrintChar => {
            let a = s.pop();
            let mut out = String::new();
            match char_from_u32(a) {
                Some(c) => push_char(&mut out, c),
                None => {},
            }
            assert(out@ =~= seq![a as char]);
            Action::Print(out)
        },
        Instruction::PrintNumber => {
            let a = s.pop();
            Action::Print(string_of(&decimal_chars(a)))
        },
        Instruction::PrintAll => {
            let text = printable_chars(s.values());
            s.clear();
            Action::Print(string_of(&text))
        },
        _ => {
            let (a, b) = s.pop2();
            let r: u32 = match instr {
                Instruction::Add => b.wrapping_add(a),
                Instruction::Subtract => b.wrapping_sub(a),
                Instruction::Multiply => b.wrapping_mul(a),
                Instruction::Divide => b / a,
                Instruction::Modulo => b % a,
                Instruction::Equals => if b == a { 1 } else { 0 },
                Instruction::GreaterThan => if b > a { 1 } else { 0 },
                Instruction::And => if a != 0 && b != 0 { 1 } else { 0 },
                Instruction::Or => if a != 0 || b != 0 { 1 } else { 0 },
                _ => !(a & b),
            };
            s.push(r);
            Action::Continue
        },
    }
}

/// An engine running one col program over the stacks of `P`.
pub struct Interpreter<P: ProgramState> {
    /// The program's lines, one per column.
    source: Vec<Vec<char>>,
    /// The stacks.
    state: P,
    /// The index of the executing column.
    local_column: u32,
    /// The index of the column whose stack is the remote stack.
    remote_column: u32,
    /// Whether characters are pushed as raw code points.
    is_string_mode: bool,
    /// Offset of the next character to read in the current line.
    ip: usize,
    /// Steps between two garbage collections.
    gc_interval: u32,
    /// Steps since the last garbage collection.
    gc_count: u32,
}

impl<P: ProgramState> View for Interpreter<P> {
    type V = Machine;

    closed spec fn view(&self) -> Machine {
        Machine {
            lines: self.source@.map_values(|l: Vec<char>| l@),
            memory: self.state.memory(),
            local: self.local_column,
            remote: self.remote_column,
            ip: self.ip as int,
            string_mode: self.is_string_mode,
            gc_interval: self.gc_interval,
            gc_count: self.gc_count,
        }
    }
}

impl<P: ProgramState> Interpreter<P> {
    /// The engine's own invariant; it implies `machine_inv(self@)`.
    pub closed spec fn wf(&self) -> bool {
        &&& machine_inv(self@)
        &&& self.state.wf()
        &&& self.state.defined() == self.source.len()
    }

    /// Loads `program`, one column per line, with empty stacks, ready to run
    /// from the start of the first line. A garbage collection runs once every
    /// `gc_interval` steps.
    pub fn new(program: &str, gc_interval: u32) -> (r: Self)
        requires
            program@.len() <= u32::MAX,
        ensures
            r.wf(),
            r@ == initial(lines_of(program@), gc_interval),
    {
        let source = split_lines(program);
        proof {
            lemma_lines_at_most_chars(program@);
        }
        let n = source.len() as u32;
        let state = P::new(n);
        let r = Interpreter {
            source,
            state,
            local_column: 0,
            remote_column: 0,
            is_string_mode: false,
            ip: 0,
            gc_interval,
            gc_count: 0,
        };
        assert(r@.lines =~= lines_of(program@));
        assert(r@.memory =~= initial(lines_of(program@), gc_interval).memory);
        r
    }

    /// The length of the executing column's line.
    fn line_len(&self) -> (r: usize)
        requires
            self.wf(),
        ensures
            r == current_line(self@).len(),
    {
        if (self.local_column as usize) < self.source.len() {
            self.source[self.local_column as usize].len()
        } else {
            0
        }
    }

    /// The character at offset `i` of the executing column's line.
    fn char_at(&self, i: usize) -> (c: char)
        requires
            self.wf(),
            i < current_line(self@).len(),
        ensures
            c == current_line(self@)[i as int],
    {
        self.source[self.local_column as usize][i]
    }

    /// The offset of the next instruction to run, if the current line has any.
    fn find_instruction(&self) -> (r: Option<usize>)
        requires
            self.wf(),
        ensures
            match r {
                Some(p) => next_instruction(self@) == Some(p as int),
                None => next_instruction(self@) is None,
            },
    {
        let len = self.line_len();
        let ghost line = current_line(self@);
        let mut pos = self.ip;
        let mut fuel = len;
        while fuel > 0
            invariant
                self.wf(),
                len == line.len(),
                line == current_line(self@),
                fuel <= len,
                len > 0 ==> pos < len,
                scan(line, pos as int, fuel as nat) == next_instruction(self@),
            decreases fuel,
        {
            let c = self.char_at(pos);
            match Instruction::from_char(&c) {
                Some(_) => {
                    return Some(pos);
                },
                None => {},
            }
            pos = next_offset(pos, len);
            fuel = fuel - 1;
        }
        None
    }

    /// The offset just past the `]` that matches a `[` at `pos`, or `0`.
    fn jump_forward(&self, pos: usize) -> (r: usize)
        requires
            self.wf(),
            pos < current_line(self@).len(),
        ensures
            r == forward_target(current_line(self@), pos as int),
    {
        let len = self.line_len();
        let ghost line = current_line(self@);
        let mut i = pos + 1;
        let mut depth: usize = 0;
        while i < len
            invariant
                self.wf(),
                len == line.len(),
                line == current_line(self@),
                pos + 1 <= i <= len,
                depth <= i,
                match_forward(line, i as int, depth as nat) == match_forward(line, pos + 1, 0),
            decreases len - i,
        {
            let c = self.char_at(i);
            if c == '[' {
                depth = depth + 1;
            } else if c == ']' {
                if depth == 0 {
                    return next_offset(i, len);
                }
                depth = depth - 1;
            }
            i = i + 1;
        }
        0
    }

    /// The offset of the `[` that matches a `]` at `pos`, or `0`.
    fn jump_backward(&self, pos: usize) -> (r: usize)
        requires
            self.wf(),
            pos < current_line(self@).len(),
        ensures
            r == backward_target(current_line(self@), pos as int),
    {
        let ghost line = current_line(self@);
        let mut j = pos;
        let mut depth: usize = 0;
        while j > 0
            invariant
                self.wf(),
                line == current_line(self@),
                j <= pos,
                pos < line.len(),
                depth <= pos - j,
                match_backward(line, j - 1, depth as nat) == match_backward(line, pos - 1, 0),
            decreases j,
        {
            let c = self.char_at(j - 1);
            if c == ']' {
                depth = depth + 1;
            } else if c == '[' {
                if depth == 0 {
                    return j - 1;
                }
                depth = depth - 1;
            }
            j = j - 1;
        }
        0
    }

    /// Puts `s` in place of the local stack and hands back the stack it replaced.
    fn replace_local(&mut self, s: VecStack) -> (r: VecStack)
        requires
            old(self).wf(),
            columns(old(self)@) > 0,
        ensures
            final(self).wf(),
            final(self)@ == with_local(old(self)@, s@),
            r@ == local_stack(old(self)@),
    {
        proof {
            lemma_with_local_keeps_invariant(self@, s@);
        }
        self.state.replace_stack(self.local_column, s)
    }

    /// Puts `s` in place of the remote stack and hands back the stack it replaced.
    fn replace_remote(&mut self, s: VecStack) -> (r: VecStack)
        requires
            old(self).wf(),
            columns(old(self)@) > 0,
        ensures
            final(self).wf(),
            final(self)@ == (Machine { memory: old(self)@.memory.insert(old(self)@.remote, s@), ..old(self)@ }),
            r@ == old(self)@.memory[old(self)@.remote],
    {
        proof {
            lemma_replace_keeps_invariant(self@, self.remote_column, s@);
        }
        self.state.replace_stack(self.remote_column, s)
    }

    /// The value on top of the local stack, or `0`.
    fn local_top(&self) -> (r: u32)
        requires
            self.wf(),
            columns(self@) > 0,
        ensures
            r == top(local_stack(self@)),
    {
        match self.state.nth(self.local_column) {
            Some(s) => s.peek(),
            None => 0,
        }
    }

    /// The fault that running `instr` now would raise, if any.
    fn fault_for(&self, instr: Instruction) -> (r: Option<Fault>)
        requires
            self.wf(),
            columns(self@) > 0,
        ensures
            r == fault_of(self@, instr),
    {
        match instr {
            Instruction::Divide | Instruction::Modulo => {
                if self.local_top() == 0 {
                    Some(Fault::DivisionByZero)
                } else {
                    None
                }
            },
            Instruction::PrintChar => {
                let a = self.local_top();
                match char_from_u32(a) {
                    Some(_) => None,
                    None => Some(Fault::InvalidCharacter(a)),
                }
            },
            _ => None,
        }
    }

    /// Counts a step, and collects garbage once every `gc_interval` steps.
    fn tick(&mut self)
        requires
            old(self).wf(),
        ensures
            final(self).wf(),
            final(self)@ == tick(old(self)@),
    {
        proof {
            lemma_tick_keeps_invariant(self@);
        }
        if self.gc_count as u64 + 1 >= self.gc_interval as u64 {
            self.state.collect_garbage(self.source.len() as u32, self.remote_column);
            self.gc_count = 0;
        } else {
            self.gc_count = self.gc_count + 1;
        }
    }

    /// Runs `instr`, found at offset `pos` of the current line, after `ip` has
    /// moved past it; `rnd` is the value that `Random` pushes.
    fn execute(&mut self, pos: usize, instr: Instruction, rnd: u32) -> (e: Action)
        requires
            old(self).wf(),
            pos < current_line(old(self)@).len(),
            fault_of(old(self)@, instr) is None,
        ensures
            final(self).wf(),
            (final(self)@, e@) == execute(old(self)@, pos as int, instr, rnd),
    {
        let ghost m = self@;
        let n = self.source.len() as u32;
        proof {
            lemma_execute_keeps_invariant(m, pos as int, instr, rnd);
        }
        match instr {
            Instruction::SetLocalColumn => {
                let mut s = self.replace_local(VecStack::default());
                let a = s.pop();
                self.replace_local(s);
                assert(self@.memory =~= with_local(m, popped(local_stack(m))).memory);
                self.local_column = a % n;
                self.ip = 0;
                Action::Continue
            },
            Instruction::SetRemoteStack => {
                let mut s = self.replace_local(VecStack::default());
                let a = s.pop();
                self.replace_local(s);
                assert(self@.memory =~= with_local(m, popped(local_stack(m))).memory);
                let ghost popped_memory = self@.memory;
                self.remote_column = a;
                if a >= n {
                    self.state.insert_stack(a);
                } else {
                    assert(popped_memory.contains_key(a));
                }
                Action::Continue
            },
            Instruction::MoveToRemote => {
                if self.local_column != self.remote_column {
                    let mut s = self.replace_local(VecStack::default());
                    let a = s.pop();
                    self.replace_local(s);
                    let mut t = self.replace_remote(VecStack::default());
                    t.push(a);
                    self.replace_remote(t);
                    assert(self@.memory =~= execute(m, pos as int, instr, rnd).0.memory);
                }
                Action::Continue
            },
            Instruction::MoveToLocal => {
                if self.local_column != self.remote_column {
                    let mut t = self.replace_remote(VecStack::default());
                    let a = t.pop();
                    self.replace_remote(t);
                    let mut s = self.replace_local(VecStack::default());
                    s.push(a);
                    self.replace_local(s);
                    assert(self@.memory =~= execute(m, pos as int, instr, rnd).0.memory);
                }
                Action::Continue
            },
            Instruction::SwapStacks => {
                if self.local_column != self.remote_column {
                    let s = self.replace_local(VecStack::default());
                    let t = self.replace_remote(s);
                    self.replace_local(t);
                    assert(self@.memory =~= execute(m, pos as int, instr, rnd).0.memory);
                }
                Action::Continue
            },
            Instruction::LeftBracket => {
                if self.local_top() == 0 {
                    self.ip = self.jump_forward(pos);
                }
                Action::Continue
            },
            Instruction::RightBracket => {
                if self.local_top() != 0 {
                    self.ip = self.jump_backward(pos);
                }
                Action::Continue
            },
            Instruction::StringMode => {
                self.is_string_mode = !self.is_string_mode;
                Action::Continue
            },
            Instruction::Input => Action::ReadByte,
            Instruction::Terminate => Action::Halt,
            _ => {
                let mut s = self.replace_local(VecStack::default());
                let e = apply_local(&mut s, instr, self.local_column, n, rnd);
                self.replace_local(s);
                assert(self@.memory =~= execute(m, pos as int, instr, rnd).0.memory);
                e
            },
        }
    }

    /// Performs one step with `rnd` as the value that a `Random` instruction
    /// pushes. A fault leaves the engine as it was.
    pub fn step_with(&mut self, rnd: u32) -> (r: Result<Action, Fault>)
        requires
            old(self).wf(),
        ensures
            final(self).wf(),
            (final(self)@, outcome(r)) == step(old(self)@, rnd),
    {
        let ghost m = self@;
        let len = self.line_len();
        if self.is_string_mode {
            if len == 0 {
                self.tick();
                return Ok(Action::Continue);
            }
            let c = self.char_at(self.ip);
            self.ip = next_offset(self.ip, len);
            if c == '"' {
                self.is_string_mode = false;
            } else {
                let mut s = self.replace_local(VecStack::default());
                s.push(c as u32);
                self.replace_local(s);
                assert(self@.memory =~= with_local(Machine { ip: advance(m.ip, len as int), ..m }, local_stack(m).push(c as u32)).memory);
            }
            self.tick();
            Ok(Action::Continue)
        } else {
            match self.find_instruction() {
                None => {
                    self.tick();
                    Ok(Action::Continue)
                },
                Some(pos) => {
                    proof {
                        lemma_scan_finds_instruction(current_line(m), m.ip, current_line(m).len());
                    }
                    let c = self.char_at(pos);
                    let instr = match Instruction::from_char(&c) {
                        Some(i) => i,
                        None => Instruction::Terminate,
                    };
                    match self.fault_for(instr) {
                        Some(f) => {
                            return Err(f);
                        },
                        None => {},
                    }
                    self.ip = next_offset(pos, len);
                    let e = self.execute(pos, instr, rnd);
                    self.tick();
                    Ok(e)
                },
            }
        }
    }

    /// Performs one step. A fault leaves the engine as it was.
    pub fn step(&mut self) -> (r: Result<Action, Fault>)
        requires
            old(self).wf(),
        ensures
            final(self).wf(),
            exists|rnd: u32| (final(self)@, outcome(r)) == step(old(self)@, rnd),
    {
        let rnd = match self.find_instruction() {
            Some(pos) => {
                proof {
                    lemma_scan_finds_instruction(current_line(self@), self@.ip, current_line(self@).len());
                }
                if !self.is_string_mode && matches!(Instruction::from_char(&self.char_at(pos)), Some(Instruction::Random)) {
                    random_value()
                } else {
                    0
                }
            },
            None => 0,
        };
        self.step_with(rnd)
    }

    /// Hands over the byte that a `ReadByte` action asked for: it is pushed onto
    /// the local stack, or `0` when the input is absent or exhausted.
    pub fn provide_input(&mut self, byte: Option<u8>)
        requires
            old(self).wf(),
        ensures
            final(self).wf(),
            final(self)@ == receive(old(self)@, byte),
    {
        if self.source.len() > 0 {
            let v: u32 = match byte {
                Some(b) => b as u32,
                None => 0,
            };
            let mut s = self.replace_local(VecStack::default());
            s.push(v);
            self.replace_local(s);
            assert(self@.memory =~= receive(old(self)@, byte).memory);
        }
    }

    /// A copy of every stack with its column index, in no particular order.
    pub fn snapshot(&self) -> (r: Vec<(u32, Vec<u32>)>)
        requires
            self.wf(),
        ensures
            is_snapshot(r@, self@.memory),
    {
        self.state.stacks()
    }

    /// Runs the program for at most `max_steps` steps, or until it terminates
    /// or faults, reading its input from `input` and collecting what it writes.
    pub fn run(&mut self, input: &Vec<u8>, max_steps: u64) -> (r: RunOutcome)
        requires
            old(self).wf(),
        ensures
            final(self).wf(),
            exists|draws: Seq<u32>| run_steps(old(self)@, input@, max_steps as nat, draws) == (final(self)@, r.output@, r.stop),
    {
        let ignore = |stacks: &Vec<(u32, Vec<u32>)>| {};
        self.run_observed(input, max_steps, &ignore)
    }

    /// Attaches `callback`, which sees a copy of every stack after each step of a run.
    pub fn with_step_callback<F: Fn(&Vec<(u32, Vec<u32>)>)>(self, callback: F) -> (r: Observed<P, F>)
        ensures
            r.interpreter == self,
            r.callback == callback,
    {
        Observed { interpreter: self, callback }
    }

    /// `run`, calling `callback` with a copy of every stack, with its column
    /// index, after each step. The callback only ever sees copies: it cannot
    /// change the engine.
    pub fn run_observed<F: Fn(&Vec<(u32, Vec<u32>)>)>(&mut self, input: &Vec<u8>, max_steps: u64, callback: &F) -> (r: RunOutcome)
        requires
            old(self).wf(),
            forall|stacks: &Vec<(u32, Vec<u32>)>| callback.requires((stacks,)),
        ensures
            final(self).wf(),
            exists|draws: Seq<u32>| run_steps(old(self)@, input@, max_steps as nat, draws) == (final(self)@, r.output@, r.stop),
    {
        let ghost start = self@;
        let ghost mut draws: Seq<u32> = Seq::empty();
        let mut output = String::new();
        let mut fuel = max_steps;
        let mut next_byte: usize = 0;
        proof {
            assert(input@.subrange(0, input.len() as int) =~= input@);
            assert forall|rest: Seq<u32>| #[trigger] run_steps(start, input@, max_steps as nat, draws + rest)
                == after_output(output@, run_steps(self@, input@.subrange(0, input.len() as int), fuel as nat, rest)) by {
                assert(draws + rest =~= rest);
                let x = run_steps(self@, input@, max_steps as nat, rest);
                assert(output@ + x.1 =~= x.1);
            }
        }
        while fuel > 0
            invariant
                self.wf(),
                start == old(self)@,
                forall|stacks: &Vec<(u32, Vec<u32>)>| callback.requires((stacks,)),
                next_byte <= input.len(),
                forall|rest: Seq<u32>| #[trigger] run_steps(start, input@, max_steps as nat, draws + rest)
                    == after_output(output@, run_steps(self@, input@.subrange(next_byte as int, input.len() as int), fuel as nat, rest)),
            decreases fuel,
        {
            let ghost before = self@;
            let ghost pending = input@.subrange(next_byte as int, input.len() as int);
            let ghost written = output@;
            let result = self.step();
            let ghost rnd = choose|rnd: u32| (self@, outcome(result)) == step(before, rnd);
            let ghost ev = outcome(result);
            let ghost mid = self@;
            let stacks = self.snapshot();
            callback(&stacks);
            proof {
                assert forall|rest: Seq<u32>| (#[trigger] seq![rnd].add(rest)).drop_first() == rest by {
                    assert(seq![rnd].add(rest).drop_first() =~= rest);
                }
                assert forall|rest: Seq<u32>| draws.add(seq![rnd]).add(rest) == #[trigger] draws.add(seq![rnd].add(rest)) by {
                    assert(draws.add(seq![rnd]).add(rest) =~= draws.add(seq![rnd].add(rest)));
                }
            }
            match result {
                Err(f) => {
                    proof {
                        assert(output@ + Seq::<char>::empty() =~= output@);
                        assert(seq![rnd].drop_first() =~= Seq::<u32>::empty());
                        assert(run_steps(before, pending, fuel as nat, seq![rnd]) == (before, Seq::<char>::empty(), StopReason::Faulted(f)));
                        assert(run_steps(start, input@, max_steps as nat, draws + seq![rnd]) == (self@, output@, StopReason::Faulted(f)));
                        assert(run_steps(old(self)@, input@, max_steps as nat, draws + seq![rnd]) == (self@, output@, StopReason::Faulted(f)));
                    }
                    return RunOutcome { output, stop: StopReason::Faulted(f) };
                },
                Ok(Action::Halt) => {
                    proof {
                        assert(output@ + Seq::<char>::empty() =~= output@);
                        assert(seq![rnd].drop_first() =~= Seq::<u32>::empty());
                        assert(run_steps(before, pending, fuel as nat, seq![rnd]) == (self@, Seq::<char>::empty(), StopReason::Terminated));
                        assert(run_steps(start, input@, max_steps as nat, draws + seq![rnd]) == (self@, output@, StopReason::Terminated));
                        assert(run_steps(old(self)@, input@, max_steps as nat, draws + seq![rnd]) == (self@, output@, StopReason::Terminated));
                    }
                    return RunOutcome { output, stop: StopReason::Terminated };
                },
                Ok(Action::ReadByte) => {
                    let byte = if next_byte < input.len() {
                        Some(input[next_byte])
                    } else {
                        None
                    };
                    self.provide_input(byte);
                    if next_byte < input.len() {
                        assert(input@.subrange(next_byte + 1, input.len() as int) =~= pending.drop_first());
                        next_byte = next_byte + 1;
                    }
                },
                Ok(Action::Print(text)) => {
                    output.append(text.as_str());
                    proof {
                        assert forall|t: Seq<char>| written + text@ + t == #[trigger] written.add(text@.add(t)) by {
                            assert(written + text@ + t =~= written.add(text@.add(t)));
                        }
                    }
                },
                Ok(Action::Continue) => {},
            }
            proof {
                let new_draws = draws + seq![rnd];
                let now_pending = input@.subrange(next_byte as int, input.len() as int);
                assert forall|rest: Seq<u32>| #[trigger] run_steps(start, input@, max_steps as nat, new_draws + rest)
                    == after_output(output@, run_steps(self@, now_pending, (fuel - 1) as nat, rest)) by {
                    let full = seq![rnd] + rest;
                    assert(new_draws + rest =~= draws + full);
                    assert(full.drop_first() =~= rest);
                    assert(full[0] == rnd);
                    let tail = run_steps(self@, now_pending, (fuel - 1) as nat, rest);
                    match ev {
                        Ok(Event::Output(o)) => {
                            assert(written + (o + tail.1) =~= output@ + tail.1);
                        },
                        Ok(Event::ReadByte) => {
                            if pending.len() > 0 {
                                assert(pending[0] == input@[next_byte - 1]);
                            } else {
                                assert(now_pending =~= pending);
                            }
                        },
                        _ => {},
                    }
                }
                draws = new_draws;
            }
            fuel = fuel - 1;
        }
        proof {
            assert(draws + Seq::<u32>::empty() =~= draws);
            assert(output@ + Seq::<char>::empty() =~= output@);
            assert(run_steps(start, input@, max_steps as nat, draws + Seq::<u32>::empty()) == (self@, output@, StopReason::StepLimit));
        }
        RunOutcome { output, stop: StopReason::StepLimit }
    }
}

/// Relies on `rand::random`: a uniformly random `u32`; nothing is promised of it.
#[verifier::external_body]
fn random_value() -> u32 {
    rand::random::<u32>()
}

/// The offset after `pos` in a line of length `len`, wrapping to the start.
fn next_offset(pos: usize, len: usize) -> (r: usize)
    requires
        pos < len,
    ensures
        r == advance(pos as int, len as int),
        r < len,
{
    if pos + 1 == len {
        proof {
            vstd::arithmetic::div_mod::lemma_mod_self_0(len as int);
        }
        0
    } else {
        proof {
            vstd::arithmetic::div_mod::lemma_small_mod((pos + 1) as nat, len as nat);
        }
        pos + 1
    }
}

} // verus!
