//! The meaning of a col program, one step at a time, as spec functions over an
//! abstract machine. The executable engine is proved to follow them.

use vstd::prelude::*;
use crate::parser::{Instruction, decode};
use crate::stack::{top, popped};
use crate::program::{collected, ensured};

verus! {

/// A run-time fault; each one ends the run.
#[derive(Copy, Clone, Debug, PartialEq, Eq, Structural)]
pub enum Fault {
    /// `Divide` or `Modulo` with `0` on top of the stack.
    DivisionByZero,
    /// `PrintChar` on a value that is no Unicode scalar value.
    InvalidCharacter(u32),
}

/// What a step asks of the world around the engine.
pub enum Event {
    /// Nothing: go on.
    Continue,
    /// Write these characters to the output.
    Output(Seq<char>),
    /// Read one byte of input and hand it to the engine before the next step.
    ReadByte,
    /// The program has terminated.
    Halt,
}

/// The engine's whole state, as mathematical values.
pub struct Machine {
    /// The program's lines; one column each.
    pub lines: Seq<Seq<char>>,
    /// The stacks, by column index.
    pub memory: Map<u32, Seq<u32>>,
    /// The executing column.
    pub local: u32,
    /// The column whose stack is the remote stack.
    pub remote: u32,
    /// Offset of the next character to read in the current line.
    pub ip: int,
    pub string_mode: bool,
    /// Steps between two garbage collections.
    pub gc_interval: u32,
    /// Steps since the last garbage collection.
    pub gc_count: u32,
}

/// The number of program-defined columns.
pub open spec fn columns(m: Machine) -> int {
    m.lines.len() as int
}

/// The line of the executing column.
pub open spec fn current_line(m: Machine) -> Seq<char> {
    if m.local < m.lines.len() {
        m.lines[m.local as int]
    } else {
        Seq::<char>::empty()
    }
}

/// The offset after `ip` in a line of length `len`, wrapping to the start.
pub open spec fn advance(ip: int, len: int) -> int {
    if len > 0 {
        (ip + 1) % len
    } else {
        0
    }
}

/// The state that every reachable machine is in.
pub open spec fn machine_inv(m: Machine) -> bool {
    let n = columns(m);
    &&& n <= u32::MAX
    &&& forall|i: u32| i < n ==> #[trigger] m.memory.contains_key(i)
    &&& n > 0 ==> m.local < n && m.memory.contains_key(m.remote)
    &&& n == 0 ==> m.local == 0
    &&& if current_line(m).len() > 0 {
        0 <= m.ip < current_line(m).len()
    } else {
        m.ip == 0
    }
}

/// The machine for `lines` before its first step.
pub open spec fn initial(lines: Seq<Seq<char>>, gc_interval: u32) -> Machine {
    Machine {
        lines,
        memory: Map::new(|i: u32| i < lines.len(), |i: u32| Seq::<u32>::empty()),
        local: 0,
        remote: 0,
        ip: 0,
        string_mode: false,
        gc_interval,
        gc_count: 0,
    }
}

/// The first offset, reading from `pos` and wrapping around, whose character is
/// an instruction; at most `fuel` characters are read.
pub open spec fn scan(line: Seq<char>, pos: int, fuel: nat) -> Option<int>
    decreases fuel,
{
    if fuel == 0 || !(0 <= pos < line.len()) {
        None
    } else if decode(line[pos]) is Some {
        Some(pos)
    } else {
        scan(line, advance(pos, line.len() as int), (fuel - 1) as nat)
    }
}

/// The offset of the next instruction to run, if the current line has any.
pub open spec fn next_instruction(m: Machine) -> Option<int> {
    scan(current_line(m), m.ip, current_line(m).len())
}

/// The `]` that closes the brackets open at `depth`, reading forward from `i`.
pub open spec fn match_forward(line: Seq<char>, i: int, depth: nat) -> Option<int>
    decreases line.len() - i,
{
    if i < 0 || i >= line.len() {
        None
    } else if line[i] == '[' {
        match_forward(line, i + 1, depth + 1)
    } else if line[i] == ']' {
        if depth == 0 {
            Some(i)
        } else {
            match_forward(line, i + 1, (depth - 1) as nat)
        }
    } else {
        match_forward(line, i + 1, depth)
    }
}

/// The `[` that opens the brackets closed at `depth`, reading backward from `i`.
pub open spec fn match_backward(line: Seq<char>, i: int, depth: nat) -> Option<int>
    decreases i + 1,
{
    if i < 0 || i >= line.len() {
        None
    } else if line[i] == ']' {
        match_backward(line, i - 1, depth + 1)
    } else if line[i] == '[' {
        if depth == 0 {
            Some(i)
        } else {
            match_backward(line, i - 1, (depth - 1) as nat)
        }
    } else {
        match_backward(line, i - 1, depth)
    }
}

/// Where a `[` at `pos` jumps: just past its matching `]`, or to `0` if it has none.
pub open spec fn forward_target(line: Seq<char>, pos: int) -> int {
    match match_forward(line, pos + 1, 0) {
        Some(j) => advance(j, line.len() as int),
        None => 0,
    }
}

/// Where a `]` at `pos` jumps: to its matching `[`, or to `0` if it has none.
pub open spec fn backward_target(line: Seq<char>, pos: int) -> int {
    match match_backward(line, pos - 1, 0) {
        Some(j) => j,
        None => 0,
    }
}

/// Whether `v` is a Unicode scalar value.
pub open spec fn is_scalar(v: u32) -> bool {
    v <= 0xD7FF || (0xE000 <= v && v <= 0x10FFFF)
}

/// The character of a decimal digit.
pub open spec fn digit_char(d: nat) -> char {
    ('0' as u32 + d) as char
}

/// The decimal representation of `n`, without leading zeros.
pub open spec fn decimal(n: nat) -> Seq<char>
    decreases n,
{
    if n < 10 {
        seq![digit_char(n)]
    } else {
        decimal(n / 10).push(digit_char(n % 10))
    }
}

/// The characters of the values of `s` that are Unicode scalar values, in order.
pub open spec fn printable(s: Seq<u32>) -> Seq<char>
    decreases s.len(),
{
    if s.len() == 0 {
        Seq::<char>::empty()
    } else {
        let rest = printable(s.drop_last());
        if is_scalar(s.last()) {
            rest.push(s.last() as char)
        } else {
            rest
        }
    }
}

/// The local stack.
pub open spec fn local_stack(m: Machine) -> Seq<u32> {
    m.memory[m.local]
}

/// The remote stack.
pub open spec fn remote_stack(m: Machine) -> Seq<u32> {
    m.memory[m.remote]
}

/// `m` with `s` as its local stack.
pub open spec fn with_local(m: Machine, s: Seq<u32>) -> Machine {
    Machine { memory: m.memory.insert(m.local, s), ..m }
}

/// The local stack after popping `a` and then `b` and pushing `f(a, b)`.
pub open spec fn binary(s: Seq<u32>, r: u32) -> Seq<u32> {
    popped(popped(s)).push(r)
}

/// The result that an arithmetic, comparison or logic instruction pushes, from
/// `a` (popped first) and `b` (popped second).
pub open spec fn combine(instr: Instruction, a: u32, b: u32) -> u32 {
    match instr {
        Instruction::Add => vstd::wrapping::u32_specs::wrapping_add(b, a),
        Instruction::Subtract => vstd::wrapping::u32_specs::wrapping_sub(b, a),
        Instruction::Multiply => vstd::wrapping::u32_specs::wrapping_mul(b, a),
        Instruction::Divide => if a == 0 { 0 } else { (b / a) as u32 },
        Instruction::Modulo => if a == 0 { 0 } else { (b % a) as u32 },
        Instruction::Equals => if b == a { 1 } else { 0 },
        Instruction::GreaterThan => if b > a { 1 } else { 0 },
        Instruction::And => if a != 0 && b != 0 { 1 } else { 0 },
        Instruction::Or => if a != 0 || b != 0 { 1 } else { 0 },
        _ => !(a & b),
    }
}

/// Whether `instr` pops two values and pushes `combine(instr, a, b)`.
pub open spec fn is_binary(instr: Instruction) -> bool {
    match instr {
        Instruction::Add | Instruction::Subtract | Instruction::Multiply | Instruction::Divide
        | Instruction::Modulo | Instruction::Equals | Instruction::GreaterThan | Instruction::And
        | Instruction::Or | Instruction::Nand => true,
        _ => false,
    }
}

/// The fault that running `instr` on `m` raises, if any.
pub open spec fn fault_of(m: Machine, instr: Instruction) -> Option<Fault> {
    let a = top(local_stack(m));
    match instr {
        Instruction::Divide | Instruction::Modulo => if a == 0 {
            Some(Fault::DivisionByZero)
        } else {
            None
        },
        Instruction::PrintChar => if is_scalar(a) {
            None
        } else {
            Some(Fault::InvalidCharacter(a))
        },
        _ => None,
    }
}

/// Whether `instr` acts on the local stack alone.
pub open spec fn acts_on_local(instr: Instruction) -> bool {
    is_binary(instr) || match instr {
        Instruction::PushLeftIndex | Instruction::PushRightIndex | Instruction::PushCurrentIndex
        | Instruction::SwapTop | Instruction::DuplicateTop | Instruction::Discard | Instruction::Clear
        | Instruction::Reverse | Instruction::Value(_) | Instruction::Invert | Instruction::Random
        | Instruction::PrintChar | Instruction::PrintNumber | Instruction::PrintAll => true,
        _ => false,
    }
}

/// The local stack `s` after an instruction that acts on it alone, run in
/// column `local` of `n`; `rnd` is the value that `Random` pushes.
pub open spec fn local_result(instr: Instruction, s: Seq<u32>, local: u32, n: int, rnd: u32) -> Seq<u32> {
    let a = top(s);
    let b = top(popped(s));
    if is_binary(instr) {
        binary(s, combine(instr, a, b))
    } else {
        match instr {
            Instruction::PushLeftIndex => s.push(((local + n - 1) % n) as u32),
            Instruction::PushRightIndex => s.push(((local + 1) % n) as u32),
            Instruction::PushCurrentIndex => s.push(local),
            Instruction::SwapTop => popped(popped(s)).push(a).push(b),
            Instruction::DuplicateTop => s.push(a),
            Instruction::Discard => popped(s),
            Instruction::Clear => Seq::<u32>::empty(),
            Instruction::Reverse => s.reverse(),
            Instruction::Value(v) => s.push(v),
            Instruction::Invert => popped(s).push(if a == 0 { 1u32 } else { 0u32 }),
            Instruction::Random => s.push(rnd),
            Instruction::PrintChar => popped(s),
            Instruction::PrintNumber => popped(s),
            Instruction::PrintAll => Seq::<u32>::empty(),
            _ => s,
        }
    }
}

/// What an instruction that acts on the local stack `s` alone writes out.
pub open spec fn local_event(instr: Instruction, s: Seq<u32>) -> Event {
    match instr {
        Instruction::PrintChar => Event::Output(seq![top(s) as char]),
        Instruction::PrintNumber => Event::Output(decimal(top(s) as nat)),
        Instruction::PrintAll => Event::Output(printable(s.reverse())),
        _ => Event::Continue,
    }
}

/// Runs `instr`, found at offset `pos`, on `m`, whose `ip` has already moved
/// past it; `rnd` is the value that `Random` pushes.
pub open spec fn execute(m: Machine, pos: int, instr: Instruction, rnd: u32) -> (Machine, Event) {
    let n = columns(m);
    let line = current_line(m);
    let s = local_stack(m);
    let r = remote_stack(m);
    let a = top(s);
    if acts_on_local(instr) {
        (with_local(m, local_result(instr, s, m.local, n, rnd)), local_event(instr, s))
    } else {
        match instr {
            Instruction::SetLocalColumn => {
                let popped_m = with_local(m, popped(s));
                (Machine { local: (a % (n as u32)) as u32, ip: 0, ..popped_m }, Event::Continue)
            },
            Instruction::SetRemoteStack => {
                let popped_m = with_local(m, popped(s));
                (Machine { remote: a, memory: ensured(popped_m.memory, a), ..popped_m }, Event::Continue)
            },
            Instruction::MoveToRemote => if m.local == m.remote {
                (m, Event::Continue)
            } else {
                (Machine { memory: m.memory.insert(m.local, popped(s)).insert(m.remote, r.push(a)), ..m }, Event::Continue)
            },
            Instruction::MoveToLocal => if m.local == m.remote {
                (m, Event::Continue)
            } else {
                (Machine { memory: m.memory.insert(m.remote, popped(r)).insert(m.local, s.push(top(r))), ..m }, Event::Continue)
            },
            Instruction::SwapStacks => if m.local == m.remote {
                (m, Event::Continue)
            } else {
                (Machine { memory: m.memory.insert(m.local, r).insert(m.remote, s), ..m }, Event::Continue)
            },
            Instruction::LeftBracket => if a == 0 {
                (Machine { ip: forward_target(line, pos), ..m }, Event::Continue)
            } else {
                (m, Event::Continue)
            },
            Instruction::RightBracket => if a != 0 {
                (Machine { ip: backward_target(line, pos), ..m }, Event::Continue)
            } else {
                (m, Event::Continue)
            },
            Instruction::StringMode => (Machine { string_mode: !m.string_mode, ..m }, Event::Continue),
            Instruction::Input => (m, Event::ReadByte),
            _ => (m, Event::Halt),
        }
    }
}

/// The bookkeeping at the end of every step: a garbage collection once every
/// `gc_interval` steps.
pub open spec fn tick(m: Machine) -> Machine {
    if m.gc_count as int + 1 >= m.gc_interval {
        Machine { memory: collected(m.memory, m.lines.len() as u32, m.remote), gc_count: 0, ..m }
    } else {
        Machine { gc_count: (m.gc_count + 1) as u32, ..m }
    }
}

/// One step of the machine `m`: the machine after it and what it asks of the
/// world, or the fault it raises, which leaves `m` as it was. `rnd` is the value
/// that a `Random` instruction pushes.
pub open spec fn step(m: Machine, rnd: u32) -> (Machine, Result<Event, Fault>) {
    let line = current_line(m);
    let len = line.len() as int;
    if m.string_mode {
        if len == 0 {
            (tick(m), Ok(Event::Continue))
        } else {
            let c = line[m.ip];
            let moved = Machine { ip: advance(m.ip, len), ..m };
            if c == '"' {
                (tick(Machine { string_mode: false, ..moved }), Ok(Event::Continue))
            } else {
                (tick(with_local(moved, local_stack(m).push(c as u32))), Ok(Event::Continue))
            }
        }
    } else {
        match next_instruction(m) {
            None => (tick(m), Ok(Event::Continue)),
            Some(pos) => {
                let instr = decode(line[pos]).unwrap();
                match fault_of(m, instr) {
                    Some(f) => (m, Err(f)),
                    None => {
                        let moved = Machine { ip: advance(pos, len), ..m };
                        let (after, event) = execute(moved, pos, instr, rnd);
                        (tick(after), Ok(event))
                    },
                }
            },
        }
    }
}

/// The machine after the byte that an `Input` instruction asked for arrived;
/// `None` stands for input that is absent or exhausted. A program without
/// lines has no stack to take it.
pub open spec fn receive(m: Machine, byte: Option<u8>) -> Machine {
    if columns(m) == 0 {
        m
    } else {
        with_local(
            m,
            local_stack(m).push(
                match byte {
                    Some(b) => b as u32,
                    None => 0,
                },
            ),
        )
    }
}

/// Why a run stopped.
#[derive(Copy, Clone, Debug, PartialEq, Eq, Structural)]
pub enum StopReason {
    /// The program ran its `Terminate` instruction.
    Terminated,
    /// The run used up the steps it was allowed.
    StepLimit,
    /// A step raised a fault.
    Faulted(Fault),
}

/// `(m, out, stop)` with `before` written ahead of `out`.
pub open spec fn after_output(before: Seq<char>, run: (Machine, Seq<char>, StopReason)) -> (Machine, Seq<char>, StopReason) {
    (run.0, before + run.1, run.2)
}

/// Up to `fuel` steps of `m`: the machine at the end, everything written, and
/// why the run stopped. `Input` takes the bytes of `input` in order; `Random`
/// takes the values of `draws` in order.
pub open spec fn run_steps(m: Machine, input: Seq<u8>, fuel: nat, draws: Seq<u32>) -> (Machine, Seq<char>, StopReason)
    decreases fuel,
{
    if fuel == 0 {
        (m, Seq::<char>::empty(), StopReason::StepLimit)
    } else {
        let rnd = if draws.len() > 0 { draws[0] } else { 0 };
        let later = if draws.len() > 0 { draws.drop_first() } else { draws };
        let (next, result) = step(m, rnd);
        match result {
            Err(f) => (m, Seq::<char>::empty(), StopReason::Faulted(f)),
            Ok(Event::Halt) => (next, Seq::<char>::empty(), StopReason::Terminated),
            Ok(Event::ReadByte) => {
                let byte = if input.len() > 0 { Some(input[0]) } else { None::<u8> };
                let rest = if input.len() > 0 { input.drop_first() } else { input };
                run_steps(receive(next, byte), rest, (fuel - 1) as nat, later)
            },
            Ok(Event::Output(o)) => after_output(o, run_steps(next, input, (fuel - 1) as nat, later)),
            Ok(Event::Continue) => run_steps(next, input, (fuel - 1) as nat, later),
        }
    }
}

/// A step keeps the machine in its invariant: every program-defined column and
/// the remote column keep a stack, the executing column stays in the program,
/// and the instruction pointer stays within the current line.
pub proof fn lemma_step_keeps_invariant(m: Machine, rnd: u32)
    requires
        machine_inv(m),
    ensures
        machine_inv(step(m, rnd).0),
{
    let line = current_line(m);
    let len = line.len() as int;
    if m.string_mode {
        if len > 0 {
            let moved = Machine { ip: advance(m.ip, len), ..m };
            lemma_tick_keeps_invariant(Machine { string_mode: false, ..moved });
            lemma_with_local_keeps_invariant(moved, local_stack(m).push(line[m.ip] as u32));
            lemma_tick_keeps_invariant(with_local(moved, local_stack(m).push(line[m.ip] as u32)));
        } else {
            lemma_tick_keeps_invariant(m);
        }
    } else {
        match next_instruction(m) {
            None => lemma_tick_keeps_invariant(m),
            Some(pos) => {
                lemma_scan_finds_instruction(line, m.ip, len as nat);
                let instr = decode(line[pos]).unwrap();
                if fault_of(m, instr) is None {
                    let moved = Machine { ip: advance(pos, len), ..m };
                    lemma_execute_keeps_invariant(moved, pos, instr, rnd);
                    lemma_tick_keeps_invariant(execute(moved, pos, instr, rnd).0);
                }
            },
        }
    }
}

pub proof fn lemma_tick_keeps_invariant(m: Machine)
    requires
        machine_inv(m),
    ensures
        machine_inv(tick(m)),
{
    assert forall|i: u32| i < columns(m) implies #[trigger] tick(m).memory.contains_key(i) by {
        assert(m.memory.contains_key(i));
    }
}

/// Replacing a stack that exists keeps the invariant.
pub proof fn lemma_replace_keeps_invariant(m: Machine, index: u32, s: Seq<u32>)
    requires
        machine_inv(m),
        m.memory.contains_key(index),
    ensures
        machine_inv(Machine { memory: m.memory.insert(index, s), ..m }),
{
}

/// Replacing the local stack keeps the invariant.
pub proof fn lemma_with_local_keeps_invariant(m: Machine, s: Seq<u32>)
    requires
        machine_inv(m),
        columns(m) > 0,
    ensures
        machine_inv(with_local(m, s)),
{
}

pub proof fn lemma_execute_keeps_invariant(m: Machine, pos: int, instr: Instruction, rnd: u32)
    requires
        machine_inv(m),
        0 <= pos < current_line(m).len(),
    ensures
        machine_inv(execute(m, pos, instr, rnd).0),
{
    let line = current_line(m);
    let n = columns(m);
    let s = local_stack(m);
    let r = remote_stack(m);
    let a = top(s);
    assert(n > 0);
    assert forall|t: Seq<u32>| machine_inv(#[trigger] with_local(m, t)) by {
        lemma_with_local_keeps_invariant(m, t);
    }
    if !acts_on_local(instr) {
        match instr {
            Instruction::SetLocalColumn => {
                let popped_m = with_local(m, popped(s));
                let next = Machine { local: (a % (n as u32)) as u32, ip: 0, ..popped_m };
                assert(next.local < n);
                assert(machine_inv(next));
            },
            Instruction::SetRemoteStack => {
                let popped_m = with_local(m, popped(s));
                let next = Machine { remote: a, memory: ensured(popped_m.memory, a), ..popped_m };
                assert forall|i: u32| i < n implies #[trigger] next.memory.contains_key(i) by {
                    assert(popped_m.memory.contains_key(i));
                }
                assert(machine_inv(next));
            },
            Instruction::LeftBracket => {
                lemma_match_forward_in_line(line, pos + 1, 0);
            },
            Instruction::RightBracket => {
                lemma_match_backward_in_line(line, pos - 1, 0);
            },
            _ => {},
        }
    }
}

/// Moving a value to or from the remote stack while the remote stack is the
/// local stack is a no-op: the step leaves the stacks as its periodic garbage
/// collection leaves them, and the local stack keeps exactly its values.
pub proof fn lemma_move_within_one_stack(m: Machine, rnd: u32)
    requires
        machine_inv(m),
        !m.string_mode,
        m.local == m.remote,
        next_instruction(m) matches Some(pos) && (decode(current_line(m)[pos]) == Some(Instruction::MoveToRemote)
            || decode(current_line(m)[pos]) == Some(Instruction::MoveToLocal)),
    ensures
        step(m, rnd).1 == Ok::<Event, Fault>(Event::Continue),
        step(m, rnd).0.memory == tick(m).memory,
        step(m, rnd).0.memory[m.local] == m.memory[m.local],
{
    let line = current_line(m);
    lemma_scan_finds_instruction(line, m.ip, line.len());
    assert(m.local < columns(m));
}

/// A garbage collection removes every empty stack beyond the program-defined
/// ones unless it is the remote stack, and keeps every program-defined stack,
/// empty or not, with its values.
pub proof fn lemma_collection_keeps_program_stacks(m: Machine, k: u32)
    requires
        machine_inv(m),
        m.gc_count + 1 >= m.gc_interval,
    ensures
        k >= columns(m) && k != m.remote && m.memory.contains_key(k) && m.memory[k].len() == 0
            ==> !tick(m).memory.contains_key(k),
        k < columns(m) ==> tick(m).memory.contains_key(k) && tick(m).memory[k] == m.memory[k],
{
}

/// Whether every character of `line` is a literal push or a print-number.
pub open spec fn pushes_and_prints(line: Seq<char>) -> bool {
    forall|i: int|
        0 <= i < line.len() ==> (decode(#[trigger] line[i]) matches Some(Instruction::Value(_)) || decode(
            line[i],
        ) == Some(Instruction::PrintNumber))
}

/// What the literal pushes and print-numbers of `line` write when run on the
/// stack `s`: each print-number writes the decimal form of the value it pops.
pub open spec fn printed(line: Seq<char>, s: Seq<u32>) -> Seq<char>
    decreases line.len(),
{
    if line.len() == 0 {
        Seq::<char>::empty()
    } else {
        match decode(line[0]) {
            Some(Instruction::Value(v)) => printed(line.drop_first(), s.push(v)),
            _ => decimal(top(s) as nat) + printed(line.drop_first(), popped(s)),
        }
    }
}

/// A program whose first line holds only literal pushes and print-numbers, and
/// then a terminate, writes the decimal form of each value that it prints, in
/// the order of printing, and terminates, given one step more than that line
/// has pushes and prints.
pub proof fn lemma_pushes_and_prints(
    lines: Seq<Seq<char>>,
    line: Seq<char>,
    gc_interval: u32,
    input: Seq<u8>,
    fuel: nat,
    draws: Seq<u32>,
)
    requires
        lines.len() <= u32::MAX,
        lines.len() > 0,
        lines[0] == line.push('@'),
        pushes_and_prints(line),
        fuel > line.len(),
    ensures
        run_steps(initial(lines, gc_interval), input, fuel, draws).1 == printed(line, Seq::<u32>::empty()),
        run_steps(initial(lines, gc_interval), input, fuel, draws).2 == StopReason::Terminated,
{
    let m = initial(lines, gc_interval);
    assert(m.memory.contains_key(0));
    assert(line.subrange(0, line.len() as int) =~= line);
    lemma_pushes_and_prints_from(m, line, input, fuel, draws);
}

proof fn lemma_pushes_and_prints_from(m: Machine, line: Seq<char>, input: Seq<u8>, fuel: nat, draws: Seq<u32>)
    requires
        machine_inv(m),
        m.local == 0,
        !m.string_mode,
        current_line(m) == line.push('@'),
        0 <= m.ip <= line.len(),
        pushes_and_prints(line),
        fuel > line.len() - m.ip,
    ensures
        run_steps(m, input, fuel, draws).1 == printed(line.subrange(m.ip, line.len() as int), local_stack(m)),
        run_steps(m, input, fuel, draws).2 == StopReason::Terminated,
    decreases line.len() - m.ip,
{
    let full = line.push('@');
    let len = full.len() as int;
    let rnd = if draws.len() > 0 { draws[0] } else { 0 };
    let later = if draws.len() > 0 { draws.drop_first() } else { draws };
    let rest = line.subrange(m.ip, line.len() as int);
    assert(decode(full[m.ip]) is Some) by {
        if m.ip < line.len() {
            assert(full[m.ip] == line[m.ip]);
        }
    }
    assert(next_instruction(m) == Some(m.ip));
    if m.ip == line.len() {
        assert(rest =~= Seq::<char>::empty());
    } else {
        vstd::arithmetic::div_mod::lemma_small_mod((m.ip + 1) as nat, len as nat);
        assert(full[m.ip] == line[m.ip]);
        assert(rest[0] == line[m.ip]);
        assert(rest.drop_first() =~= line.subrange(m.ip + 1, line.len() as int));
        let s = local_stack(m);
        let moved = Machine { ip: m.ip + 1, ..m };
        assert(m.memory.contains_key(0));
        match decode(line[m.ip]) {
            Some(Instruction::Value(v)) => {
                let next = tick(with_local(moved, s.push(v)));
                lemma_with_local_keeps_invariant(moved, s.push(v));
                lemma_tick_keeps_invariant(with_local(moved, s.push(v)));
                assert(step(m, rnd).0 == next);
                assert(local_stack(next) == s.push(v));
                lemma_pushes_and_prints_from(next, line, input, (fuel - 1) as nat, later);
            },
            _ => {
                let next = tick(with_local(moved, popped(s)));
                lemma_with_local_keeps_invariant(moved, popped(s));
                lemma_tick_keeps_invariant(with_local(moved, popped(s)));
                assert(step(m, rnd).0 == next);
                assert(local_stack(next) == popped(s));
                lemma_pushes_and_prints_from(next, line, input, (fuel - 1) as nat, later);
            },
        }
    }
}

/// What `scan` finds lies in the line and is an instruction.
pub proof fn lemma_scan_finds_instruction(line: Seq<char>, pos: int, fuel: nat)
    ensures
        scan(line, pos, fuel) matches Some(p) ==> 0 <= p < line.len() && decode(line[p]) is Some,
    decreases fuel,
{
    if fuel > 0 && 0 <= pos < line.len() && decode(line[pos]) is None {
        lemma_scan_finds_instruction(line, advance(pos, line.len() as int), (fuel - 1) as nat);
    }
}

/// A `]` found by `match_forward` lies in the line.
pub proof fn lemma_match_forward_in_line(line: Seq<char>, i: int, depth: nat)
    ensures
        match_forward(line, i, depth) matches Some(j) ==> 0 <= j < line.len(),
    decreases line.len() - i,
{
    if 0 <= i < line.len() {
        if line[i] == '[' {
            lemma_match_forward_in_line(line, i + 1, depth + 1);
        } else if line[i] == ']' {
            if depth > 0 {
                lemma_match_forward_in_line(line, i + 1, (depth - 1) as nat);
            }
        } else {
            lemma_match_forward_in_line(line, i + 1, depth);
        }
    }
}

/// A `[` found by `match_backward` lies in the line.
pub proof fn lemma_match_backward_in_line(line: Seq<char>, i: int, depth: nat)
    ensures
        match_backward(line, i, depth) matches Some(j) ==> 0 <= j < line.len(),
    decreases i + 1,
{
    if 0 <= i < line.len() {
        if line[i] == ']' {
            lemma_match_backward_in_line(line, i - 1, depth + 1);
        } else if line[i] == '[' {
            if depth > 0 {
                lemma_match_backward_in_line(line, i - 1, (depth - 1) as nat);
            }
        } else {
            lemma_match_backward_in_line(line, i - 1, depth);
        }
    }
}

} // verus!
