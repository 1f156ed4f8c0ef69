//! The instruction set and the table that maps source characters to it.

use vstd::prelude::*;

verus! {

#[derive(Copy, Clone, Debug, PartialEq, Eq, Structural)]
pub enum Instruction {
    /// Push the index of the column on the left onto the local stack.
    PushLeftIndex,
    /// Push the index of the column on the right onto the local stack.
    PushRightIndex,
    /// Push the index of the current column onto the local stack.
    PushCurrentIndex,
    /// Pop `a` and continue execution at the start of column `a`.
    SetLocalColumn,
    /// Pop `a` and select the stack of column `a` as the remote stack.
    SetRemoteStack,
    /// Pop a value from the local stack and push it onto the remote stack.
    MoveToRemote,
    /// Pop a value from the remote stack and push it onto the local stack.
    MoveToLocal,
    /// Swap the top two values of the local stack.
    SwapTop,
    /// Duplicate the top value of the local stack.
    DuplicateTop,
    /// Discard the top value of the local stack.
    Discard,
    /// Clear the local stack.
    Clear,
    /// Swap the contents of the local and remote stacks.
    SwapStacks,
    /// Reverse the order of the local stack.
    Reverse,
    /// Push a value onto the local stack.
    Value(u32),
    /// Jump past the matching `]` if the top of the local stack is zero.
    LeftBracket,
    /// Jump back to the matching `[` if the top of the local stack is non-zero.
    RightBracket,
    /// Pop `a` and `b` and push `b + a`.
    Add,
    /// Pop `a` and `b` and push `b - a`.
    Subtract,
    /// Pop `a` and `b` and push `b * a`.
    Multiply,
    /// Pop `a` and `b` and push `b / a`.
    Divide,
    /// Pop `a` and `b` and push the remainder of `b / a`.
    Modulo,
    /// Pop `a` and `b` and push `1` if they are equal, `0` otherwise.
    Equals,
    /// Pop `a` and `b` and push `1` if `b` is greater than `a`, `0` otherwise.
    GreaterThan,
    /// Pop `a` and `b` and push `1` if both are non-zero, `0` otherwise. Not bitwise.
    And,
    /// Pop `a` and `b` and push `1` if either is non-zero, `0` otherwise. Not bitwise.
    Or,
    /// Pop `a` and `b` and push the bitwise NAND `!(a & b)`.
    Nand,
    /// Pop `a` and push `1` if it is zero, `0` otherwise.
    Invert,
    /// Push a uniformly random value.
    Random,
    /// Toggle string mode, in which characters are pushed as raw code points.
    StringMode,
    /// Read one byte of input and push it; `0` when no input is left.
    Input,
    /// Pop `a` and print it as a character.
    PrintChar,
    /// Pop `a` and print it in decimal.
    PrintNumber,
    /// Print the whole local stack, top to bottom, as characters, then clear it.
    PrintAll,
    /// Terminate the program.
    Terminate,
}

/// The instruction that a source character stands for, if any.
pub open spec fn decode(c: char) -> Option<Instruction> {
    match c {
        '<' => Some(Instruction::PushLeftIndex),
        '>' => Some(Instruction::PushRightIndex),
        '.' => Some(Instruction::PushCurrentIndex),
        ';' => Some(Instruction::SetLocalColumn),
        '~' => Some(Instruction::SetRemoteStack),
        '^' => Some(Instruction::MoveToRemote),
        'v' => Some(Instruction::MoveToLocal),
        '\\' => Some(Instruction::SwapTop),
        ':' => Some(Instruction::DuplicateTop),
        'x' => Some(Instruction::Discard),
        'c' => Some(Instruction::Clear),
        's' => Some(Instruction::SwapStacks),
        'r' => Some(Instruction::Reverse),
        '0'..='9' => Some(Instruction::Value((c as u32 - '0' as u32) as u32)),
        'A'..='F' => Some(Instruction::Value((c as u32 - 'A' as u32 + 10) as u32)),
        '[' => Some(Instruction::LeftBracket),
        ']' => Some(Instruction::RightBracket),
        '+' => Some(Instruction::Add),
        '-' => Some(Instruction::Subtract),
        '*' => Some(Instruction::Multiply),
        '/' => Some(Instruction::Divide),
        '%' => Some(Instruction::Modulo),
        '=' => Some(Instruction::Equals),
        '`' => Some(Instruction::GreaterThan),
        '&' => Some(Instruction::And),
        '|' => Some(Instruction::Or),
        'n' => Some(Instruction::Nand),
        '!' => Some(Instruction::Invert),
        '?' => Some(Instruction::Random),
        '"' => Some(Instruction::StringMode),
        '_' => Some(Instruction::Input),
        '$' => Some(Instruction::PrintChar),
        '#' => Some(Instruction::PrintNumber),
        'p' => Some(Instruction::PrintAll),
        '@' => Some(Instruction::Terminate),
        _ => None,
    }
}

impl Instruction {
    /// The instruction that `c` stands for, or `None` for a character that is
    /// not an instruction (such characters are skipped as whitespace).
    pub fn from_char(c: &char) -> (r: Option<Instruction>)
        ensures
            r == decode(*c),
    {
        let c = *c;
        match c {
            '<' => Some(Instruction::PushLeftIndex),
            '>' => Some(Instruction::PushRightIndex),
            '.' => Some(Instruction::PushCurrentIndex),
            ';' => Some(Instruction::SetLocalColumn),
            '~' => Some(Instruction::SetRemoteStack),
            '^' => Some(Instruction::MoveToRemote),
            'v' => Some(Instruction::MoveToLocal),
            '\\' => Some(Instruction::SwapTop),
            ':' => Some(Instruction::DuplicateTop),
            'x' => Some(Instruction::Discard),
            'c' => Some(Instruction::Clear),
            's' => Some(Instruction::SwapStacks),
            'r' => Some(Instruction::Reverse),
            '0'..='9' => Some(Instruction::Value(c as u32 - '0' as u32)),
            'A'..='F' => Some(Instruction::Value(c as u32 - 'A' as u32 + 10)),
            '[' => Some(Instruction::LeftBracket),
            ']' => Some(Instruction::RightBracket),
            '+' => Some(Instruction::Add),
            '-' => Some(Instruction::Subtract),
            '*' => Some(Instruction::Multiply),
            '/' => Some(Instruction::Divide),
            '%' => Some(Instruction::Modulo),
            '=' => Some(Instruction::Equals),
            '`' => Some(Instruction::GreaterThan),
            '&' => Some(Instruction::And),
            '|' => Some(Instruction::Or),
            'n' => Some(Instruction::Nand),
            '!' => Some(Instruction::Invert),
            '?' => Some(Instruction::Random),
            '"' => Some(Instruction::StringMode),
            '_' => Some(Instruction::Input),
            '$' => Some(Instruction::PrintChar),
            '#' => Some(Instruction::PrintNumber),
            'p' => Some(Instruction::PrintAll),
            '@' => Some(Instruction::Terminate),
            _ => None,
        }
    }
}

} // verus!
