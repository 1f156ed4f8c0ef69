//! An execution engine for *col*, a stack-based esoteric language laid out as a
//! ring of columns. Every line of a program is a column with a stack of its own,
//! and instructions may move values between the executing column's stack and a
//! second, explicitly selected "remote" stack.

pub mod interpreter;
pub mod layout;
pub mod parser;
pub mod program;
pub mod semantics;
pub mod stack;
pub mod text;
