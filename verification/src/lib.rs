//! The core of an interactive command shell: a lexer and a parser for command
//! lines, a resolver and an executor that decide how each command is run, a
//! line editor driven byte by byte, and a bounded command history.
//!
//! Everything here computes on plain values. Reading the terminal, probing
//! the file system and starting processes are left to the program around the
//! library, which performs the actions that the library names and reports
//! back how they went.
//!
//! A line goes through the modules in this order: [`editor`] builds it from
//! the bytes of the terminal, with [`history`] at hand for the arrow keys;
//! [`lexer`] turns it into tokens; [`parser`] groups the tokens into segments
//! of stages; [`executor`] walks the segments, with [`resolver`] to find each
//! program, [`builtin`] for the commands that the shell runs itself and
//! [`streams`] for the wiring of a launched program.

pub mod builtin;
pub mod command;
pub mod editor;
pub mod executor;
pub mod history;
pub mod lexer;
pub mod parser;
pub mod resolver;
pub mod seqs;
pub mod session;
pub mod shell;
pub mod streams;
pub mod text;
pub mod token;
