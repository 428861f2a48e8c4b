//! C1, a small C-like teaching language: its lexer and parser, its semantic
//! analysis, and an interpreter for analyzed programs; and a small calculator
//! over a syntax tree of postfix programs.
//!
//! Each stage is proved against a specification: the lexical grammar
//! ([`lexer::lex`]), the grammar ([`parser::program_of`]), the static
//! semantics ([`semantics::analysis_of`]) and the dynamic semantics
//! ([`dynamics::run_program`]). Every program that the analysis accepts is
//! well-typed ([`typing`]), and a well-typed program never goes wrong at run
//! time ([`soundness`]).
pub mod ast;
pub mod text;
pub mod numeric;
pub mod lexer;
pub mod parser;
pub mod symtab;
pub mod semantics;
pub mod analysis;
pub mod resolution;
pub mod typing;
pub mod typecheck;
pub mod runtime;
pub mod dynamics;
pub mod soundness;
pub mod interpreter;
pub mod syntree;
pub mod calculator;

pub use analysis::analyze;
pub use interpreter::interpret;
pub use parser::parse;
