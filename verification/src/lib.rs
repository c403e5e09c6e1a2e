//! A small source-to-assembly compiler for a Python-like expression
//! language targeting a register-based virtual machine.
//!
//! The crate has two halves:
//! - a recursive-descent parser that turns source text (bytes) into a
//!   [`tokens::Token`] syntax tree, and
//! - a tree-walking code generator ([`visitor::Compiler`]) that lowers the
//!   tree into newline-separated text instructions, allocating registers
//!   from a fixed pool and tracking lexical scopes ([`scope::Scope`]).

pub mod assemble;
pub mod bytes;
pub mod conditional_parsers;
pub mod dictionary_parsers;
pub mod emit;
pub mod errors;
pub mod expression_parsers;
pub mod factor_parsers;
pub mod function_parsers;
pub mod lexical;
pub mod list_parsers;
pub mod loop_parsers;
pub mod operand_parsers;
pub mod operator_parsers;
pub mod program_parsers;
pub mod scope;
pub mod term_parsers;
pub mod tokens;
pub mod visitor;
