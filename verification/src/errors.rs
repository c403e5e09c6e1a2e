//! Error values reported by the parser and the code generator.
//!
//! Every failure is terminal for the current compilation unit: there is no
//! recovery or partial success.

use vstd::prelude::*;

verus! {

/// Why parsing stopped.
#[derive(Clone, Debug, PartialEq, Eq)]
pub enum ParseError {
    /// The grammar's alternatives were exhausted: the input is not a valid
    /// program. `pos` is the byte offset at which parsing could not continue.
    Syntax { pos: usize },
    /// An integer literal does not fit a signed 64-bit integer. `pos` is the
    /// byte offset where the literal starts.
    IntegerOverflow { pos: usize },
}

/// The kind of syntax node the code generator was visiting when a fatal
/// condition arose; used in diagnostics.
#[derive(Clone, Copy, Debug, PartialEq, Eq)]
pub enum NodeKind {
    Addition,
    Subtraction,
    Multiplication,
    Division,
    GreaterThan,
    LessThan,
    GreaterThanOrEqual,
    LessThanOrEqual,
    EqualTo,
    LogicalOr,
    LogicalAnd,
    LogicalNot,
    Assignment,
    Integer,
    Float,
    Term,
    Expression,
    FunctionArgs,
}

/// Why code generation aborted.
#[derive(Clone, Debug, PartialEq, Eq)]
pub enum CompileError {
    /// The free register pool was empty when a register was needed.
    RegisterExhausted { node: NodeKind },
    /// An operand register was needed but the result stack was empty: a
    /// mismatched push/pop invariant in the visited tree.
    RegisterUnderflow { node: NodeKind },
    /// A name had to be bound or resolved but no scope held it.
    UnresolvedIdentifier { name: Vec<u8> },
    /// An assignment's left side did not supply an identifier to bind.
    MissingAssignmentTarget,
}

} // verus!
