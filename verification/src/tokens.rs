//! The syntax tree: one closed variant set with one case per grammar
//! production, matched exhaustively by the code generator.
//!
//! All program text (identifiers, function names, float literal text) is kept
//! as ASCII bytes. A float literal keeps its matched text: the code generator
//! only ever copies it into a `LOAD` immediate, so no floating-point value is
//! materialised in the library.

use vstd::prelude::*;

use crate::errors::NodeKind;
use crate::lexical::is_float_text;
use crate::lexical::is_identifier_text;
use crate::lexical::is_name_text;

verus! {

/// One node of the syntax tree.
#[derive(Debug, PartialEq)]
pub enum Token {
    Eof,
    AdditionOperator,
    SubtractionOperator,
    MultiplicationOperator,
    DivisionOperator,
    GreaterThan,
    LessThan,
    GreaterThanOrEqual,
    LessThanOrEqual,
    EqualTo,
    LogicalOr,
    LogicalAnd,
    LogicalNot,
    Assignment,
    Integer { value: i64 },
    Float { text: Vec<u8> },
    Identifier { values: Vec<Vec<u8>> },
    Factor { value: Box<Token> },
    Term { left: Box<Token>, right: Vec<(Token, Token)> },
    Expression { left: Box<Token>, right: Vec<(Token, Token)> },
    If { expr: Box<Token>, body: Vec<Token> },
    Elif { expr: Box<Token>, body: Vec<Token> },
    Else { body: Vec<Token> },
    FunctionCall { name: Vec<u8>, parameters: Box<Token> },
    FunctionName { name: Vec<u8> },
    FunctionArgs { args: Vec<Vec<u8>> },
    FunctionBody { expressions: Vec<Token> },
    Function { name: Box<Token>, args: Box<Token>, body: Box<Token>, return_statement: Box<Token> },
    ReturnArgs { args: Vec<Token> },
    ReturnStatement { parameters: Box<Token> },
    WhileLoop { start: Box<Token>, body: Box<Token> },
    WhileLoopStart { expression: Box<Token> },
    WhileLoopBody { expressions: Vec<Token> },
    ForLoop { start: Box<Token>, body: Box<Token> },
    ForLoopStart { variable_name: Vec<u8>, collection_name: Vec<u8> },
    ForLoopBody { expressions: Vec<Token> },
    List { elements: Vec<Token> },
    Dictionary { keys: Vec<Token>, values: Vec<Token> },
    DictionaryKeyValuePair { key: Box<Token>, value: Box<Token> },
    Program { expressions: Vec<Token> },
}

/// The node kinds that can carry an operator position in a `Term` or
/// `Expression` right-hand pair.
pub open spec fn is_operator(t: Token) -> bool {
    ||| t is AdditionOperator
    ||| t is SubtractionOperator
    ||| t is MultiplicationOperator
    ||| t is DivisionOperator
    ||| t is GreaterThan
    ||| t is LessThan
    ||| t is GreaterThanOrEqual
    ||| t is LessThanOrEqual
    ||| t is EqualTo
    ||| t is LogicalOr
    ||| t is LogicalAnd
    ||| t is LogicalNot
    ||| t is Assignment
}

/// Structural invariants of a parsed tree, as the grammar guarantees them:
/// every right-hand pair couples exactly one operator with exactly one
/// operand of the tier below, identifier names are well-formed, and composite
/// statement nodes hold the node kinds their productions build.
pub open spec fn wf(t: Token) -> bool
    decreases t,
{
    match t {
        Token::Float { text } => is_float_text(text@),
        Token::Identifier { values } => values@.len() > 0 && forall|i: int|
            0 <= i < values@.len() ==> is_identifier_text(#[trigger] values@[i]@),
        Token::Factor { value } => wf(*value),
        Token::Term { left, right } => {
            &&& *left is Factor
            &&& wf(*left)
            &&& forall|i: int|
                0 <= i < right@.len() ==> is_operator(#[trigger] right@[i].0)
            &&& forall|i: int|
                0 <= i < right@.len() ==> (#[trigger] right@[i].1) is Factor && wf(right@[i].1)
        },
        Token::Expression { left, right } => {
            &&& (*left is Term || *left is Function)
            &&& wf(*left)
            &&& forall|i: int|
                0 <= i < right@.len() ==> is_operator(#[trigger] right@[i].0)
            &&& forall|i: int|
                0 <= i < right@.len() ==> (#[trigger] right@[i].1) is Term && wf(right@[i].1)
        },
        Token::If { expr, body } => *expr is Expression && wf(*expr) && forall|i: int|
            0 <= i < body@.len() ==> (#[trigger] body@[i]) is Expression && wf(body@[i]),
        Token::Elif { expr, body } => *expr is Expression && wf(*expr) && forall|i: int|
            0 <= i < body@.len() ==> (#[trigger] body@[i]) is Expression && wf(body@[i]),
        Token::Else { body } => forall|i: int|
            0 <= i < body@.len() ==> (#[trigger] body@[i]) is Expression && wf(body@[i]),
        Token::FunctionCall { name, parameters } => is_identifier_text(name@) && *parameters
            is FunctionArgs && wf(*parameters),
        Token::FunctionArgs { args } => forall|i: int|
            0 <= i < args@.len() ==> is_identifier_text(#[trigger] args@[i]@),
        Token::FunctionBody { expressions } => forall|i: int|
            0 <= i < expressions@.len() ==> (#[trigger] expressions@[i]) is Expression && wf(
                expressions@[i],
            ),
        Token::Function { name, args, body, return_statement } => {
            &&& *name is FunctionName
            &&& *args is FunctionArgs && wf(*args)
            &&& *body is FunctionBody && wf(*body)
            &&& *return_statement is ReturnStatement && wf(*return_statement)
        },
        Token::ReturnArgs { args } => forall|i: int|
            0 <= i < args@.len() ==> (#[trigger] args@[i]) is Factor && wf(args@[i]),
        Token::ReturnStatement { parameters } => *parameters is Factor && wf(*parameters),
        Token::WhileLoop { start, body } => *start is WhileLoopStart && wf(*start) && *body
            is WhileLoopBody && wf(*body),
        Token::WhileLoopStart { expression } => *expression is Expression && wf(*expression),
        Token::WhileLoopBody { expressions } => forall|i: int|
            0 <= i < expressions@.len() ==> (#[trigger] expressions@[i]) is Expression && wf(
                expressions@[i],
            ),
        Token::ForLoop { start, body } => *start is ForLoopStart && wf(*start) && *body
            is ForLoopBody && wf(*body),
        Token::ForLoopStart { variable_name, collection_name } => is_name_text(variable_name@)
            && is_name_text(collection_name@),
        Token::ForLoopBody { expressions } => forall|i: int|
            0 <= i < expressions@.len() ==> (#[trigger] expressions@[i]) is Expression && wf(
                expressions@[i],
            ),
        Token::List { elements } => forall|i: int|
            0 <= i < elements@.len() ==> (#[trigger] elements@[i]) is Expression && wf(
                elements@[i],
            ),
        Token::Dictionary { keys, values } => keys@.len() == 0 && values@.len() == 0,
        Token::DictionaryKeyValuePair { key, value } => *key is Expression && wf(*key) && *value
            is Expression && wf(*value),
        Token::Program { expressions } => forall|i: int|
            0 <= i < expressions@.len() ==> (#[trigger] expressions@[i]) is Expression && wf(
                expressions@[i],
            ),
        _ => true,
    }
}

impl Token {
    /// The diagnostic kind of this node, for error reports.
    pub fn kind(&self) -> (k: NodeKind)
        ensures
            k == self.spec_kind(),
    {
        match self {
            Token::AdditionOperator => NodeKind::Addition,
            Token::SubtractionOperator => NodeKind::Subtraction,
            Token::MultiplicationOperator => NodeKind::Multiplication,
            Token::DivisionOperator => NodeKind::Division,
            Token::GreaterThan => NodeKind::GreaterThan,
            Token::LessThan => NodeKind::LessThan,
            Token::GreaterThanOrEqual => NodeKind::GreaterThanOrEqual,
            Token::LessThanOrEqual => NodeKind::LessThanOrEqual,
            Token::EqualTo => NodeKind::EqualTo,
            Token::LogicalOr => NodeKind::LogicalOr,
            Token::LogicalAnd => NodeKind::LogicalAnd,
            Token::LogicalNot => NodeKind::LogicalNot,
            Token::Assignment => NodeKind::Assignment,
            Token::Integer { .. } => NodeKind::Integer,
            Token::Float { .. } => NodeKind::Float,
            Token::Term { .. } => NodeKind::Term,
            Token::Expression { .. } => NodeKind::Expression,
            Token::FunctionArgs { .. } => NodeKind::FunctionArgs,
            _ => NodeKind::Expression,
        }
    }

    /// The diagnostic kind, at the specification level.
    pub open spec fn spec_kind(&self) -> NodeKind {
        match self {
            Token::AdditionOperator => NodeKind::Addition,
            Token::SubtractionOperator => NodeKind::Subtraction,
            Token::MultiplicationOperator => NodeKind::Multiplication,
            Token::DivisionOperator => NodeKind::Division,
            Token::GreaterThan => NodeKind::GreaterThan,
            Token::LessThan => NodeKind::LessThan,
            Token::GreaterThanOrEqual => NodeKind::GreaterThanOrEqual,
            Token::LessThanOrEqual => NodeKind::LessThanOrEqual,
            Token::EqualTo => NodeKind::EqualTo,
            Token::LogicalOr => NodeKind::LogicalOr,
            Token::LogicalAnd => NodeKind::LogicalAnd,
            Token::LogicalNot => NodeKind::LogicalNot,
            Token::Assignment => NodeKind::Assignment,
            Token::Integer { .. } => NodeKind::Integer,
            Token::Float { .. } => NodeKind::Float,
            Token::Term { .. } => NodeKind::Term,
            Token::Expression { .. } => NodeKind::Expression,
            Token::FunctionArgs { .. } => NodeKind::FunctionArgs,
            _ => NodeKind::Expression,
        }
    }
}

} // verus!
