//! The operator recognizer.
//!
//! Ordered alternation over the operator texts, longest multi-byte words
//! first: `not`, `or`, `and`, `<=`, `>=`, `==`, `+`, `-`, `*`, `/`, `>`,
//! `<`, `=`. The first text found at the position wins.

use vstd::prelude::*;

use crate::bytes::vec1;
use crate::bytes::vec2;
use crate::bytes::vec3;
use crate::lexical::has_prefix_at;
use crate::lexical::prefix_at;
use crate::lexical::skip_ws;
use crate::lexical::ws_end;
use crate::tokens::Token;

verus! {

/// The operator found at position `p` (whitespace already skipped), with the
/// position just past it: the ordered alternation of the grammar.
pub open spec fn op_token(s: Seq<u8>, p: int) -> Option<(Token, int)> {
    if has_prefix_at(s, p, seq![110u8, 111u8, 116u8]) {
        Some((Token::LogicalNot, p + 3))
    } else if has_prefix_at(s, p, seq![111u8, 114u8]) {
        Some((Token::LogicalOr, p + 2))
    } else if has_prefix_at(s, p, seq![97u8, 110u8, 100u8]) {
        Some((Token::LogicalAnd, p + 3))
    } else if has_prefix_at(s, p, seq![60u8, 61u8]) {
        Some((Token::LessThanOrEqual, p + 2))
    } else if has_prefix_at(s, p, seq![62u8, 61u8]) {
        Some((Token::GreaterThanOrEqual, p + 2))
    } else if has_prefix_at(s, p, seq![61u8, 61u8]) {
        Some((Token::EqualTo, p + 2))
    } else if has_prefix_at(s, p, seq![43u8]) {
        Some((Token::AdditionOperator, p + 1))
    } else if has_prefix_at(s, p, seq![45u8]) {
        Some((Token::SubtractionOperator, p + 1))
    } else if has_prefix_at(s, p, seq![42u8]) {
        Some((Token::MultiplicationOperator, p + 1))
    } else if has_prefix_at(s, p, seq![47u8]) {
        Some((Token::DivisionOperator, p + 1))
    } else if has_prefix_at(s, p, seq![62u8]) {
        Some((Token::GreaterThan, p + 1))
    } else if has_prefix_at(s, p, seq![60u8]) {
        Some((Token::LessThan, p + 1))
    } else if has_prefix_at(s, p, seq![61u8]) {
        Some((Token::Assignment, p + 1))
    } else {
        None
    }
}

/// Recognizes one operator after optional whitespace.
pub fn operator(s: &[u8], pos: usize) -> (r: Option<(Token, usize)>)
    requires
        pos <= s@.len(),
    ensures
        r is Some <==> op_token(s@, ws_end(s@, pos as int)) is Some,
        (r matches Some((t, e)) ==> op_token(s@, ws_end(s@, pos as int)) == Some((t, e as int))
            && pos < e <= s@.len()),
{
    let n: usize = s.len();
    let p = skip_ws(s, pos);
    if prefix_at(s, p, vec3(110, 111, 116).as_slice()) {
        Some((Token::LogicalNot, p + 3))
    } else if prefix_at(s, p, vec2(111, 114).as_slice()) {
        Some((Token::LogicalOr, p + 2))
    } else if prefix_at(s, p, vec3(97, 110, 100).as_slice()) {
        Some((Token::LogicalAnd, p + 3))
    } else if prefix_at(s, p, vec2(60, 61).as_slice()) {
        Some((Token::LessThanOrEqual, p + 2))
    } else if prefix_at(s, p, vec2(62, 61).as_slice()) {
        Some((Token::GreaterThanOrEqual, p + 2))
    } else if prefix_at(s, p, vec2(61, 61).as_slice()) {
        Some((Token::EqualTo, p + 2))
    } else if prefix_at(s, p, vec1(43).as_slice()) {
        Some((Token::AdditionOperator, p + 1))
    } else if prefix_at(s, p, vec1(45).as_slice()) {
        Some((Token::SubtractionOperator, p + 1))
    } else if prefix_at(s, p, vec1(42).as_slice()) {
        Some((Token::MultiplicationOperator, p + 1))
    } else if prefix_at(s, p, vec1(47).as_slice()) {
        Some((Token::DivisionOperator, p + 1))
    } else if prefix_at(s, p, vec1(62).as_slice()) {
        Some((Token::GreaterThan, p + 1))
    } else if prefix_at(s, p, vec1(60).as_slice()) {
        Some((Token::LessThan, p + 1))
    } else if prefix_at(s, p, vec1(61).as_slice()) {
        Some((Token::Assignment, p + 1))
    } else {
        None
    }
}

} // verus!
