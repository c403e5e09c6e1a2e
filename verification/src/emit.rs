//! The shapes of the emitted instruction text, and verified builders for
//! them.
//!
//! Instructions are lines of ASCII bytes using the mnemonic set `LOAD, ADD,
//! SUB, MUL, DIV, GT, LT, GTE, LTE, EQ, AND, OR, NOT, PUSH, CALL, RET, HLT`,
//! with register operands written `$<n>`, immediates `#<value>`, and call
//! targets `@<name>`.

use vstd::prelude::*;

use crate::bytes::dec_int;
use crate::bytes::dec_nat;
use crate::bytes::push_dec_i64;
use crate::bytes::push_dec_u64;
use crate::tokens::Token;

verus! {

/// The binary-operator nodes: two operand registers, one destination.
pub open spec fn is_binop(t: Token) -> bool {
    ||| t is AdditionOperator
    ||| t is SubtractionOperator
    ||| t is MultiplicationOperator
    ||| t is DivisionOperator
    ||| t is GreaterThan
    ||| t is LessThan
    ||| t is GreaterThanOrEqual
    ||| t is LessThanOrEqual
    ||| t is EqualTo
    ||| t is LogicalAnd
    ||| t is LogicalOr
}

/// The opcode text of a binary-operator node.
pub open spec fn mnemonic_of(t: Token) -> Seq<u8> {
    match t {
        Token::AdditionOperator => seq![65u8, 68u8, 68u8],  // ADD
        Token::SubtractionOperator => seq![83u8, 85u8, 66u8],  // SUB
        Token::MultiplicationOperator => seq![77u8, 85u8, 76u8],  // MUL
        Token::DivisionOperator => seq![68u8, 73u8, 86u8],  // DIV
        Token::GreaterThan => seq![71u8, 84u8],  // GT
        Token::LessThan => seq![76u8, 84u8],  // LT
        Token::GreaterThanOrEqual => seq![71u8, 84u8, 69u8],  // GTE
        Token::LessThanOrEqual => seq![76u8, 84u8, 69u8],  // LTE
        Token::EqualTo => seq![69u8, 81u8],  // EQ
        Token::LogicalAnd => seq![65u8, 78u8, 68u8],  // AND
        Token::LogicalOr => seq![79u8, 82u8],  // OR
        _ => Seq::empty(),
    }
}

/// A space followed by a register sigil: `" $"`.
pub open spec fn sp_dollar() -> Seq<u8> {
    seq![32u8, 36u8]
}

/// `<op> $<l> $<r> $<d>`.
pub open spec fn binop_line(m: Seq<u8>, l: u8, r: u8, d: u8) -> Seq<u8> {
    m + sp_dollar() + dec_nat(l as int) + sp_dollar() + dec_nat(r as int) + sp_dollar() + dec_nat(
        d as int,
    )
}

/// `NOT $<a> $<d>`.
pub open spec fn not_line(a: u8, d: u8) -> Seq<u8> {
    seq![78u8, 79u8, 84u8] + sp_dollar() + dec_nat(a as int) + sp_dollar() + dec_nat(d as int)
}

/// `LOAD $<reg> #<v>`.
pub open spec fn load_int_line(reg: u8, v: int) -> Seq<u8> {
    seq![76u8, 79u8, 65u8, 68u8] + sp_dollar() + dec_nat(reg as int) + seq![32u8, 35u8] + dec_int(v)
}

/// `LOAD $<reg> #<text>`: the immediate is literal text (a float literal).
pub open spec fn load_text_line(reg: u8, text: Seq<u8>) -> Seq<u8> {
    seq![76u8, 79u8, 65u8, 68u8] + sp_dollar() + dec_nat(reg as int) + seq![32u8, 35u8] + text
}

/// `PUSH $<reg>`.
pub open spec fn push_line(reg: u8) -> Seq<u8> {
    seq![80u8, 85u8, 83u8, 72u8] + sp_dollar() + dec_nat(reg as int)
}

/// `CALL @<name>`.
pub open spec fn call_line(name: Seq<u8>) -> Seq<u8> {
    seq![67u8, 65u8, 76u8, 76u8, 32u8, 64u8] + name
}

/// `<name>:`.
pub open spec fn label_line(name: Seq<u8>) -> Seq<u8> {
    name + seq![58u8]
}

/// `RET`.
pub open spec fn ret_line() -> Seq<u8> {
    seq![82u8, 69u8, 84u8]
}

/// `HLT`.
pub open spec fn hlt_line() -> Seq<u8> {
    seq![72u8, 76u8, 84u8]
}

/// `.data`.
pub open spec fn data_line() -> Seq<u8> {
    seq![46u8, 100u8, 97u8, 116u8, 97u8]
}

/// `.code`.
pub open spec fn code_line() -> Seq<u8> {
    seq![46u8, 99u8, 111u8, 100u8, 101u8]
}

/// Appends the opcode text of a binary-operator node.
fn push_mnemonic(out: &mut Vec<u8>, node: &Token)
    requires
        is_binop(*node),
    ensures
        final(out)@ == old(out)@ + mnemonic_of(*node),
{
    match node {
        Token::AdditionOperator => {
            out.push(65);
            out.push(68);
            out.push(68);
        },
        Token::SubtractionOperator => {
            out.push(83);
            out.push(85);
            out.push(66);
        },
        Token::MultiplicationOperator => {
            out.push(77);
            out.push(85);
            out.push(76);
        },
        Token::DivisionOperator => {
            out.push(68);
            out.push(73);
            out.push(86);
        },
        Token::GreaterThan => {
            out.push(71);
            out.push(84);
        },
        Token::LessThan => {
            out.push(76);
            out.push(84);
        },
        Token::GreaterThanOrEqual => {
            out.push(71);
            out.push(84);
            out.push(69);
        },
        Token::LessThanOrEqual => {
            out.push(76);
            out.push(84);
            out.push(69);
        },
        Token::EqualTo => {
            out.push(69);
            out.push(81);
        },
        Token::LogicalAnd => {
            out.push(65);
            out.push(78);
            out.push(68);
        },
        _ => {
            out.push(79);
            out.push(82);
        },
    }
    proof {
        assert(out@ =~= old(out)@ + mnemonic_of(*node));
    }
}

/// Appends `" $"` and the decimal digits of a register number.
fn push_reg(out: &mut Vec<u8>, reg: u8)
    ensures
        final(out)@ == old(out)@ + sp_dollar() + dec_nat(reg as int),
{
    out.push(32);
    out.push(36);
    push_dec_u64(out, reg as u64);
    proof {
        assert(out@ =~= old(out)@ + sp_dollar() + dec_nat(reg as int));
    }
}

/// Builds `<op> $<l> $<r> $<d>` for a binary-operator node.
pub fn line_binop(node: &Token, l: u8, r: u8, d: u8) -> (out: Vec<u8>)
    requires
        is_binop(*node),
    ensures
        out@ == binop_line(mnemonic_of(*node), l, r, d),
{
    let mut out: Vec<u8> = Vec::new();
    push_mnemonic(&mut out, node);
    push_reg(&mut out, l);
    push_reg(&mut out, r);
    push_reg(&mut out, d);
    proof {
        assert(out@ =~= binop_line(mnemonic_of(*node), l, r, d));
    }
    out
}

/// Builds `NOT $<a> $<d>`.
pub fn line_not(a: u8, d: u8) -> (out: Vec<u8>)
    ensures
        out@ == not_line(a, d),
{
    let mut out: Vec<u8> = Vec::new();
    out.push(78);
    out.push(79);
    out.push(84);
    push_reg(&mut out, a);
    push_reg(&mut out, d);
    proof {
        assert(out@ =~= not_line(a, d));
    }
    out
}

/// Appends `LOAD $<reg> #`.
fn push_load_prefix(out: &mut Vec<u8>, reg: u8)
    ensures
        final(out)@ == old(out)@ + seq![76u8, 79u8, 65u8, 68u8] + sp_dollar() + dec_nat(reg as int)
            + seq![32u8, 35u8],
{
    out.push(76);
    out.push(79);
    out.push(65);
    out.push(68);
    push_reg(out, reg);
    out.push(32);
    out.push(35);
    proof {
        assert(out@ =~= old(out)@ + seq![76u8, 79u8, 65u8, 68u8] + sp_dollar() + dec_nat(
            reg as int,
        ) + seq![32u8, 35u8]);
    }
}

/// Builds `LOAD $<reg> #<v>`.
pub fn line_load_int(reg: u8, v: i64) -> (out: Vec<u8>)
    ensures
        out@ == load_int_line(reg, v as int),
{
    let mut out: Vec<u8> = Vec::new();
    push_load_prefix(&mut out, reg);
    push_dec_i64(&mut out, v);
    proof {
        assert(out@ =~= load_int_line(reg, v as int));
    }
    out
}

/// Builds `LOAD $<reg> #<text>`.
pub fn line_load_text(reg: u8, text: &[u8]) -> (out: Vec<u8>)
    ensures
        out@ == load_text_line(reg, text@),
{
    let mut out: Vec<u8> = Vec::new();
    push_load_prefix(&mut out, reg);
    crate::bytes::push_all(&mut out, text);
    proof {
        assert(out@ =~= load_text_line(reg, text@));
    }
    out
}

/// Builds `PUSH $<reg>`.
pub fn line_push(reg: u8) -> (out: Vec<u8>)
    ensures
        out@ == push_line(reg),
{
    let mut out: Vec<u8> = Vec::new();
    out.push(80);
    out.push(85);
    out.push(83);
    out.push(72);
    push_reg(&mut out, reg);
    proof {
        assert(out@ =~= push_line(reg));
    }
    out
}

/// Builds `CALL @<name>`.
pub fn line_call(name: &[u8]) -> (out: Vec<u8>)
    ensures
        out@ == call_line(name@),
{
    let mut out: Vec<u8> = Vec::new();
    out.push(67);
    out.push(65);
    out.push(76);
    out.push(76);
    out.push(32);
    out.push(64);
    crate::bytes::push_all(&mut out, name);
    proof {
        assert(out@ =~= call_line(name@));
    }
    out
}

/// Builds `<name>:`.
pub fn line_label(name: &[u8]) -> (out: Vec<u8>)
    ensures
        out@ == label_line(name@),
{
    let mut out: Vec<u8> = Vec::new();
    crate::bytes::push_all(&mut out, name);
    out.push(58);
    proof {
        assert(out@ =~= label_line(name@));
    }
    out
}

/// Builds `RET`.
pub fn line_ret() -> (out: Vec<u8>)
    ensures
        out@ == ret_line(),
{
    let mut out: Vec<u8> = Vec::new();
    out.push(82);
    out.push(69);
    out.push(84);
    proof {
        assert(out@ =~= ret_line());
    }
    out
}

/// Builds `HLT`.
pub fn line_hlt() -> (out: Vec<u8>)
    ensures
        out@ == hlt_line(),
{
    let mut out: Vec<u8> = Vec::new();
    out.push(72);
    out.push(76);
    out.push(84);
    proof {
        assert(out@ =~= hlt_line());
    }
    out
}

/// Builds `.data`.
pub fn line_data() -> (out: Vec<u8>)
    ensures
        out@ == data_line(),
{
    let mut out: Vec<u8> = Vec::new();
    out.push(46);
    out.push(100);
    out.push(97);
    out.push(116);
    out.push(97);
    proof {
        assert(out@ =~= data_line());
    }
    out
}

/// Builds `.code`.
pub fn line_code() -> (out: Vec<u8>)
    ensures
        out@ == code_line(),
{
    let mut out: Vec<u8> = Vec::new();
    out.push(46);
    out.push(99);
    out.push(111);
    out.push(100);
    out.push(101);
    proof {
        assert(out@ =~= code_line());
    }
    out
}

} // verus!
