//! The topmost parser: a program is one or more expressions, and `parse`
//! demands that they cover the whole input.

use vstd::prelude::*;

use crate::errors::ParseError;
use crate::expression_parsers::expression;
use crate::factor_parsers::factor_fails;
use crate::factor_parsers::int_end;
use crate::factor_parsers::int_fits;
use crate::factor_parsers::int_matches;
use crate::factor_parsers::int_value;
use crate::function_parsers::fn_name_matches;
use crate::lexical::skip_ws;
use crate::lexical::ws_end;
use crate::operator_parsers::op_token;
use crate::term_parsers::int_op_int_term;
use crate::term_parsers::lone_int_term;
use crate::tokens::wf;
use crate::tokens::Token;

verus! {

/// At a position where only whitespace remains, no production can start.
pub proof fn lemma_nothing_at_ws_tail(s: Seq<u8>, p: int)
    requires
        0 <= p <= s.len(),
        ws_end(s, p) == s.len(),
    ensures
        !fn_name_matches(s, p),
        factor_fails(s, p),
{
    assert(crate::lexical::digits_end(s, s.len() as int) == s.len());
    assert(crate::lexical::alnum_end(s, s.len() as int) == s.len());
    assert(!crate::lexical::has_prefix_at(s, s.len() as int, crate::lexical::kw_def()));
}

/// The node `t` is the expression tree of a lone integer literal read at
/// `pos` of `s`.
pub open spec fn is_lone_int_expression(t: Token, s: Seq<u8>, pos: int) -> bool {
    t matches Token::Expression { left, right } && right@.len() == 0 && (*left
        matches Token::Term { left: tleft, right: tright } && tright@.len() == 0 && (*tleft
        matches Token::Factor { value } && *value == (Token::Integer {
        value: int_value(s, pos) as i64,
    })))
}

/// The node `t` is the expression tree of `<int> <op> <int>` read at `pos`
/// of `s`, with `opp` the operator and the second literal's position.
pub open spec fn is_int_op_int_expression(t: Token, s: Seq<u8>, pos: int, opp: (Token, int)) -> bool {
    t matches Token::Expression { left, right } && right@.len() == 0 && (*left
        matches Token::Term { left: tleft, right: tright } && {
        &&& (*tleft matches Token::Factor { value } && *value == (Token::Integer {
            value: int_value(s, pos) as i64,
        }))
        &&& tright@.len() == 1
        &&& tright@[0].0 == opp.0
        &&& (tright@[0].1 matches Token::Factor { value } && *value == (Token::Integer {
            value: int_value(s, opp.1) as i64,
        }))
    })
}

/// Parser for an entire program: one or more expressions. A success always
/// carries at least one expression.
pub fn program(s: &[u8], pos: usize) -> (r: Result<Option<(Token, usize)>, ParseError>)
    requires
        pos <= s@.len(),
    ensures
        r matches Ok(rr) ==> rr matches Some((t, e)) ==> pos < e <= s@.len() && t is Program
            && wf(t) && (t matches Token::Program { expressions } && expressions@.len() >= 1),
        !fn_name_matches(s@, pos as int) && factor_fails(s@, pos as int) ==> r == Ok::<
            Option<(Token, usize)>,
            ParseError,
        >(None),
        !fn_name_matches(s@, pos as int) && int_matches(s@, pos as int) && !int_fits(
            s@,
            pos as int,
        ) ==> r == Err::<Option<(Token, usize)>, ParseError>(
            ParseError::IntegerOverflow { pos: ws_end(s@, pos as int) as usize },
        ),
        !fn_name_matches(s@, pos as int) && lone_int_term(s@, pos as int) && ws_end(
            s@,
            int_end(s@, pos as int),
        ) == s@.len() ==> (r matches Ok(rr) && rr matches Some((t, e)) && e == int_end(
            s@,
            pos as int,
        ) && (t matches Token::Program { expressions } && expressions@.len() == 1
            && is_lone_int_expression(expressions@[0], s@, pos as int))),
        !fn_name_matches(s@, pos as int) && int_op_int_term(s@, pos as int) ==> (op_token(
            s@,
            ws_end(s@, int_end(s@, pos as int)),
        ) matches Some(opp) ==> (ws_end(s@, int_end(s@, opp.1)) == s@.len() ==> (r matches Ok(rr)
            && rr matches Some((t, e)) && e == int_end(s@, opp.1) && (t matches Token::Program {
            expressions,
        } && expressions@.len() == 1 && is_int_op_int_expression(
            expressions@[0],
            s@,
            pos as int,
            opp,
        ))))),
{
    let (first, fe) = match expression(s, pos) {
        Err(e) => {
            return Err(e);
        },
        Ok(None) => {
            return Ok(None);
        },
        Ok(Some(x)) => x,
    };
    let ghost firstg = first;
    let mut expressions: Vec<Token> = Vec::new();
    expressions.push(first);
    let mut cur: usize = fe;
    loop
        invariant
            pos < cur <= s@.len(),
            pos <= s@.len(),
            !(!fn_name_matches(s@, pos as int) && factor_fails(s@, pos as int)),
            !(!fn_name_matches(s@, pos as int) && int_matches(s@, pos as int) && !int_fits(
                s@,
                pos as int,
            )),
            expressions@.len() >= 1,
            !fn_name_matches(s@, pos as int) && lone_int_term(s@, pos as int) ==> fe == int_end(
                s@,
                pos as int,
            ),
            !fn_name_matches(s@, pos as int) && int_op_int_term(s@, pos as int) ==> (op_token(
                s@,
                ws_end(s@, int_end(s@, pos as int)),
            ) matches Some(opp) ==> fe == int_end(s@, opp.1)),
            forall|i: int|
                0 <= i < expressions@.len() ==> (#[trigger] expressions@[i]) is Expression && wf(
                    expressions@[i],
                ),
            ws_end(s@, fe as int) == s@.len() ==> (cur == fe && expressions@.len() == 1
                && expressions@[0] == firstg),
        ensures
            pos < cur <= s@.len(),
            expressions@.len() >= 1,
            forall|i: int|
                0 <= i < expressions@.len() ==> (#[trigger] expressions@[i]) is Expression && wf(
                    expressions@[i],
                ),
            ws_end(s@, fe as int) == s@.len() ==> (cur == fe && expressions@.len() == 1
                && expressions@[0] == firstg),
        decreases s@.len() - cur,
    {
        proof {
            if ws_end(s@, fe as int) == s@.len() {
                lemma_nothing_at_ws_tail(s@, cur as int);
            }
        }
        match expression(s, cur) {
            Err(e) => {
                return Err(e);
            },
            Ok(None) => {
                break;
            },
            Ok(Some((t, e))) => {
                expressions.push(t);
                cur = e;
            },
        }
    }
    Ok(Some((Token::Program { expressions }, cur)))
}

/// Parses a whole source text into a `Program`-rooted tree. Anything short
/// of a full parse - no expression at all, or bytes left over after the
/// last one - is a syntax error at the position where parsing stopped;
/// never a partially built tree presented as success.
pub fn parse(s: &[u8]) -> (r: Result<Token, ParseError>)
    ensures
        (r matches Ok(t) ==> t is Program && wf(t) && (t matches Token::Program { expressions }
            && expressions@.len() >= 1)),
        !fn_name_matches(s@, 0) && factor_fails(s@, 0) ==> r == Err::<Token, ParseError>(
            ParseError::Syntax { pos: ws_end(s@, 0) as usize },
        ),
        !fn_name_matches(s@, 0) && int_matches(s@, 0) && !int_fits(s@, 0) ==> r == Err::<
            Token,
            ParseError,
        >(ParseError::IntegerOverflow { pos: ws_end(s@, 0) as usize }),
        !fn_name_matches(s@, 0) && lone_int_term(s@, 0) && ws_end(s@, int_end(s@, 0)) == s@.len()
            ==> (r matches Ok(t) && (t matches Token::Program { expressions }
            && expressions@.len() == 1 && is_lone_int_expression(expressions@[0], s@, 0))),
        !fn_name_matches(s@, 0) && int_op_int_term(s@, 0) ==> (op_token(
            s@,
            ws_end(s@, int_end(s@, 0)),
        ) matches Some(opp) ==> (ws_end(s@, int_end(s@, opp.1)) == s@.len() ==> (r matches Ok(t)
            && (t matches Token::Program { expressions } && expressions@.len() == 1
            && is_int_op_int_expression(expressions@[0], s@, 0, opp))))),
{
    match program(s, 0) {
        Err(e) => Err(e),
        Ok(None) => {
            let p = skip_ws(s, 0);
            Err(ParseError::Syntax { pos: p })
        },
        Ok(Some((t, e))) => {
            let p = skip_ws(s, e);
            if p == s.len() {
                Ok(t)
            } else {
                Err(ParseError::Syntax { pos: p })
            }
        },
    }
}

} // verus!
