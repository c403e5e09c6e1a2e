//! Parser for `Term`s: a `Factor` on the left, then any number of
//! operator-`Factor` pairs, folded left-associatively.

use vstd::prelude::*;

use crate::errors::ParseError;
use crate::factor_parsers::factor;
use crate::factor_parsers::factor_fails;
use crate::factor_parsers::int_end;
use crate::factor_parsers::int_fits;
use crate::factor_parsers::int_matches;
use crate::factor_parsers::int_value;
use crate::lexical::ws_end;
use crate::operator_parsers::op_token;
use crate::operator_parsers::operator;
use crate::tokens::is_operator;
use crate::tokens::wf;
use crate::tokens::Token;

verus! {

/// A lone integer-literal term: an integer literal with no operator after
/// it.
pub open spec fn lone_int_term(s: Seq<u8>, pos: int) -> bool {
    int_matches(s, pos) && int_fits(s, pos) && op_token(s, ws_end(s, int_end(s, pos))) is None
}

/// An integer literal, one operator, a second integer literal, and no
/// further operator: the smallest operator chain.
pub open spec fn int_op_int_term(s: Seq<u8>, pos: int) -> bool {
    int_matches(s, pos) && int_fits(s, pos) && (match op_token(s, ws_end(s, int_end(s, pos))) {
        Some((op, p2)) => int_matches(s, p2) && int_fits(s, p2) && op_token(
            s,
            ws_end(s, int_end(s, p2)),
        ) is None,
        None => false,
    })
}

/// An operator the operator parser recognized really is an operator node.
pub proof fn lemma_op_is_operator(s: Seq<u8>, p: int)
    ensures
        (crate::operator_parsers::op_token(s, p) matches Some(te) ==> is_operator(te.0)),
{
}

/// Parser for a `Term`: a left `Factor`, then `(Operator Factor)*`. Both
/// expression tiers accept the same operator set; only nesting depth
/// separates them.
pub fn term(s: &[u8], pos: usize) -> (r: Result<Option<(Token, usize)>, ParseError>)
    requires
        pos <= s@.len(),
    ensures
        r matches Ok(rr) ==> rr matches Some((t, e)) ==> pos < e <= s@.len() && t is Term && wf(
            t,
        ),
        factor_fails(s@, pos as int) ==> r == Ok::<Option<(Token, usize)>, ParseError>(None),
        int_matches(s@, pos as int) && !int_fits(s@, pos as int) ==> r == Err::<
            Option<(Token, usize)>,
            ParseError,
        >(ParseError::IntegerOverflow { pos: ws_end(s@, pos as int) as usize }),
        lone_int_term(s@, pos as int) ==> (r matches Ok(rr) && rr matches Some((t, e)) && e
            == int_end(s@, pos as int) && (t matches Token::Term { left, right } && right@.len()
            == 0 && (*left matches Token::Factor { value } && *value == (Token::Integer {
            value: int_value(s@, pos as int) as i64,
        })))),
        int_op_int_term(s@, pos as int) ==> (op_token(
            s@,
            ws_end(s@, int_end(s@, pos as int)),
        ) matches Some(opp) ==> (r matches Ok(rr) && rr matches Some((t, e)) && e == int_end(
            s@,
            opp.1,
        ) && (t matches Token::Term { left, right } && {
            &&& (*left matches Token::Factor { value } && *value == (Token::Integer {
                value: int_value(s@, pos as int) as i64,
            }))
            &&& right@.len() == 1
            &&& right@[0].0 == opp.0
            &&& (right@[0].1 matches Token::Factor { value } && *value == (Token::Integer {
                value: int_value(s@, opp.1) as i64,
            }))
        }))),
    decreases s@.len() - pos, 5int,
{
    let (left, lend) = match factor(s, pos) {
        Err(e) => {
            return Err(e);
        },
        Ok(None) => {
            return Ok(None);
        },
        Ok(Some(x)) => x,
    };
    let mut right: Vec<(Token, Token)> = Vec::new();
    let mut cur: usize = lend;
    loop
        invariant
            pos < cur <= s@.len(),
            pos <= s@.len(),
            !factor_fails(s@, pos as int),
            !(int_matches(s@, pos as int) && !int_fits(s@, pos as int)),
            int_matches(s@, pos as int) && int_fits(s@, pos as int) ==> lend == int_end(
                s@,
                pos as int,
            ),
            forall|i: int| 0 <= i < right@.len() ==> is_operator(#[trigger] right@[i].0),
            forall|i: int|
                0 <= i < right@.len() ==> (#[trigger] right@[i].1) is Factor && wf(right@[i].1),
            op_token(s@, ws_end(s@, lend as int)) is None ==> cur == lend && right@.len() == 0,
            op_token(s@, ws_end(s@, lend as int)) matches Some(opp) ==> (int_matches(s@, opp.1)
                && int_fits(s@, opp.1) && op_token(s@, ws_end(s@, int_end(s@, opp.1))) is None
                ==> ((cur == lend && right@.len() == 0) || (cur == int_end(s@, opp.1)
                && right@.len() == 1 && right@[0].0 == opp.0 && (right@[0].1
                matches Token::Factor { value } && *value == (Token::Integer {
                value: int_value(s@, opp.1) as i64,
            }))))),
        ensures
            pos < cur <= s@.len(),
            forall|i: int| 0 <= i < right@.len() ==> is_operator(#[trigger] right@[i].0),
            forall|i: int|
                0 <= i < right@.len() ==> (#[trigger] right@[i].1) is Factor && wf(right@[i].1),
            op_token(s@, ws_end(s@, lend as int)) is None ==> cur == lend && right@.len() == 0,
            op_token(s@, ws_end(s@, lend as int)) matches Some(opp) ==> (int_matches(s@, opp.1)
                && int_fits(s@, opp.1) && op_token(s@, ws_end(s@, int_end(s@, opp.1))) is None
                ==> (cur == int_end(s@, opp.1) && right@.len() == 1 && right@[0].0 == opp.0 && (
                right@[0].1 matches Token::Factor { value } && *value == (Token::Integer {
                    value: int_value(s@, opp.1) as i64,
                })))),
        decreases s@.len() - cur,
    {
        match operator(s, cur) {
            None => {
                break;
            },
            Some((op, e1)) => {
                proof {
                    lemma_op_is_operator(s@, crate::lexical::ws_end(s@, cur as int));
                }
                match factor(s, e1) {
                    Err(e) => {
                        return Err(e);
                    },
                    Ok(None) => {
                        break;
                    },
                    Ok(Some((f, e2))) => {
                        right.push((op, f));
                        cur = e2;
                    },
                }
            },
        }
    }
    Ok(Some((Token::Term { left: Box::new(left), right }, cur)))
}

} // verus!
