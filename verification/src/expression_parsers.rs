//! Parser for `Expression`s: a `Term` (or a function definition) on the
//! left, then any number of operator-`Term` pairs, folded
//! left-associatively.

use vstd::prelude::*;

use crate::errors::ParseError;
use crate::factor_parsers::factor_fails;
use crate::factor_parsers::int_end;
use crate::factor_parsers::int_fits;
use crate::factor_parsers::int_matches;
use crate::factor_parsers::int_value;
use crate::function_parsers::fn_name_matches;
use crate::function_parsers::function;
use crate::lexical::ws_end;
use crate::operator_parsers::op_token;
use crate::operator_parsers::operator;
use crate::term_parsers::int_op_int_term;
use crate::term_parsers::lemma_op_is_operator;
use crate::term_parsers::lone_int_term;
use crate::term_parsers::term;
use crate::tokens::is_operator;
use crate::tokens::wf;
use crate::tokens::Token;

verus! {

/// Parser for a complete expression: `(Function | Term) (Operator Term)*`.
pub fn expression(s: &[u8], pos: usize) -> (r: Result<Option<(Token, usize)>, ParseError>)
    requires
        pos <= s@.len(),
    ensures
        r matches Ok(rr) ==> rr matches Some((t, e)) ==> pos < e <= s@.len() && t is Expression
            && wf(t),
        !fn_name_matches(s@, pos as int) && factor_fails(s@, pos as int) ==> r == Ok::<
            Option<(Token, usize)>,
            ParseError,
        >(None),
        !fn_name_matches(s@, pos as int) && int_matches(s@, pos as int) && !int_fits(
            s@,
            pos as int,
        ) ==> r == Err::<Option<(Token, usize)>, ParseError>(
            ParseError::IntegerOverflow { pos: ws_end(s@, pos as int) as usize },
        ),
        !fn_name_matches(s@, pos as int) && lone_int_term(s@, pos as int) ==> (r matches Ok(rr)
            && rr matches Some((t, e)) && e == int_end(s@, pos as int) && (t
            matches Token::Expression { left, right } && right@.len() == 0 && (*left
            matches Token::Term { left: tleft, right: tright } && tright@.len() == 0 && (*tleft
            matches Token::Factor { value } && *value == (Token::Integer {
            value: int_value(s@, pos as int) as i64,
        }))))),
        !fn_name_matches(s@, pos as int) && int_op_int_term(s@, pos as int) ==> (op_token(
            s@,
            ws_end(s@, int_end(s@, pos as int)),
        ) matches Some(opp) ==> (r matches Ok(rr) && rr matches Some((t, e)) && e == int_end(
            s@,
            opp.1,
        ) && (t matches Token::Expression { left, right } && right@.len() == 0 && (*left
            matches Token::Term { left: tleft, right: tright } && {
            &&& (*tleft matches Token::Factor { value } && *value == (Token::Integer {
                value: int_value(s@, pos as int) as i64,
            }))
            &&& tright@.len() == 1
            &&& tright@[0].0 == opp.0
            &&& (tright@[0].1 matches Token::Factor { value } && *value == (Token::Integer {
                value: int_value(s@, opp.1) as i64,
            }))
        })))),
    decreases s@.len() - pos, 7int,
{
    let (left, lend) = match function(s, pos) {
        Err(e) => {
            return Err(e);
        },
        Ok(Some(x)) => x,
        Ok(None) => {
            match term(s, pos) {
                Err(e) => {
                    return Err(e);
                },
                Ok(None) => {
                    return Ok(None);
                },
                Ok(Some(x)) => x,
            }
        },
    };
    let mut right: Vec<(Token, Token)> = Vec::new();
    let mut cur: usize = lend;
    loop
        invariant
            pos < cur <= s@.len(),
            pos <= s@.len(),
            !(!fn_name_matches(s@, pos as int) && factor_fails(s@, pos as int)),
            !(!fn_name_matches(s@, pos as int) && int_matches(s@, pos as int) && !int_fits(
                s@,
                pos as int,
            )),
            !fn_name_matches(s@, pos as int) && lone_int_term(s@, pos as int) ==> lend == int_end(
                s@,
                pos as int,
            ),
            !fn_name_matches(s@, pos as int) && int_op_int_term(s@, pos as int) ==> (op_token(
                s@,
                ws_end(s@, int_end(s@, pos as int)),
            ) matches Some(opp) ==> lend == int_end(s@, opp.1)),
            forall|i: int| 0 <= i < right@.len() ==> is_operator(#[trigger] right@[i].0),
            forall|i: int|
                0 <= i < right@.len() ==> (#[trigger] right@[i].1) is Term && wf(right@[i].1),
            op_token(s@, ws_end(s@, lend as int)) is None ==> cur == lend && right@.len() == 0,
        ensures
            pos < cur <= s@.len(),
            forall|i: int| 0 <= i < right@.len() ==> is_operator(#[trigger] right@[i].0),
            forall|i: int|
                0 <= i < right@.len() ==> (#[trigger] right@[i].1) is Term && wf(right@[i].1),
            op_token(s@, ws_end(s@, lend as int)) is None ==> cur == lend && right@.len() == 0,
        decreases s@.len() - cur,
    {
        match operator(s, cur) {
            None => {
                break;
            },
            Some((op, e1)) => {
                proof {
                    lemma_op_is_operator(s@, crate::lexical::ws_end(s@, cur as int));
                }
                match term(s, e1) {
                    Err(e) => {
                        return Err(e);
                    },
                    Ok(None) => {
                        break;
                    },
                    Ok(Some((t, e2))) => {
                        right.push((op, t));
                        cur = e2;
                    },
                }
            },
        }
    }
    Ok(Some((Token::Expression { left: Box::new(left), right }, cur)))
}

} // verus!
