//! Parsers for conditionals: `if <expr>:`, any number of `elif <expr>:`
//! blocks, and an optional `else:` catch-all, each followed by body
//! expressions.

use vstd::prelude::*;

use crate::bytes::vec2;
use crate::bytes::vec4;
use crate::bytes::vec5;
use crate::errors::ParseError;
use crate::expression_parsers::expression;
use crate::lexical::has_prefix_at;
use crate::lexical::kw_elif;
use crate::lexical::kw_if;
use crate::lexical::prefix_at;
use crate::lexical::skip_ws;
use crate::lexical::ws_end;
use crate::tokens::wf;
use crate::tokens::Token;

verus! {

/// Parses the expressions of a block body: zero or more.
fn block_body(s: &[u8], pos: usize) -> (r: Result<(Vec<Token>, usize), ParseError>)
    requires
        pos <= s@.len(),
    ensures
        (r matches Ok((body, e)) ==> pos <= e <= s@.len() && forall|i: int|
            0 <= i < body@.len() ==> (#[trigger] body@[i]) is Expression && wf(body@[i])),
{
    let mut body: Vec<Token> = Vec::new();
    let mut cur: usize = pos;
    loop
        invariant
            pos <= cur <= s@.len(),
            forall|i: int|
                0 <= i < body@.len() ==> (#[trigger] body@[i]) is Expression && wf(body@[i]),
        ensures
            pos <= cur <= s@.len(),
            forall|i: int|
                0 <= i < body@.len() ==> (#[trigger] body@[i]) is Expression && wf(body@[i]),
        decreases s@.len() - cur,
    {
        match expression(s, cur) {
            Err(e) => {
                return Err(e);
            },
            Ok(None) => {
                break;
            },
            Ok(Some((t, e))) => {
                body.push(t);
                cur = e;
            },
        }
    }
    Ok((body, cur))
}

/// Parses the start of an if block: `if <expr>:` and its body expressions.
pub fn if_block_start(s: &[u8], pos: usize) -> (r: Result<Option<(Token, usize)>, ParseError>)
    requires
        pos <= s@.len(),
    ensures
        !has_prefix_at(s@, ws_end(s@, pos as int), kw_if()) ==> r == Ok::<
            Option<(Token, usize)>,
            ParseError,
        >(None),
        r matches Ok(rr) ==> rr matches Some((t, e)) ==> pos < e <= s@.len() && t is If && wf(t),
{
    let n: usize = s.len();
    let p = skip_ws(s, pos);
    if !prefix_at(s, p, vec2(105, 102).as_slice()) {
        return Ok(None);
    }
    proof {
        assert(p + 2 <= n);
    }
    let (expr, e1) = match expression(s, p + 2) {
        Err(e) => {
            return Err(e);
        },
        Ok(None) => {
            return Ok(None);
        },
        Ok(Some(x)) => x,
    };
    let c = skip_ws(s, e1);
    if !(c < s.len() && s[c] == 58) {
        return Ok(None);
    }
    let (body, e2) = match block_body(s, c + 1) {
        Err(e) => {
            return Err(e);
        },
        Ok(x) => x,
    };
    Ok(Some((Token::If { expr: Box::new(expr), body }, e2)))
}

/// Parses an elif block: `elif <expr>:` and its body expressions.
pub fn elif_block(s: &[u8], pos: usize) -> (r: Result<Option<(Token, usize)>, ParseError>)
    requires
        pos <= s@.len(),
    ensures
        !has_prefix_at(s@, ws_end(s@, pos as int), kw_elif()) ==> r == Ok::<
            Option<(Token, usize)>,
            ParseError,
        >(None),
        r matches Ok(rr) ==> rr matches Some((t, e)) ==> pos < e <= s@.len() && t is Elif && wf(t),
{
    let n: usize = s.len();
    let p = skip_ws(s, pos);
    if !prefix_at(s, p, vec4(101, 108, 105, 102).as_slice()) {
        return Ok(None);
    }
    proof {
        assert(p + 4 <= n);
    }
    let (expr, e1) = match expression(s, p + 4) {
        Err(e) => {
            return Err(e);
        },
        Ok(None) => {
            return Ok(None);
        },
        Ok(Some(x)) => x,
    };
    let c = skip_ws(s, e1);
    if !(c < s.len() && s[c] == 58) {
        return Ok(None);
    }
    let (body, e2) = match block_body(s, c + 1) {
        Err(e) => {
            return Err(e);
        },
        Ok(x) => x,
    };
    Ok(Some((Token::Elif { expr: Box::new(expr), body }, e2)))
}

/// Parses an else block: `else:` and its body expressions.
pub fn else_block(s: &[u8], pos: usize) -> (r: Result<Option<(Token, usize)>, ParseError>)
    requires
        pos <= s@.len(),
    ensures
        !has_prefix_at(s@, ws_end(s@, pos as int), seq![101u8, 108u8, 115u8, 101u8, 58u8]) ==> r
            == Ok::<Option<(Token, usize)>, ParseError>(None),
        r matches Ok(rr) ==> rr matches Some((t, e)) ==> pos < e <= s@.len() && t is Else && wf(t),
{
    let n: usize = s.len();
    let p = skip_ws(s, pos);
    if !prefix_at(s, p, vec5(101, 108, 115, 101, 58).as_slice()) {
        return Ok(None);
    }
    proof {
        assert(p + 5 <= n);
    }
    let (body, e2) = match block_body(s, p + 5) {
        Err(e) => {
            return Err(e);
        },
        Ok(x) => x,
    };
    Ok(Some((Token::Else { body }, e2)))
}

} // verus!
