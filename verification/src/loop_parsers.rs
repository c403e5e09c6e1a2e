//! Parsers for loops: a `for <name> in <collection>:` loop over a
//! collection, and a `while <expr>:` loop.

use vstd::prelude::*;

use crate::bytes::copy_range;
use crate::bytes::vec2;
use crate::bytes::vec3;
use crate::bytes::vec5;
use crate::errors::ParseError;
use crate::expression_parsers::expression;
use crate::lexical::has_prefix_at;
use crate::lexical::prefix_at;
use crate::lexical::scan_alnum;
use crate::lexical::skip_ws;
use crate::lexical::ws_end;
use crate::tokens::wf;
use crate::tokens::Token;

verus! {

/// Parses the expressions of a loop body: zero or more.
fn loop_body_expressions(s: &[u8], pos: usize) -> (r: Result<(Vec<Token>, usize), ParseError>)
    requires
        pos <= s@.len(),
    ensures
        (r matches Ok((body, e)) ==> pos <= e <= s@.len() && forall|i: int|
            0 <= i < body@.len() ==> (#[trigger] body@[i]) is Expression && wf(body@[i])),
{
    let mut body: Vec<Token> = Vec::new();
    let mut cur: usize = pos;
    loop
        invariant
            pos <= cur <= s@.len(),
            forall|i: int|
                0 <= i < body@.len() ==> (#[trigger] body@[i]) is Expression && wf(body@[i]),
        ensures
            pos <= cur <= s@.len(),
            forall|i: int|
                0 <= i < body@.len() ==> (#[trigger] body@[i]) is Expression && wf(body@[i]),
        decreases s@.len() - cur,
    {
        match expression(s, cur) {
            Err(e) => {
                return Err(e);
            },
            Ok(None) => {
                break;
            },
            Ok(Some((t, e))) => {
                body.push(t);
                cur = e;
            },
        }
    }
    Ok((body, cur))
}

/// Parses a for loop's start: `for <name> in <collection>:`.
pub fn for_loop_start(s: &[u8], pos: usize) -> (r: Option<(Token, usize)>)
    requires
        pos <= s@.len(),
    ensures
        !has_prefix_at(s@, ws_end(s@, pos as int), seq![102u8, 111u8, 114u8]) ==> r is None,
        (r matches Some((t, e)) ==> pos < e <= s@.len() && t is ForLoopStart && wf(t)),
{
    let n: usize = s.len();
    let p = skip_ws(s, pos);
    if !prefix_at(s, p, vec3(102, 111, 114).as_slice()) {
        return None;
    }
    proof {
        assert(p + 3 <= n);
    }
    let v_start = skip_ws(s, p + 3);
    let v_end = scan_alnum(s, v_start);
    if v_end == v_start {
        return None;
    }
    let w = skip_ws(s, v_end);
    if !prefix_at(s, w, vec2(105, 110).as_slice()) {
        return None;
    }
    proof {
        assert(w + 2 <= n);
    }
    let c_start = skip_ws(s, w + 2);
    let c_end = scan_alnum(s, c_start);
    if c_end == c_start {
        return None;
    }
    let colon = skip_ws(s, c_end);
    if !(colon < s.len() && s[colon] == 58) {
        return None;
    }
    let variable_name = copy_range(s, v_start, v_end);
    let collection_name = copy_range(s, c_start, c_end);
    proof {
        crate::lexical::lemma_alnum_end_bounds(s@, v_start as int);
        crate::lexical::lemma_alnum_end_bounds(s@, c_start as int);
        assert forall|j: int| 0 <= j < variable_name@.len() implies crate::lexical::is_alnum(
            #[trigger] variable_name@[j],
        ) by {
            assert(variable_name@[j] == s@[v_start + j]);
        }
        assert forall|j: int| 0 <= j < collection_name@.len() implies crate::lexical::is_alnum(
            #[trigger] collection_name@[j],
        ) by {
            assert(collection_name@[j] == s@[c_start + j]);
        }
    }
    Some((Token::ForLoopStart { variable_name, collection_name }, colon + 1))
}

/// Parses the body of a for loop.
pub fn for_loop_body(s: &[u8], pos: usize) -> (r: Result<(Token, usize), ParseError>)
    requires
        pos <= s@.len(),
    ensures
        (r matches Ok((t, e)) ==> pos <= e <= s@.len() && t is ForLoopBody && wf(t)),
{
    let (expressions, e) = match loop_body_expressions(s, pos) {
        Err(pe) => {
            return Err(pe);
        },
        Ok(x) => x,
    };
    Ok((Token::ForLoopBody { expressions }, e))
}

/// Parses a complete for loop: its start and its body.
pub fn for_loop(s: &[u8], pos: usize) -> (r: Result<Option<(Token, usize)>, ParseError>)
    requires
        pos <= s@.len(),
    ensures
        !has_prefix_at(s@, ws_end(s@, pos as int), seq![102u8, 111u8, 114u8]) ==> r == Ok::<
            Option<(Token, usize)>,
            ParseError,
        >(None),
        r matches Ok(rr) ==> rr matches Some((t, e)) ==> pos < e <= s@.len() && t is ForLoop && wf(
            t,
        ),
{
    let (start, e1) = match for_loop_start(s, pos) {
        None => {
            return Ok(None);
        },
        Some(x) => x,
    };
    let (body, e2) = match for_loop_body(s, e1) {
        Err(pe) => {
            return Err(pe);
        },
        Ok(x) => x,
    };
    Ok(Some((Token::ForLoop { start: Box::new(start), body: Box::new(body) }, e2)))
}

/// Parses a while loop's start: `while <expr>:`.
pub fn while_loop_start(s: &[u8], pos: usize) -> (r: Result<Option<(Token, usize)>, ParseError>)
    requires
        pos <= s@.len(),
    ensures
        !has_prefix_at(s@, ws_end(s@, pos as int), seq![119u8, 104u8, 105u8, 108u8, 101u8]) ==> r
            == Ok::<Option<(Token, usize)>, ParseError>(None),
        r matches Ok(rr) ==> rr matches Some((t, e)) ==> pos < e <= s@.len() && t is WhileLoopStart
            && wf(t),
{
    let n: usize = s.len();
    let p = skip_ws(s, pos);
    if !prefix_at(s, p, vec5(119, 104, 105, 108, 101).as_slice()) {
        return Ok(None);
    }
    proof {
        assert(p + 5 <= n);
    }
    let (expr, e1) = match expression(s, p + 5) {
        Err(e) => {
            return Err(e);
        },
        Ok(None) => {
            return Ok(None);
        },
        Ok(Some(x)) => x,
    };
    let c = skip_ws(s, e1);
    if !(c < s.len() && s[c] == 58) {
        return Ok(None);
    }
    Ok(Some((Token::WhileLoopStart { expression: Box::new(expr) }, c + 1)))
}

/// Parses the body of a while loop.
pub fn while_loop_body(s: &[u8], pos: usize) -> (r: Result<(Token, usize), ParseError>)
    requires
        pos <= s@.len(),
    ensures
        (r matches Ok((t, e)) ==> pos <= e <= s@.len() && t is WhileLoopBody && wf(t)),
{
    let (expressions, e) = match loop_body_expressions(s, pos) {
        Err(pe) => {
            return Err(pe);
        },
        Ok(x) => x,
    };
    Ok((Token::WhileLoopBody { expressions }, e))
}

/// Parses a complete while loop: its start and its body.
pub fn while_loop(s: &[u8], pos: usize) -> (r: Result<Option<(Token, usize)>, ParseError>)
    requires
        pos <= s@.len(),
    ensures
        !has_prefix_at(s@, ws_end(s@, pos as int), seq![119u8, 104u8, 105u8, 108u8, 101u8]) ==> r
            == Ok::<Option<(Token, usize)>, ParseError>(None),
        r matches Ok(rr) ==> rr matches Some((t, e)) ==> pos < e <= s@.len() && t is WhileLoop
            && wf(t),
{
    let (start, e1) = match while_loop_start(s, pos) {
        Err(pe) => {
            return Err(pe);
        },
        Ok(None) => {
            return Ok(None);
        },
        Ok(Some(x)) => x,
    };
    let (body, e2) = match while_loop_body(s, e1) {
        Err(pe) => {
            return Err(pe);
        },
        Ok(x) => x,
    };
    Ok(Some((Token::WhileLoop { start: Box::new(start), body: Box::new(body) }, e2)))
}

/// Parses either kind of loop: a while loop, else a for loop.
pub fn a_loop(s: &[u8], pos: usize) -> (r: Result<Option<(Token, usize)>, ParseError>)
    requires
        pos <= s@.len(),
    ensures
        !has_prefix_at(s@, ws_end(s@, pos as int), seq![119u8, 104u8, 105u8, 108u8, 101u8])
            && !has_prefix_at(s@, ws_end(s@, pos as int), seq![102u8, 111u8, 114u8]) ==> r == Ok::<
            Option<(Token, usize)>,
            ParseError,
        >(None),
        r matches Ok(rr) ==> rr matches Some((t, e)) ==> pos < e <= s@.len() && (t is WhileLoop
            || t is ForLoop) && wf(t),
{
    match while_loop(s, pos) {
        Err(pe) => {
            return Err(pe);
        },
        Ok(Some(x)) => {
            return Ok(Some(x));
        },
        Ok(None) => {},
    }
    for_loop(s, pos)
}

} // verus!
