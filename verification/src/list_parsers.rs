//! Parser for list literals: `[e1, e2, ...]`, where each comma-delimited
//! segment is parsed as an expression.

use vstd::prelude::*;

use crate::errors::ParseError;
use crate::expression_parsers::expression;
use crate::lexical::find_byte;
use crate::lexical::scan_to_byte;
use crate::lexical::skip_ws;
use crate::lexical::ws_end;
use crate::tokens::wf;
use crate::tokens::Token;

verus! {

/// Parser for a list literal. The closing bracket is located first; the
/// elements before it are then parsed one expression per comma-delimited
/// segment.
pub fn list(s: &[u8], pos: usize) -> (r: Result<Option<(Token, usize)>, ParseError>)
    requires
        pos <= s@.len(),
    ensures
        ({
            let p = ws_end(s@, pos as int);
            p >= s@.len() || s@[p] != 91 || find_byte(s@, p + 1, 93) >= s@.len()
        }) ==> r == Ok::<Option<(Token, usize)>, ParseError>(None),
        r matches Ok(rr) ==> rr matches Some((t, e)) ==> pos < e <= s@.len() && t is List && wf(t),
{
    let n: usize = s.len();
    let p = skip_ws(s, pos);
    if !(p < n && s[p] == 91) {
        return Ok(None);
    }
    let end_br = scan_to_byte(s, p + 1, 93);
    if end_br == n {
        return Ok(None);
    }
    let mut elements: Vec<Token> = Vec::new();
    let mut cur: usize = p + 1;
    loop
        invariant
            pos < cur <= n <= s@.len(),
            n == s@.len(),
            end_br < n,
            ws_end(s@, pos as int) < s@.len() && s@[ws_end(s@, pos as int)] == 91 && find_byte(
                s@,
                ws_end(s@, pos as int) + 1,
                93,
            ) < s@.len(),
            forall|i: int|
                0 <= i < elements@.len() ==> (#[trigger] elements@[i]) is Expression && wf(
                    elements@[i],
                ),
        ensures
            forall|i: int|
                0 <= i < elements@.len() ==> (#[trigger] elements@[i]) is Expression && wf(
                    elements@[i],
                ),
        decreases n - cur,
    {
        let c = skip_ws(s, cur);
        if c >= end_br {
            break;
        }
        let (t, e) = match expression(s, c) {
            Err(pe) => {
                return Err(pe);
            },
            Ok(None) => {
                return Ok(None);
            },
            Ok(Some(x)) => x,
        };
        elements.push(t);
        let c2 = skip_ws(s, e);
        if c2 < end_br {
            if s[c2] == 44 {
                cur = c2 + 1;
            } else {
                return Ok(None);
            }
        } else {
            break;
        }
    }
    Ok(Some((Token::List { elements }, end_br + 1)))
}

} // verus!
