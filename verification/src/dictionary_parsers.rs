//! Parsers for dictionary literals: `{key: value, ...}`.
//!
//! The braces and their contents are recognized and consumed, but the
//! key/value pairs are never materialised into the resulting node - a known
//! incompleteness of the grammar, kept as it stands.

use vstd::prelude::*;

use crate::bytes::copy_range;
use crate::errors::ParseError;
use crate::expression_parsers::expression;
use crate::lexical::find_byte;
use crate::lexical::scan_to_byte;
use crate::lexical::skip_ws;
use crate::lexical::ws_end;
use crate::tokens::wf;
use crate::tokens::Token;

verus! {

/// Extracts everything between `{` and the first `}`. Succeeds exactly when
/// an opening brace leads (after whitespace) and a closing brace follows.
pub fn dictionary_interior(s: &[u8], pos: usize) -> (r: Option<(Vec<u8>, usize)>)
    requires
        pos <= s@.len(),
    ensures
        r is Some <==> ({
            let p = ws_end(s@, pos as int);
            p < s@.len() && s@[p] == 123 && find_byte(s@, p + 1, 125) < s@.len()
        }),
        (r matches Some((contents, e)) ==> {
            &&& pos < e <= s@.len()
            &&& e == find_byte(s@, ws_end(s@, pos as int) + 1, 125) + 1
            &&& contents@ == s@.subrange(ws_end(s@, pos as int) + 1, e - 1)
        }),
{
    let n: usize = s.len();
    let p = skip_ws(s, pos);
    if !(p < n && s[p] == 123) {
        return None;
    }
    let close = scan_to_byte(s, p + 1, 125);
    if close == n {
        return None;
    }
    let contents = copy_range(s, p + 1, close);
    Some((contents, close + 1))
}

/// Parses a key-value pair: an expression, a colon, an expression.
pub fn key_value_pair(s: &[u8], pos: usize) -> (r: Result<Option<(Token, usize)>, ParseError>)
    requires
        pos <= s@.len(),
    ensures
        !crate::function_parsers::fn_name_matches(s@, pos as int)
            && crate::factor_parsers::factor_fails(s@, pos as int) ==> r == Ok::<
            Option<(Token, usize)>,
            ParseError,
        >(None),
        r matches Ok(rr) ==> rr matches Some((t, e)) ==> pos < e <= s@.len() && t
            is DictionaryKeyValuePair && wf(t),
{
    let (key, e1) = match expression(s, pos) {
        Err(pe) => {
            return Err(pe);
        },
        Ok(None) => {
            return Ok(None);
        },
        Ok(Some(x)) => x,
    };
    let c = skip_ws(s, e1);
    if !(c < s.len() && s[c] == 58) {
        return Ok(None);
    }
    let (value, e2) = match expression(s, c + 1) {
        Err(pe) => {
            return Err(pe);
        },
        Ok(None) => {
            return Ok(None);
        },
        Ok(Some(x)) => x,
    };
    Ok(Some((Token::DictionaryKeyValuePair { key: Box::new(key), value: Box::new(value) }, e2)))
}

/// Parses a dictionary literal: the braces and contents are consumed, but
/// the resulting node carries no pairs.
pub fn dictionary(s: &[u8], pos: usize) -> (r: Option<(Token, usize)>)
    requires
        pos <= s@.len(),
    ensures
        (r matches Some((t, e)) ==> pos < e <= s@.len() && t is Dictionary && wf(t)),
{
    match dictionary_interior(s, pos) {
        None => None,
        Some((_contents, e)) => {
            Some((Token::Dictionary { keys: Vec::new(), values: Vec::new() }, e))
        },
    }
}

} // verus!
