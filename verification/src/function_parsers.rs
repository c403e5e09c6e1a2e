//! Parsers for function definitions, calls and return statements.
//!
//! A function looks like `def name(arg1, arg2):` followed by body
//! expressions and a semicolon-terminated `return` statement.

use vstd::prelude::*;

use crate::bytes::copy_range;
use crate::bytes::vec3;
use crate::bytes::vec6;
use crate::errors::ParseError;
use crate::expression_parsers::expression;
use crate::factor_parsers::factor;
use crate::factor_parsers::ident_chain_end;
use crate::factor_parsers::ident_chain_names;
use crate::factor_parsers::ident_end;
use crate::factor_parsers::ident_matches;
use crate::factor_parsers::ident_name_end;
use crate::factor_parsers::identifier;
use crate::lexical::find_byte;
use crate::lexical::has_prefix_at;
use crate::lexical::kw_def;
use crate::lexical::kw_return;
use crate::lexical::prefix_at;
use crate::lexical::ws_end;
use crate::lexical::scan_to_byte;
use crate::lexical::skip_ws;
use crate::tokens::wf;
use crate::tokens::Token;

verus! {

/// Where a function's name starts: past `def` and any whitespace.
pub open spec fn fn_name_start(s: Seq<u8>, pos: int) -> int {
    ws_end(s, ws_end(s, pos) + 3)
}

/// A function name is present: `def` leads (after whitespace) and an
/// opening parenthesis follows somewhere.
pub open spec fn fn_name_matches(s: Seq<u8>, pos: int) -> bool {
    has_prefix_at(s, ws_end(s, pos), kw_def()) && find_byte(s, fn_name_start(s, pos), 40) < s.len()
}

/// A parenthesized argument list is present at `pos`: `(`, an identifier
/// chain, `)`.
pub open spec fn fnargs_matches(s: Seq<u8>, pos: int) -> bool {
    let p = ws_end(s, pos);
    &&& p < s.len()
    &&& s[p] == 40
    &&& {
        let c = ws_end(s, ident_chain_end(s, p + 1));
        c < s.len() && s[c] == 41
    }
}

/// Where the argument list at `pos` ends: just past the closing
/// parenthesis.
pub open spec fn fnargs_end(s: Seq<u8>, pos: int) -> int {
    ws_end(s, ident_chain_end(s, ws_end(s, pos) + 1)) + 1
}

/// A function call is present at `pos`: an identifier followed by an
/// argument list.
pub open spec fn call_matches(s: Seq<u8>, pos: int) -> bool {
    ident_matches(s, pos) && fnargs_matches(s, ident_end(s, pos))
}

/// Where the function call at `pos` ends.
pub open spec fn call_end(s: Seq<u8>, pos: int) -> int {
    fnargs_end(s, ident_end(s, pos))
}

/// Parser for a function's name: `def`, then everything up to (and not
/// including) the opening parenthesis. Succeeds exactly when `def` leads
/// and an opening parenthesis follows somewhere; the name is the raw text
/// between them.
pub fn function_name(s: &[u8], pos: usize) -> (r: Option<(Token, usize)>)
    requires
        pos <= s@.len(),
    ensures
        r is Some <==> fn_name_matches(s@, pos as int),
        (r matches Some((t, e)) ==> {
            &&& pos < e <= s@.len()
            &&& e == find_byte(s@, fn_name_start(s@, pos as int), 40)
            &&& (t matches Token::FunctionName { name } && name@ == s@.subrange(
                fn_name_start(s@, pos as int),
                e as int,
            ))
        }),
{
    let n: usize = s.len();
    let p = skip_ws(s, pos);
    if !prefix_at(s, p, vec3(100, 101, 102).as_slice()) {
        return None;
    }
    proof {
        assert(p + 3 <= n);
    }
    let nm_start = skip_ws(s, p + 3);
    let paren = scan_to_byte(s, nm_start, 40);
    if paren == s.len() {
        return None;
    }
    let name = copy_range(s, nm_start, paren);
    Some((Token::FunctionName { name }, paren))
}

/// Parser for one formal argument: an identifier (with its optional
/// trailing comma).
pub fn function_arg(s: &[u8], pos: usize) -> (r: Option<(Vec<u8>, usize)>)
    requires
        pos <= s@.len(),
    ensures
        (r matches Some((name, e)) ==> pos < e <= s@.len()
            && crate::lexical::is_identifier_text(name@)),
{
    identifier(s, pos)
}

/// Parser for a parenthesized, comma-separated argument list: succeeds
/// exactly on `(`, an identifier chain, `)`, collecting exactly the chain's
/// names.
pub fn function_args(s: &[u8], pos: usize) -> (r: Option<(Token, usize)>)
    requires
        pos <= s@.len(),
    ensures
        r is Some <==> fnargs_matches(s@, pos as int),
        (r matches Some((t, e)) ==> {
            &&& pos < e <= s@.len()
            &&& e == fnargs_end(s@, pos as int)
            &&& t is FunctionArgs
            &&& wf(t)
            &&& (t matches Token::FunctionArgs { args } && args.deep_view() == ident_chain_names(
                s@,
                ws_end(s@, pos as int) + 1,
            ))
        }),
{
    let p = skip_ws(s, pos);
    if !(p < s.len() && s[p] == 40) {
        return None;
    }
    let mut args: Vec<Vec<u8>> = Vec::new();
    let mut cur: usize = p + 1;
    proof {
        assert(args.deep_view() =~~= Seq::<Seq<u8>>::empty());
        assert(ident_chain_names(s@, p + 1) =~~= args.deep_view() + ident_chain_names(
            s@,
            cur as int,
        ));
    }
    loop
        invariant
            pos < cur <= s@.len(),
            p == ws_end(s@, pos as int),
            forall|i: int|
                0 <= i < args@.len() ==> crate::lexical::is_identifier_text(
                    #[trigger] args@[i]@,
                ),
            ident_chain_names(s@, p + 1) == args.deep_view() + ident_chain_names(s@, cur as int),
            ident_chain_end(s@, p + 1) == ident_chain_end(s@, cur as int),
        ensures
            pos < cur <= s@.len(),
            p == ws_end(s@, pos as int),
            forall|i: int|
                0 <= i < args@.len() ==> crate::lexical::is_identifier_text(
                    #[trigger] args@[i]@,
                ),
            args.deep_view() == ident_chain_names(s@, p + 1),
            cur == ident_chain_end(s@, p + 1),
        decreases s@.len() - cur,
    {
        let ghost prev = args.deep_view();
        let ghost prev_cur = cur as int;
        match identifier(s, cur) {
            Some((name, e)) => {
                args.push(name);
                cur = e;
                proof {
                    assert(args.deep_view() =~~= prev.push(name@));
                    assert(ident_chain_names(s@, prev_cur) == seq![name@] + ident_chain_names(
                        s@,
                        cur as int,
                    ));
                    assert(ident_chain_names(s@, p + 1) =~~= args.deep_view()
                        + ident_chain_names(s@, cur as int));
                }
            },
            None => {
                proof {
                    assert(ident_chain_names(s@, cur as int) =~~= Seq::<Seq<u8>>::empty());
                    assert(args.deep_view() =~~= ident_chain_names(s@, p + 1));
                }
                break;
            },
        }
    }
    let c = skip_ws(s, cur);
    if c < s.len() && s[c] == 41 {
        Some((Token::FunctionArgs { args }, c + 1))
    } else {
        None
    }
}

/// Parser for a function body: any number of expressions.
pub fn function_body(s: &[u8], pos: usize) -> (r: Result<(Token, usize), ParseError>)
    requires
        pos <= s@.len(),
    ensures
        (r matches Ok((t, e)) ==> pos <= e <= s@.len() && t is FunctionBody && wf(t)),
    decreases s@.len() - pos, 8int,
{
    let mut expressions: Vec<Token> = Vec::new();
    let mut cur: usize = pos;
    loop
        invariant
            pos <= cur <= s@.len(),
            forall|i: int|
                0 <= i < expressions@.len() ==> (#[trigger] expressions@[i]) is Expression && wf(
                    expressions@[i],
                ),
        ensures
            pos <= cur <= s@.len(),
            forall|i: int|
                0 <= i < expressions@.len() ==> (#[trigger] expressions@[i]) is Expression && wf(
                    expressions@[i],
                ),
        decreases s@.len() - cur,
    {
        match expression(s, cur) {
            Err(e) => {
                return Err(e);
            },
            Ok(None) => {
                break;
            },
            Ok(Some((t, e))) => {
                expressions.push(t);
                cur = e;
            },
        }
    }
    Ok((Token::FunctionBody { expressions }, cur))
}

/// Parser for a complete function definition: name, arguments, a colon, the
/// body, and its return statement.
pub fn function(s: &[u8], pos: usize) -> (r: Result<Option<(Token, usize)>, ParseError>)
    requires
        pos <= s@.len(),
    ensures
        !fn_name_matches(s@, pos as int) ==> r == Ok::<Option<(Token, usize)>, ParseError>(None),
        r matches Ok(rr) ==> rr matches Some((t, e)) ==> pos < e <= s@.len() && t is Function
            && wf(t),
    decreases s@.len() - pos, 6int,
{
    let (name_t, e1) = match function_name(s, pos) {
        None => {
            return Ok(None);
        },
        Some(x) => x,
    };
    let (args_t, e2) = match function_args(s, e1) {
        None => {
            return Ok(None);
        },
        Some(x) => x,
    };
    let c = skip_ws(s, e2);
    if !(c < s.len() && s[c] == 58) {
        return Ok(None);
    }
    let (body_t, e3) = match function_body(s, c + 1) {
        Err(e) => {
            return Err(e);
        },
        Ok(x) => x,
    };
    let (rs_t, e4) = match return_statement(s, e3) {
        Err(e) => {
            return Err(e);
        },
        Ok(None) => {
            return Ok(None);
        },
        Ok(Some(x)) => x,
    };
    Ok(
        Some(
            (
                Token::Function {
                    name: Box::new(name_t),
                    args: Box::new(args_t),
                    body: Box::new(body_t),
                    return_statement: Box::new(rs_t),
                },
                e4,
            ),
        ),
    )
}

/// Parser for a function call: a name followed by its actual arguments.
/// Succeeds exactly when an identifier and an argument list follow in turn;
/// the node carries exactly the name and arguments read.
pub fn function_call(s: &[u8], pos: usize) -> (r: Option<(Token, usize)>)
    requires
        pos <= s@.len(),
    ensures
        r is Some <==> call_matches(s@, pos as int),
        (r matches Some((t, e)) ==> {
            &&& pos < e <= s@.len()
            &&& e == call_end(s@, pos as int)
            &&& t is FunctionCall
            &&& wf(t)
            &&& (t matches Token::FunctionCall { name, parameters } && {
                &&& name@ == s@.subrange(
                    ws_end(s@, pos as int),
                    ident_name_end(s@, pos as int),
                )
                &&& (*parameters matches Token::FunctionArgs { args } && args.deep_view()
                    == ident_chain_names(s@, ws_end(s@, ident_end(s@, pos as int)) + 1))
            })
        }),
{
    let (name, e1) = match identifier(s, pos) {
        None => {
            return None;
        },
        Some(x) => x,
    };
    let (params, e2) = match function_args(s, e1) {
        None => {
            return None;
        },
        Some(x) => x,
    };
    Some((Token::FunctionCall { name, parameters: Box::new(params) }, e2))
}

/// Parser for one return argument: a factor with an optional trailing
/// comma.
pub fn return_arg(s: &[u8], pos: usize) -> (r: Result<Option<(Token, usize)>, ParseError>)
    requires
        pos <= s@.len(),
    ensures
        r matches Ok(rr) ==> rr matches Some((t, e)) ==> pos < e <= s@.len() && t is Factor && wf(
            t,
        ),
    decreases s@.len() - pos, 4int,
{
    let (f, e) = match factor(s, pos) {
        Err(e) => {
            return Err(e);
        },
        Ok(None) => {
            return Ok(None);
        },
        Ok(Some(x)) => x,
    };
    let c = skip_ws(s, e);
    proof {
        reveal_with_fuel(wf, 2);
    }
    if c < s.len() && s[c] == 44 {
        Ok(Some((Token::Factor { value: Box::new(f) }, c + 1)))
    } else {
        Ok(Some((Token::Factor { value: Box::new(f) }, e)))
    }
}

/// Parser for a semicolon-terminated list of return arguments.
pub fn return_args(s: &[u8], pos: usize) -> (r: Result<Option<(Token, usize)>, ParseError>)
    requires
        pos <= s@.len(),
    ensures
        r matches Ok(rr) ==> rr matches Some((t, e)) ==> pos < e <= s@.len() && t is ReturnArgs
            && wf(t),
{
    let mut args: Vec<Token> = Vec::new();
    let mut cur: usize = pos;
    loop
        invariant
            pos <= cur <= s@.len(),
            forall|i: int|
                0 <= i < args@.len() ==> (#[trigger] args@[i]) is Factor && wf(args@[i]),
        ensures
            pos <= cur <= s@.len(),
            forall|i: int|
                0 <= i < args@.len() ==> (#[trigger] args@[i]) is Factor && wf(args@[i]),
        decreases s@.len() - cur,
    {
        match return_arg(s, cur) {
            Err(e) => {
                return Err(e);
            },
            Ok(None) => {
                break;
            },
            Ok(Some((t, e))) => {
                args.push(t);
                cur = e;
            },
        }
    }
    let c = skip_ws(s, cur);
    if c < s.len() && s[c] == 59 {
        Ok(Some((Token::ReturnArgs { args }, c + 1)))
    } else {
        Ok(None)
    }
}

/// Parser for a return statement: `return`, one argument, `;`.
pub fn return_statement(s: &[u8], pos: usize) -> (r: Result<Option<(Token, usize)>, ParseError>)
    requires
        pos <= s@.len(),
    ensures
        !has_prefix_at(s@, ws_end(s@, pos as int), kw_return()) ==> r == Ok::<
            Option<(Token, usize)>,
            ParseError,
        >(None),
        r matches Ok(rr) ==> rr matches Some((t, e)) ==> pos < e <= s@.len() && t
            is ReturnStatement && wf(t),
    decreases s@.len() - pos, 2int,
{
    let n: usize = s.len();
    let p = skip_ws(s, pos);
    if !prefix_at(s, p, vec6(114, 101, 116, 117, 114, 110).as_slice()) {
        return Ok(None);
    }
    proof {
        assert(p + 6 <= n);
    }
    let (arg, e) = match return_arg(s, p + 6) {
        Err(e) => {
            return Err(e);
        },
        Ok(None) => {
            return Ok(None);
        },
        Ok(Some(x)) => x,
    };
    let c = skip_ws(s, e);
    if c < s.len() && s[c] == 59 {
        Ok(Some((Token::ReturnStatement { parameters: Box::new(arg) }, c + 1)))
    } else {
        Ok(None)
    }
}

} // verus!
