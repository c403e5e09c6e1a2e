//! Parsers for `Factor`s: the tightest-binding expression unit.
//!
//! A factor is disambiguated by ordered alternation, trying in this fixed
//! order and taking the first success: integer, float, function call,
//! identifiers, parenthesized expression.

use vstd::prelude::*;

use crate::bytes::copy_range;
use crate::bytes::vec2;
use crate::bytes::vec3;
use crate::bytes::vec4;
use crate::bytes::vec6;
use crate::errors::ParseError;
use crate::expression_parsers::expression;
use crate::function_parsers::function_call;
use crate::lexical::alnum_end;
use crate::lexical::digits_end;
use crate::lexical::digits_val;
use crate::lexical::has_prefix_at;
use crate::lexical::is_identifier_text;
use crate::lexical::kw_def;
use crate::lexical::kw_elif;
use crate::lexical::kw_else;
use crate::lexical::kw_if;
use crate::lexical::kw_return;
use crate::lexical::lemma_digits_val_prefix_le;
use crate::lexical::lemma_prefix_in_subrange;
use crate::lexical::prefix_at;
use crate::lexical::reserved_at;
use crate::lexical::scan_alnum;
use crate::lexical::scan_digits;
use crate::lexical::skip_ws;
use crate::lexical::ws_end;
use crate::tokens::wf;
use crate::tokens::Token;

verus! {

/// Where an integer literal's digits would start: past leading whitespace
/// and one optional minus sign.
pub open spec fn int_sign_end(s: Seq<u8>, pos: int) -> int {
    let p = ws_end(s, pos);
    if p < s.len() && s[p] == 45 {
        p + 1
    } else {
        p
    }
}

/// Whether the literal at `pos` carries a minus sign.
pub open spec fn int_neg(s: Seq<u8>, pos: int) -> bool {
    let p = ws_end(s, pos);
    p < s.len() && s[p] == 45
}

/// Where the digit run of the literal at `pos` ends.
pub open spec fn int_end(s: Seq<u8>, pos: int) -> int {
    digits_end(s, int_sign_end(s, pos))
}

/// An integer literal is present at `pos`: at least one digit after the
/// optional sign.
pub open spec fn int_matches(s: Seq<u8>, pos: int) -> bool {
    int_end(s, pos) > int_sign_end(s, pos)
}

/// The magnitude denoted by the literal's digit run.
pub open spec fn int_mag(s: Seq<u8>, pos: int) -> int {
    digits_val(s.subrange(int_sign_end(s, pos), int_end(s, pos)))
}

/// The signed value the literal denotes.
pub open spec fn int_value(s: Seq<u8>, pos: int) -> int {
    if int_neg(s, pos) {
        -int_mag(s, pos)
    } else {
        int_mag(s, pos)
    }
}

/// The literal's value fits a signed 64-bit integer.
pub open spec fn int_fits(s: Seq<u8>, pos: int) -> bool {
    -0x8000_0000_0000_0000 <= int_value(s, pos) <= 0x7fff_ffff_ffff_ffff
}

/// Parser for a signed 64-bit integer literal: an optional `-`, then one or
/// more decimal digits, after optional whitespace. Succeeds exactly on that
/// shape with a value in range; a literal out of range is a fatal error, as
/// numeric conversion failure is not recoverable.
pub fn integer(s: &[u8], pos: usize) -> (r: Result<Option<(Token, usize)>, ParseError>)
    requires
        pos <= s@.len(),
    ensures
        !int_matches(s@, pos as int) ==> r == Ok::<Option<(Token, usize)>, ParseError>(None),
        int_matches(s@, pos as int) && int_fits(s@, pos as int) ==> (r matches Ok(rr)
            && rr matches Some((t, e)) && t == (Token::Integer {
            value: int_value(s@, pos as int) as i64,
        }) && e == int_end(s@, pos as int)),
        int_matches(s@, pos as int) && !int_fits(s@, pos as int) ==> r == Err::<
            Option<(Token, usize)>,
            ParseError,
        >(ParseError::IntegerOverflow { pos: ws_end(s@, pos as int) as usize }),
        r matches Ok(rr) ==> rr matches Some((t, e)) ==> pos < e <= s@.len() && t is Integer
            && wf(t),
{
    let p = skip_ws(s, pos);
    let neg = p < s.len() && s[p] == 45;
    let q = if neg {
        p + 1
    } else {
        p
    };
    let e = scan_digits(s, q);
    if e == q {
        return Ok(None);
    }
    let ghost digits = s@.subrange(q as int, e as int);
    proof {
        crate::lexical::lemma_digits_end_bounds(s@, q as int);
        assert forall|j: int| 0 <= j < digits.len() implies crate::lexical::is_digit(
            #[trigger] digits[j],
        ) by {
            assert(digits[j] == s@[q + j]);
        }
    }
    let limit: u64 = if neg {
        0x8000_0000_0000_0000
    } else {
        0x7fff_ffff_ffff_ffff
    };
    let mut val: u64 = 0;
    let mut i: usize = q;
    proof {
        assert(s@.subrange(q as int, q as int) =~= Seq::<u8>::empty());
    }
    while i < e
        invariant
            q <= i <= e <= s@.len(),
            pos <= s@.len(),
            q == int_sign_end(s@, pos as int),
            e == int_end(s@, pos as int),
            e > q,
            p == ws_end(s@, pos as int),
            neg == int_neg(s@, pos as int),
            digits == s@.subrange(q as int, e as int),
            forall|j: int| 0 <= j < digits.len() ==> crate::lexical::is_digit(#[trigger] digits[j]),
            val == digits_val(s@.subrange(q as int, i as int)),
            val <= limit,
            limit == if neg {
                0x8000_0000_0000_0000u64
            } else {
                0x7fff_ffff_ffff_ffffu64
            },
        decreases e - i,
    {
        proof {
            assert(digits[i - q] == s@[i as int]);
        }
        let d: u64 = (s[i] - 48) as u64;
        if val > (limit - d) / 10 {
            proof {
                assert(10 * val + d > limit) by {
                    assert(limit - d == 10 * ((limit - d) / 10) + (limit - d) % 10);
                };
                assert(s@.subrange(q as int, i as int + 1).drop_last() =~= s@.subrange(
                    q as int,
                    i as int,
                ));
                assert(digits_val(s@.subrange(q as int, i as int + 1)) > limit);
                assert(digits.subrange(0, i as int + 1 - q) =~= s@.subrange(
                    q as int,
                    i as int + 1,
                ));
                lemma_digits_val_prefix_le(digits, i as int + 1 - q);
                assert(int_mag(s@, pos as int) > limit);
            }
            return Err(ParseError::IntegerOverflow { pos: p });
        }
        proof {
            assert(10 * val + d <= limit) by {
                assert(limit - d == 10 * ((limit - d) / 10) + (limit - d) % 10);
            };
            assert(s@.subrange(q as int, i as int + 1).drop_last() =~= s@.subrange(
                q as int,
                i as int,
            ));
        }
        val = val * 10 + d;
        i = i + 1;
    }
    let value: i64 = if neg {
        (-(val as i128)) as i64
    } else {
        val as i64
    };
    proof {
        assert(val == int_mag(s@, pos as int));
    }
    Ok(Some((Token::Integer { value }, e)))
}

/// Whether a float literal is present at `pos`: sign, digits, a dot, more
/// digits.
pub open spec fn float_matches(s: Seq<u8>, pos: int) -> bool {
    int_matches(s, pos) && int_end(s, pos) < s.len() && s[int_end(s, pos)] == 46 && digits_end(
        s,
        int_end(s, pos) + 1,
    ) > int_end(s, pos) + 1
}

/// Where the float literal at `pos` ends.
pub open spec fn float_end(s: Seq<u8>, pos: int) -> int {
    digits_end(s, int_end(s, pos) + 1)
}

/// Parser for a 64-bit float literal: an optional `-`, digits, a literal
/// `.`, digits. The matched text is kept verbatim in the node, and the code
/// generator emits that text verbatim as the `LOAD` immediate.
///
/// Because a factor tries the integer alternative first (the grammar's
/// fixed order), a float literal inside a program is read as an integer up
/// to the dot, and the stranded fraction then makes the whole-input parse a
/// syntax error: within a program only this recognizer, called directly,
/// yields a `Float` node.
pub fn float64(s: &[u8], pos: usize) -> (r: Option<(Token, usize)>)
    requires
        pos <= s@.len(),
    ensures
        r is Some <==> float_matches(s@, pos as int),
        (r matches Some((t, e)) ==> {
            &&& e == float_end(s@, pos as int)
            &&& pos < e <= s@.len()
            &&& t is Factor
            &&& wf(t)
            &&& (t matches Token::Factor { value } && (*value matches Token::Float { text }
                && text@ == s@.subrange(ws_end(s@, pos as int), float_end(s@, pos as int))))
        }),
{
    let p = skip_ws(s, pos);
    let neg = p < s.len() && s[p] == 45;
    let q = if neg {
        p + 1
    } else {
        p
    };
    let d1 = scan_digits(s, q);
    if d1 == q {
        return None;
    }
    if !(d1 < s.len() && s[d1] == 46) {
        return None;
    }
    let d2 = scan_digits(s, d1 + 1);
    if d2 == d1 + 1 {
        return None;
    }
    let text = copy_range(s, p, d2);
    proof {
        reveal_with_fuel(wf, 3);
        crate::lexical::lemma_digits_end_bounds(s@, q as int);
        crate::lexical::lemma_digits_end_bounds(s@, d1 + 1);
        if neg {
            assert(text@[0] == s@[p as int]);
            assert(text@[0] == 45);
        } else {
            if text@.len() > 0 {
                assert(text@[0] == s@[p as int]);
                assert(text@[0] != 45);
            }
        }
        let t = if text@.len() > 0 && text@[0] == 45 {
            text@.drop_first()
        } else {
            text@
        };
        let k = d1 - q;
        assert(t =~= s@.subrange(q as int, d2 as int));
        assert(t[k] == 46);
        assert(0 < k < t.len() - 1);
        assert forall|j: int| 0 <= j < k implies crate::lexical::is_digit(#[trigger] t[j]) by {
            assert(t[j] == s@[q + j]);
        }
        assert forall|j: int| k < j < t.len() implies crate::lexical::is_digit(#[trigger] t[j]) by {
            assert(t[j] == s@[q + j]);
        }
        crate::lexical::lemma_digits_dot_digits(t, k);
        assert(crate::lexical::is_float_text(text@));
    }
    Some((Token::Factor { value: Box::new(Token::Float { text }) }, d2))
}

/// Whether an identifier is present at `pos`: after whitespace, no reserved
/// word ahead and at least one alphanumeric byte.
pub open spec fn ident_matches(s: Seq<u8>, pos: int) -> bool {
    let p = ws_end(s, pos);
    !reserved_at(s, p) && alnum_end(s, p) > p
}

/// Where the identifier's name ends.
pub open spec fn ident_name_end(s: Seq<u8>, pos: int) -> int {
    alnum_end(s, ws_end(s, pos))
}

/// Where the identifier parser stops: past one optional trailing comma.
pub open spec fn ident_end(s: Seq<u8>, pos: int) -> int {
    let a = ident_name_end(s, pos);
    let c = ws_end(s, a);
    if c < s.len() && s[c] == 44 {
        c + 1
    } else {
        a
    }
}

/// The names collected by a maximal run of identifier parses starting at
/// `pos`: each entry is one identifier's text, consumed (with its optional
/// trailing comma) exactly as [`identifier`] consumes it.
pub open spec fn ident_chain_names(s: Seq<u8>, pos: int) -> Seq<Seq<u8>>
    decreases s.len() - pos,
    when 0 <= pos <= s.len()
{
    if ident_matches(s, pos) && pos < ident_end(s, pos) <= s.len() {
        seq![s.subrange(ws_end(s, pos), ident_name_end(s, pos))] + ident_chain_names(
            s,
            ident_end(s, pos),
        )
    } else {
        Seq::empty()
    }
}

/// Where the maximal run of identifier parses starting at `pos` stops.
pub open spec fn ident_chain_end(s: Seq<u8>, pos: int) -> int
    decreases s.len() - pos,
    when 0 <= pos <= s.len()
{
    if ident_matches(s, pos) && pos < ident_end(s, pos) <= s.len() {
        ident_chain_end(s, ident_end(s, pos))
    } else {
        pos
    }
}

/// No factor alternative matches at `pos`: no integer literal, no function
/// call, no identifier, and no opening parenthesis. (A float literal always
/// begins like an integer literal, so it adds no case here.)
pub open spec fn factor_fails(s: Seq<u8>, pos: int) -> bool {
    &&& !int_matches(s, pos)
    &&& !crate::function_parsers::call_matches(s, pos)
    &&& !ident_matches(s, pos)
    &&& (ws_end(s, pos) >= s.len() || s[ws_end(s, pos)] != 40)
}

/// Checks for a reserved word (`def`, `if`, `elif`, `else`, `return`) ahead
/// at the position, after optional whitespace, without consuming input.
/// The lookahead matches a prefix, not a whole word: `iffy` or `define` is
/// rejected as an identifier just as `if` or `def` is.
pub fn reserved(s: &[u8], pos: usize) -> (r: bool)
    requires
        pos <= s@.len(),
    ensures
        r == reserved_at(s@, ws_end(s@, pos as int)),
{
    let p = skip_ws(s, pos);
    let r1 = prefix_at(s, p, vec3(100, 101, 102).as_slice());
    let r2 = prefix_at(s, p, vec2(105, 102).as_slice());
    let r3 = prefix_at(s, p, vec4(101, 108, 105, 102).as_slice());
    let r4 = prefix_at(s, p, vec4(101, 108, 115, 101).as_slice());
    let r5 = prefix_at(s, p, vec6(114, 101, 116, 117, 114, 110).as_slice());
    r1 || r2 || r3 || r4 || r5
}

/// Parser for a single identifier: one run of alphanumerics that no
/// reserved word leads, with one optional trailing comma consumed.
pub fn identifier(s: &[u8], pos: usize) -> (r: Option<(Vec<u8>, usize)>)
    requires
        pos <= s@.len(),
    ensures
        r is Some <==> ident_matches(s@, pos as int),
        (r matches Some((name, e)) ==> {
            &&& name@ == s@.subrange(ws_end(s@, pos as int), ident_name_end(s@, pos as int))
            &&& e == ident_end(s@, pos as int)
            &&& pos < e <= s@.len()
            &&& is_identifier_text(name@)
        }),
{
    if reserved(s, pos) {
        return None;
    }
    let p = skip_ws(s, pos);
    let a = scan_alnum(s, p);
    if a == p {
        return None;
    }
    let name = copy_range(s, p, a);
    proof {
        crate::lexical::lemma_alnum_end_bounds(s@, p as int);
        assert forall|j: int| 0 <= j < name@.len() implies crate::lexical::is_alnum(
            #[trigger] name@[j],
        ) by {
            assert(name@[j] == s@[p + j]);
        }
        assert(!reserved_at(name@, 0)) by {
            if has_prefix_at(name@, 0, kw_def()) {
                lemma_prefix_in_subrange(s@, p as int, a as int, kw_def());
            }
            if has_prefix_at(name@, 0, kw_if()) {
                lemma_prefix_in_subrange(s@, p as int, a as int, kw_if());
            }
            if has_prefix_at(name@, 0, kw_elif()) {
                lemma_prefix_in_subrange(s@, p as int, a as int, kw_elif());
            }
            if has_prefix_at(name@, 0, kw_else()) {
                lemma_prefix_in_subrange(s@, p as int, a as int, kw_else());
            }
            if has_prefix_at(name@, 0, kw_return()) {
                lemma_prefix_in_subrange(s@, p as int, a as int, kw_return());
            }
        }
    }
    let c = skip_ws(s, a);
    if c < s.len() && s[c] == 44 {
        Some((name, c + 1))
    } else {
        Some((name, a))
    }
}

/// Parser for one or more identifiers in a row: the multi-name collector.
/// Wraps the collected names in a `Factor`. The names are exactly the
/// identifier chain read from the input.
pub fn identifiers(s: &[u8], pos: usize) -> (r: Option<(Token, usize)>)
    requires
        pos <= s@.len(),
    ensures
        r is Some <==> ident_matches(s@, pos as int),
        (r matches Some((t, e)) ==> {
            &&& pos < e <= s@.len()
            &&& e == ident_chain_end(s@, pos as int)
            &&& t is Factor
            &&& wf(t)
            &&& (t matches Token::Factor { value } && (*value matches Token::Identifier { values }
                && values.deep_view() == ident_chain_names(s@, pos as int)))
        }),
{
    let first = match identifier(s, pos) {
        None => {
            return None;
        },
        Some(x) => x,
    };
    let mut values: Vec<Vec<u8>> = Vec::new();
    values.push(first.0);
    let mut cur: usize = first.1;
    proof {
        assert(values.deep_view() =~~= seq![s@.subrange(
            ws_end(s@, pos as int),
            ident_name_end(s@, pos as int),
        )]);
        assert(ident_chain_names(s@, pos as int) == values.deep_view() + ident_chain_names(
            s@,
            cur as int,
        ));
        assert(ident_chain_end(s@, pos as int) == ident_chain_end(s@, cur as int));
    }
    loop
        invariant
            pos < cur <= s@.len(),
            values@.len() > 0,
            forall|i: int|
                0 <= i < values@.len() ==> is_identifier_text(#[trigger] values@[i]@),
            ident_chain_names(s@, pos as int) == values.deep_view() + ident_chain_names(
                s@,
                cur as int,
            ),
            ident_chain_end(s@, pos as int) == ident_chain_end(s@, cur as int),
        ensures
            pos < cur <= s@.len(),
            values@.len() > 0,
            forall|i: int|
                0 <= i < values@.len() ==> is_identifier_text(#[trigger] values@[i]@),
            values.deep_view() == ident_chain_names(s@, pos as int),
            cur == ident_chain_end(s@, pos as int),
        decreases s@.len() - cur,
    {
        let ghost prev = values.deep_view();
        let ghost prev_cur = cur as int;
        match identifier(s, cur) {
            Some((name, e)) => {
                values.push(name);
                cur = e;
                proof {
                    assert(values.deep_view() =~~= prev.push(name@));
                    assert(ident_chain_names(s@, prev_cur) == seq![name@] + ident_chain_names(
                        s@,
                        cur as int,
                    ));
                    assert(ident_chain_names(s@, pos as int) =~~= values.deep_view()
                        + ident_chain_names(s@, cur as int));
                }
            },
            None => {
                proof {
                    assert(ident_chain_names(s@, cur as int) =~= Seq::<Seq<u8>>::empty());
                    assert(values.deep_view() =~~= ident_chain_names(s@, pos as int));
                }
                break;
            },
        }
    }
    proof {
        reveal_with_fuel(wf, 3);
    }
    Some((Token::Factor { value: Box::new(Token::Identifier { values }) }, cur))
}

/// Parser for the end of input: succeeds only when nothing but whitespace
/// remains.
pub fn end_of_file(s: &[u8], pos: usize) -> (r: Option<(Token, usize)>)
    requires
        pos <= s@.len(),
    ensures
        r is Some <==> ws_end(s@, pos as int) == s@.len(),
        (r matches Some((t, e)) ==> t == Token::Eof && e == s@.len()),
{
    let p = skip_ws(s, pos);
    if p == s.len() {
        Some((Token::Eof, p))
    } else {
        None
    }
}

/// Parser for a `Factor`: an integer, float, function call, identifier run,
/// or parenthesized expression - the first of these, in that fixed order,
/// to match (ordered alternation, not longest match; the order is part of
/// the grammar). A float literal necessarily begins like an integer
/// literal, so the integer alternative always takes it first: the float
/// alternative is kept in its grammar position but can only be reached by
/// calling [`float64`] directly.
pub fn factor(s: &[u8], pos: usize) -> (r: Result<Option<(Token, usize)>, ParseError>)
    requires
        pos <= s@.len(),
    ensures
        r matches Ok(rr) ==> rr matches Some((t, e)) ==> pos < e <= s@.len() && t is Factor && wf(
            t,
        ),
        int_matches(s@, pos as int) && int_fits(s@, pos as int) ==> (r matches Ok(rr)
            && rr matches Some((t, e)) && e == int_end(s@, pos as int) && (t matches Token::Factor {
            value,
        } && *value == (Token::Integer { value: int_value(s@, pos as int) as i64 }))),
        int_matches(s@, pos as int) && !int_fits(s@, pos as int) ==> r == Err::<
            Option<(Token, usize)>,
            ParseError,
        >(ParseError::IntegerOverflow { pos: ws_end(s@, pos as int) as usize }),
        !int_matches(s@, pos as int) && crate::function_parsers::call_matches(s@, pos as int)
            ==> (r matches Ok(rr) && rr matches Some((t, e)) && e
            == crate::function_parsers::call_end(s@, pos as int) && (t matches Token::Factor {
            value,
        } && (*value matches Token::FunctionCall { name, parameters } && name@ == s@.subrange(
            ws_end(s@, pos as int),
            ident_name_end(s@, pos as int),
        ) && (*parameters matches Token::FunctionArgs { args } && args.deep_view()
            == ident_chain_names(s@, ws_end(s@, ident_end(s@, pos as int)) + 1))))),
        !int_matches(s@, pos as int) && !crate::function_parsers::call_matches(s@, pos as int)
            && ident_matches(s@, pos as int) ==> (r matches Ok(rr) && rr matches Some((t, e)) && e
            == ident_chain_end(s@, pos as int) && (t matches Token::Factor { value }
            && (*value matches Token::Factor { value: inner } && (*inner
            matches Token::Identifier { values } && values.deep_view() == ident_chain_names(
            s@,
            pos as int,
        ))))),
        factor_fails(s@, pos as int) ==> r == Ok::<Option<(Token, usize)>, ParseError>(None),
    decreases s@.len() - pos, 3int,
{
    proof {
        reveal_with_fuel(wf, 3);
    }
    match integer(s, pos) {
        Err(e) => {
            return Err(e);
        },
        Ok(Some((t, e))) => {
            return Ok(Some((Token::Factor { value: Box::new(t) }, e)));
        },
        Ok(None) => {},
    }
    match float64(s, pos) {
        Some((t, e)) => {
            return Ok(Some((Token::Factor { value: Box::new(t) }, e)));
        },
        None => {},
    }
    match function_call(s, pos) {
        Some((t, e)) => {
            return Ok(Some((Token::Factor { value: Box::new(t) }, e)));
        },
        None => {},
    }
    match identifiers(s, pos) {
        Some((t, e)) => {
            return Ok(Some((Token::Factor { value: Box::new(t) }, e)));
        },
        None => {},
    }
    let p = skip_ws(s, pos);
    if p < s.len() && s[p] == 40 {
        match expression(s, p + 1) {
            Err(e) => {
                return Err(e);
            },
            Ok(Some((t, e))) => {
                let c = skip_ws(s, e);
                if c < s.len() && s[c] == 41 {
                    return Ok(Some((Token::Factor { value: Box::new(t) }, c + 1)));
                }
                return Ok(None);
            },
            Ok(None) => {
                return Ok(None);
            },
        }
    }
    Ok(None)
}

} // verus!
