//! The operand recognizer: today an operand can only be an integer
//! literal.

use vstd::prelude::*;

pub use crate::factor_parsers::integer;

use crate::errors::ParseError;
use crate::factor_parsers::int_end;
use crate::factor_parsers::int_fits;
use crate::factor_parsers::int_matches;
use crate::factor_parsers::int_value;
use crate::lexical::ws_end;
use crate::tokens::wf;
use crate::tokens::Token;

verus! {

/// Parser that looks for any operand.
pub fn operand(s: &[u8], pos: usize) -> (r: Result<Option<(Token, usize)>, ParseError>)
    requires
        pos <= s@.len(),
    ensures
        !int_matches(s@, pos as int) ==> r == Ok::<Option<(Token, usize)>, ParseError>(None),
        int_matches(s@, pos as int) && int_fits(s@, pos as int) ==> (r matches Ok(rr)
            && rr matches Some((t, e)) && t == (Token::Integer {
            value: int_value(s@, pos as int) as i64,
        }) && e == int_end(s@, pos as int)),
        int_matches(s@, pos as int) && !int_fits(s@, pos as int) ==> r == Err::<
            Option<(Token, usize)>,
            ParseError,
        >(ParseError::IntegerOverflow { pos: ws_end(s@, pos as int) as usize }),
        r matches Ok(rr) ==> rr matches Some((t, e)) ==> pos < e <= s@.len() && t is Integer
            && wf(t),
{
    integer(s, pos)
}

} // verus!
