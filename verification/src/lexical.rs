//! The lexical level of the grammar: byte classes, whitespace skipping, and
//! the exact shapes of integer, float and identifier text.
//!
//! Every recognizer of the parser consumes leading whitespace transparently;
//! `ws_end` is the single specification of where that whitespace ends.

use vstd::prelude::*;

verus! {

/// Whitespace: space, tab, carriage return, line feed.
pub open spec fn is_ws(b: u8) -> bool {
    b == 32 || b == 9 || b == 13 || b == 10
}

/// ASCII decimal digit.
pub open spec fn is_digit(b: u8) -> bool {
    48 <= b <= 57
}

/// ASCII letter or digit: the identifier alphabet.
pub open spec fn is_alnum(b: u8) -> bool {
    is_digit(b) || (65 <= b <= 90) || (97 <= b <= 122)
}

/// The first position at or after `pos` that does not hold whitespace.
pub open spec fn ws_end(s: Seq<u8>, pos: int) -> int
    recommends
        0 <= pos <= s.len(),
    decreases s.len() - pos,
    when 0 <= pos <= s.len()
{
    if pos < s.len() && is_ws(s[pos]) {
        ws_end(s, pos + 1)
    } else {
        pos
    }
}

/// The first position at or after `pos` that does not hold a decimal digit.
pub open spec fn digits_end(s: Seq<u8>, pos: int) -> int
    recommends
        0 <= pos <= s.len(),
    decreases s.len() - pos,
    when 0 <= pos <= s.len()
{
    if pos < s.len() && is_digit(s[pos]) {
        digits_end(s, pos + 1)
    } else {
        pos
    }
}

/// The first position at or after `pos` that does not hold an identifier
/// byte.
pub open spec fn alnum_end(s: Seq<u8>, pos: int) -> int
    recommends
        0 <= pos <= s.len(),
    decreases s.len() - pos,
    when 0 <= pos <= s.len()
{
    if pos < s.len() && is_alnum(s[pos]) {
        alnum_end(s, pos + 1)
    } else {
        pos
    }
}

pub proof fn lemma_digits_end_bounds(s: Seq<u8>, pos: int)
    requires
        0 <= pos <= s.len(),
    ensures
        pos <= digits_end(s, pos) <= s.len(),
        forall|i: int| pos <= i < digits_end(s, pos) ==> is_digit(s[i]),
    decreases s.len() - pos,
{
    if pos < s.len() && is_digit(s[pos]) {
        lemma_digits_end_bounds(s, pos + 1);
    }
}

pub proof fn lemma_alnum_end_bounds(s: Seq<u8>, pos: int)
    requires
        0 <= pos <= s.len(),
    ensures
        pos <= alnum_end(s, pos) <= s.len(),
        forall|i: int| pos <= i < alnum_end(s, pos) ==> is_alnum(s[i]),
    decreases s.len() - pos,
{
    if pos < s.len() && is_alnum(s[pos]) {
        lemma_alnum_end_bounds(s, pos + 1);
    }
}

/// The value of a run of decimal digit bytes.
pub open spec fn digits_val(s: Seq<u8>) -> int
    decreases s.len(),
{
    if s.len() == 0 {
        0
    } else {
        10 * digits_val(s.drop_last()) + (s.last() - 48)
    }
}

/// One or more digits, a dot, one or more digits.
pub open spec fn is_digits_dot_digits(t: Seq<u8>) -> bool {
    exists|k: int|
        0 < k < t.len() - 1 && t[k] == 46 && (forall|i: int| 0 <= i < k ==> is_digit(#[trigger] t[i]))
            && (forall|i: int| k < i < t.len() ==> is_digit(#[trigger] t[i]))
}

/// Float literal text: an optional minus sign, one or more digits, a dot,
/// one or more digits.
pub open spec fn is_float_text(s: Seq<u8>) -> bool {
    if s.len() > 0 && s[0] == 45 {
        is_digits_dot_digits(s.drop_first())
    } else {
        is_digits_dot_digits(s)
    }
}

/// Exhibiting the dot's position proves the digits-dot-digits shape.
pub proof fn lemma_digits_dot_digits(t: Seq<u8>, k: int)
    requires
        0 < k < t.len() - 1,
        t[k] == 46,
        forall|i: int| 0 <= i < k ==> is_digit(#[trigger] t[i]),
        forall|i: int| k < i < t.len() ==> is_digit(#[trigger] t[i]),
    ensures
        is_digits_dot_digits(t),
{
    assert(0 < k < t.len() - 1 && t[k] == 46 && (forall|i: int|
        0 <= i < k ==> is_digit(#[trigger] t[i])) && (forall|i: int|
        k < i < t.len() ==> is_digit(#[trigger] t[i])));
}

/// An integer literal's value round-trips exactly: rendering a
/// non-negative value to decimal digits and reading the digits back yields
/// the value. With the sign handled by [`crate::bytes::dec_int`], the same
/// holds for every signed value.
pub proof fn lemma_integer_round_trip(v: int)
    requires
        v >= 0,
    ensures
        digits_val(crate::bytes::dec_nat(v)) == v,
    decreases v,
{
    if v < 10 {
        assert(crate::bytes::dec_nat(v).drop_last() =~= Seq::<u8>::empty());
        assert(crate::bytes::dec_nat(v).last() == (48 + v) as u8);
        assert(digits_val(crate::bytes::dec_nat(v)) == 10 * digits_val(Seq::<u8>::empty()) + ((48
            + v) as u8 - 48));
    } else {
        lemma_integer_round_trip(v / 10);
        assert(crate::bytes::dec_nat(v).drop_last() =~= crate::bytes::dec_nat(v / 10));
        assert(crate::bytes::dec_nat(v).last() == (48 + v % 10) as u8);
        assert(digits_val(crate::bytes::dec_nat(v)) == 10 * digits_val(
            crate::bytes::dec_nat(v / 10),
        ) + ((48 + v % 10) as u8 - 48));
        assert(v == 10 * (v / 10) + v % 10);
    }
}

/// A run of digit bytes is non-negative in value.
pub proof fn lemma_digits_val_nonneg(s: Seq<u8>)
    requires
        forall|i: int| 0 <= i < s.len() ==> is_digit(#[trigger] s[i]),
    ensures
        digits_val(s) >= 0,
    decreases s.len(),
{
    if s.len() > 0 {
        assert forall|i: int| 0 <= i < s.drop_last().len() implies is_digit(
            #[trigger] s.drop_last()[i],
        ) by {
            assert(s.drop_last()[i] == s[i]);
        }
        lemma_digits_val_nonneg(s.drop_last());
    }
}

/// A prefix of a digit run is worth no more than the whole run.
pub proof fn lemma_digits_val_prefix_le(s: Seq<u8>, i: int)
    requires
        0 <= i <= s.len(),
        forall|j: int| 0 <= j < s.len() ==> is_digit(#[trigger] s[j]),
    ensures
        digits_val(s.subrange(0, i)) <= digits_val(s),
    decreases s.len(),
{
    if i == s.len() {
        assert(s.subrange(0, i) =~= s);
    } else {
        assert forall|j: int| 0 <= j < s.drop_last().len() implies is_digit(
            #[trigger] s.drop_last()[j],
        ) by {
            assert(s.drop_last()[j] == s[j]);
        }
        lemma_digits_val_prefix_le(s.drop_last(), i);
        lemma_digits_val_nonneg(s.drop_last());
        assert(s.subrange(0, i) =~= s.drop_last().subrange(0, i));
        assert(digits_val(s) == 10 * digits_val(s.drop_last()) + (s.last() - 48));
    }
}

/// `w` occurs at position `pos` of `s`.
pub open spec fn has_prefix_at(s: Seq<u8>, pos: int, w: Seq<u8>) -> bool {
    0 <= pos && pos + w.len() <= s.len() && s.subrange(pos, pos + w.len()) == w
}

pub open spec fn kw_def() -> Seq<u8> {
    seq![100u8, 101u8, 102u8]
}

pub open spec fn kw_if() -> Seq<u8> {
    seq![105u8, 102u8]
}

pub open spec fn kw_elif() -> Seq<u8> {
    seq![101u8, 108u8, 105u8, 102u8]
}

pub open spec fn kw_else() -> Seq<u8> {
    seq![101u8, 108u8, 115u8, 101u8]
}

pub open spec fn kw_return() -> Seq<u8> {
    seq![114u8, 101u8, 116u8, 117u8, 114u8, 110u8]
}

/// One of the reserved words occurs at position `pos`.
pub open spec fn reserved_at(s: Seq<u8>, pos: int) -> bool {
    ||| has_prefix_at(s, pos, kw_def())
    ||| has_prefix_at(s, pos, kw_if())
    ||| has_prefix_at(s, pos, kw_elif())
    ||| has_prefix_at(s, pos, kw_else())
    ||| has_prefix_at(s, pos, kw_return())
}

/// Plain name text: non-empty and alphanumeric.
pub open spec fn is_name_text(s: Seq<u8>) -> bool {
    s.len() > 0 && (forall|i: int| 0 <= i < s.len() ==> is_alnum(#[trigger] s[i]))
}

/// Identifier text: non-empty, alphanumeric, and not led by a reserved word.
pub open spec fn is_identifier_text(s: Seq<u8>) -> bool {
    is_name_text(s) && !reserved_at(s, 0)
}

/// A prefix of a subrange of `s` is a prefix of `s` at the subrange's
/// start.
pub proof fn lemma_prefix_in_subrange(s: Seq<u8>, p: int, a: int, w: Seq<u8>)
    requires
        0 <= p <= a <= s.len(),
        has_prefix_at(s.subrange(p, a), 0, w),
    ensures
        has_prefix_at(s, p, w),
{
    assert(s.subrange(p, p + w.len()) =~= s.subrange(p, a).subrange(0, w.len() as int));
}

/// Skips whitespace: returns the first position at or after `pos` holding a
/// non-whitespace byte, or the input's length.
pub fn skip_ws(s: &[u8], pos: usize) -> (r: usize)
    requires
        pos <= s@.len(),
    ensures
        r == ws_end(s@, pos as int),
        pos <= r <= s@.len(),
{
    let n: usize = s.len();
    let mut i: usize = pos;
    while i < n && (s[i] == 32 || s[i] == 9 || s[i] == 13 || s[i] == 10)
        invariant
            pos <= i <= n,
            n == s@.len(),
            ws_end(s@, pos as int) == ws_end(s@, i as int),
        decreases n - i,
    {
        i = i + 1;
    }
    i
}

/// Scans a run of decimal digits: returns its end.
pub fn scan_digits(s: &[u8], pos: usize) -> (r: usize)
    requires
        pos <= s@.len(),
    ensures
        r == digits_end(s@, pos as int),
        pos <= r <= s@.len(),
{
    let n: usize = s.len();
    let mut i: usize = pos;
    while i < n && 48 <= s[i] && s[i] <= 57
        invariant
            pos <= i <= n,
            n == s@.len(),
            digits_end(s@, pos as int) == digits_end(s@, i as int),
        decreases n - i,
    {
        i = i + 1;
    }
    i
}

/// Scans a run of identifier bytes: returns its end.
pub fn scan_alnum(s: &[u8], pos: usize) -> (r: usize)
    requires
        pos <= s@.len(),
    ensures
        r == alnum_end(s@, pos as int),
        pos <= r <= s@.len(),
{
    let n: usize = s.len();
    let mut i: usize = pos;
    while i < n && (48 <= s[i] && s[i] <= 57 || 65 <= s[i] && s[i] <= 90 || 97 <= s[i] && s[i]
        <= 122)
        invariant
            pos <= i <= n,
            n == s@.len(),
            alnum_end(s@, pos as int) == alnum_end(s@, i as int),
        decreases n - i,
    {
        i = i + 1;
    }
    i
}

/// The position of the first occurrence of byte `b` at or after `pos`, or
/// the input's length when it does not occur.
pub open spec fn find_byte(s: Seq<u8>, pos: int, b: u8) -> int
    recommends
        0 <= pos <= s.len(),
    decreases s.len() - pos,
    when 0 <= pos <= s.len()
{
    if pos < s.len() {
        if s[pos] == b {
            pos
        } else {
            find_byte(s, pos + 1, b)
        }
    } else {
        pos
    }
}

/// Scans forward to the first occurrence of `b`; returns the input's length
/// when `b` does not occur.
pub fn scan_to_byte(s: &[u8], pos: usize, b: u8) -> (r: usize)
    requires
        pos <= s@.len(),
    ensures
        r == find_byte(s@, pos as int, b),
        pos <= r <= s@.len(),
{
    let n: usize = s.len();
    let mut i: usize = pos;
    while i < n && s[i] != b
        invariant
            pos <= i <= n,
            n == s@.len(),
            find_byte(s@, pos as int, b) == find_byte(s@, i as int, b),
        decreases n - i,
    {
        i = i + 1;
    }
    i
}

/// Tests whether the bytes of `w` occur at position `pos` of `s`.
pub fn prefix_at(s: &[u8], pos: usize, w: &[u8]) -> (r: bool)
    requires
        pos <= s@.len(),
    ensures
        r == has_prefix_at(s@, pos as int, w@),
{
    if s.len() - pos < w.len() {
        return false;
    }
    let slen: usize = s.len();
    let n: usize = w.len();
    let mut i: usize = 0;
    while i < n
        invariant
            0 <= i <= n,
            n == w@.len(),
            slen == s@.len(),
            pos + n <= slen,
            forall|j: int| 0 <= j < i ==> s@[pos + j] == w@[j],
        decreases n - i,
    {
        if s[pos + i] != w[i] {
            assert(s@.subrange(pos as int, pos + n) != w@) by {
                assert(s@.subrange(pos as int, pos + n)[i as int] != w@[i as int]);
            }
            return false;
        }
        i = i + 1;
    }
    proof {
        assert(s@.subrange(pos as int, pos + n) =~= w@);
    }
    true
}

} // verus!
