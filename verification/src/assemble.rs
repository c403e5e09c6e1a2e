//! The bridge to the external assembler: the compiler's only collaborator.
//!
//! The emitted instruction text is handed to the Iridium virtual machine's
//! two-pass assembler, which either returns executable bytecode or rejects
//! the text. Nothing of the assembler's behaviour is re-stated here beyond
//! determinism: its output is a function of the text alone, named
//! [`assembled_of`].
//!
//! The assembler is not total: it panics on a register number beyond a
//! byte, on a `#` immediate beyond 32 bits (both run through unchecked
//! numeric conversions in its operand parsers), on a `load` instruction
//! that lacks its immediate operand (its first pass splits wide loads and
//! unwraps the operand), and its 32-bit offset arithmetic is only sound on
//! bounded input. [`assembler_safe`] states a sufficient syntactic
//! condition ruling all of these out; the wrapper requires it, and
//! [`crate::visitor::Compiler::compile`] checks it before calling.

use vstd::prelude::*;

use crate::lexical::digits_end;
use crate::lexical::digits_val;
use crate::lexical::is_digit;
use crate::lexical::lemma_digits_end_bounds;
use crate::lexical::lemma_digits_val_prefix_le;
use crate::lexical::scan_digits;
use crate::lexical::skip_ws;
use crate::lexical::ws_end;

verus! {

/// ASCII letter.
pub open spec fn is_alpha(b: u8) -> bool {
    (65 <= b <= 90) || (97 <= b <= 122)
}

/// ASCII lower-casing of one byte.
pub open spec fn lower(b: u8) -> u8 {
    if 65 <= b <= 90 {
        (b + 32) as u8
    } else {
        b
    }
}

/// The value of the digit run starting at `j`.
pub open spec fn run_val(s: Seq<u8>, j: int) -> int
    recommends
        0 <= j <= s.len(),
{
    digits_val(s.subrange(j, digits_end(s, j)))
}

/// A register operand `$<n>` stays within a byte: the assembler reads the
/// digits after the sigil (and any whitespace) with an unchecked `u8`
/// conversion.
pub open spec fn register_number_ok(s: Seq<u8>, i: int) -> bool
    recommends
        0 <= i < s.len(),
{
    run_val(s, ws_end(s, i + 1)) <= 255
}

/// An immediate `#<n>` stays within 32 bits: the assembler reads the digits
/// after the sigil, optional whitespace and an optional minus sign with an
/// unchecked `i32` conversion.
pub open spec fn immediate_ok(s: Seq<u8>, i: int) -> bool
    recommends
        0 <= i < s.len(),
{
    let k = ws_end(s, i + 1);
    let j = if k < s.len() && s[k] == 45 {
        ws_end(s, k + 1)
    } else {
        k
    };
    run_val(s, j) <= 0x7fff_ffff
}

/// The word `load`, in any case, standing alone as a maximal alphabetic
/// run: exactly the occurrences the assembler can read as the `LOAD`
/// opcode.
pub open spec fn is_load_word_at(s: Seq<u8>, i: int) -> bool {
    &&& 0 <= i
    &&& i + 4 <= s.len()
    &&& lower(s[i]) == 108
    &&& lower(s[i + 1]) == 111
    &&& lower(s[i + 2]) == 97
    &&& lower(s[i + 3]) == 100
    &&& (i == 0 || !is_alpha(s[i - 1]))
    &&& (i + 4 == s.len() || !is_alpha(s[i + 4]))
}

/// A `load` word is followed (through whitespace only) by a `$` register
/// with at least one digit and then a `#` immediate with at least one
/// digit, so the assembler's first pass always finds the immediate operand
/// it unwraps.
pub open spec fn load_operands_ok(s: Seq<u8>, i: int) -> bool {
    let k1 = ws_end(s, i + 4);
    &&& k1 < s.len()
    &&& s[k1] == 36
    &&& digits_end(s, k1 + 1) > k1 + 1
    &&& {
        let k3 = ws_end(s, digits_end(s, k1 + 1));
        &&& k3 < s.len()
        &&& s[k3] == 35
        &&& {
            let k4 = ws_end(s, k3 + 1);
            let k5 = if k4 < s.len() && s[k4] == 45 {
                ws_end(s, k4 + 1)
            } else {
                k4
            };
            digits_end(s, k5) > k5
        }
    }
}

/// Program text on which the external assembler terminates normally: every
/// register number fits a byte, every immediate fits 32 bits, every `load`
/// carries a register and an immediate, and the text is short enough for
/// the assembler's 32-bit offset arithmetic.
pub open spec fn assembler_safe(program: Seq<u8>) -> bool {
    &&& program.len() < 0x4000_0000
    &&& forall|i: int|
        0 <= i < program.len() && (#[trigger] program[i]) == 36 ==> register_number_ok(program, i)
    &&& forall|i: int|
        0 <= i < program.len() && (#[trigger] program[i]) == 35 ==> immediate_ok(program, i)
    &&& forall|i: int| #[trigger] is_load_word_at(program, i) ==> load_operands_ok(program, i)
}

/// What the external assembler produces from this program text: `Some`
/// bytecode exactly when assembling the UTF-8 reading of the bytes
/// succeeds, `None` when the text is rejected (or is not UTF-8). The result
/// depends on the text alone.
pub uninterp spec fn assembled_of(program: Seq<u8>) -> Option<Seq<u8>>;

/// Relies on iridium's `Assembler::new` and `Assembler::assemble`: a fresh
/// assembler turns program text into bytecode deterministically, returning
/// `Ok` bytes or a list of errors. The precondition keeps out the inputs on
/// which the assembler panics instead of returning (unchecked `u8`/`i32`
/// operand conversions, a `load` without its immediate, unbounded offset
/// arithmetic).
#[verifier::external_body]
pub(crate) fn assemble_bytes(program: &[u8]) -> (r: Option<Vec<u8>>)
    requires
        assembler_safe(program@),
    ensures
        (match r {
            Some(b) => assembled_of(program@) == Some(b@),
            None => assembled_of(program@) is None,
        }),
{
    let text = match std::str::from_utf8(program) {
        Ok(t) => t,
        Err(_) => {
            return None;
        },
    };
    let mut assembler = iridium::assembler::Assembler::new();
    assembler.assemble(text).ok()
}

/// Decides whether the digit run starting at `j` is worth at most `bound`.
fn run_fits(s: &[u8], j: usize, bound: u64) -> (b: bool)
    requires
        j <= s@.len(),
        9 <= bound,
    ensures
        b == (run_val(s@, j as int) <= bound),
{
    let e = scan_digits(s, j);
    let ghost digits = s@.subrange(j as int, e as int);
    proof {
        lemma_digits_end_bounds(s@, j as int);
        assert forall|k: int| 0 <= k < digits.len() implies is_digit(#[trigger] digits[k]) by {
            assert(digits[k] == s@[j + k]);
        }
    }
    let mut val: u64 = 0;
    let mut i: usize = j;
    proof {
        assert(s@.subrange(j as int, j as int) =~= Seq::<u8>::empty());
    }
    while i < e
        invariant
            j <= i <= e <= s@.len(),
            e == digits_end(s@, j as int),
            digits == s@.subrange(j as int, e as int),
            forall|k: int| 0 <= k < digits.len() ==> is_digit(#[trigger] digits[k]),
            val == digits_val(s@.subrange(j as int, i as int)),
            val <= bound,
            9 <= bound,
        decreases e - i,
    {
        proof {
            assert(digits[i - j] == s@[i as int]);
            assert(is_digit(s@[i as int]));
        }
        let d: u64 = (s[i] - 48) as u64;
        if val > (bound - d) / 10 {
            proof {
                assert(10 * val + d > bound) by {
                    assert(bound - d == 10 * ((bound - d) / 10) + (bound - d) % 10);
                };
                assert(s@.subrange(j as int, i as int + 1).drop_last() =~= s@.subrange(
                    j as int,
                    i as int,
                ));
                assert(digits_val(s@.subrange(j as int, i as int + 1)) > bound);
                assert(digits.subrange(0, i as int + 1 - j) =~= s@.subrange(
                    j as int,
                    i as int + 1,
                ));
                lemma_digits_val_prefix_le(digits, i as int + 1 - j);
            }
            return false;
        }
        proof {
            assert(10 * val + d <= bound) by {
                assert(bound - d == 10 * ((bound - d) / 10) + (bound - d) % 10);
            };
            assert(s@.subrange(j as int, i as int + 1).drop_last() =~= s@.subrange(
                j as int,
                i as int,
            ));
        }
        val = val * 10 + d;
        i = i + 1;
    }
    true
}

/// Decides whether the word `load` (in any case) stands at `i` as a
/// maximal alphabetic run.
fn load_word_at(s: &[u8], i: usize) -> (b: bool)
    requires
        i < s@.len(),
    ensures
        b == is_load_word_at(s@, i as int),
{
    if s.len() - i < 4 {
        return false;
    }
    let b0 = if 65 <= s[i] && s[i] <= 90 {
        s[i] + 32
    } else {
        s[i]
    };
    let b1 = if 65 <= s[i + 1] && s[i + 1] <= 90 {
        s[i + 1] + 32
    } else {
        s[i + 1]
    };
    let b2 = if 65 <= s[i + 2] && s[i + 2] <= 90 {
        s[i + 2] + 32
    } else {
        s[i + 2]
    };
    let b3 = if 65 <= s[i + 3] && s[i + 3] <= 90 {
        s[i + 3] + 32
    } else {
        s[i + 3]
    };
    if !(b0 == 108 && b1 == 111 && b2 == 97 && b3 == 100) {
        return false;
    }
    if i > 0 {
        let p = s[i - 1];
        if 65 <= p && p <= 90 || 97 <= p && p <= 122 {
            return false;
        }
    }
    if i + 4 < s.len() {
        let q = s[i + 4];
        if 65 <= q && q <= 90 || 97 <= q && q <= 122 {
            return false;
        }
    }
    true
}

/// Decides whether the `load` word at `i` carries its register and
/// immediate operands.
fn load_operands_present(s: &[u8], i: usize) -> (b: bool)
    requires
        i < s@.len(),
        i + 4 <= s@.len(),
    ensures
        b == load_operands_ok(s@, i as int),
{
    let n: usize = s.len();
    proof {
        assert(i + 4 <= n);
    }
    let k1 = skip_ws(s, i + 4);
    if !(k1 < s.len() && s[k1] == 36) {
        return false;
    }
    let d1 = scan_digits(s, k1 + 1);
    if d1 == k1 + 1 {
        return false;
    }
    let k3 = skip_ws(s, d1);
    if !(k3 < s.len() && s[k3] == 35) {
        return false;
    }
    let k4 = skip_ws(s, k3 + 1);
    let k5 = if k4 < s.len() && s[k4] == 45 {
        skip_ws(s, k4 + 1)
    } else {
        k4
    };
    let d2 = scan_digits(s, k5);
    d2 > k5
}

/// Decides [`assembler_safe`] for a program text.
pub fn check_assembler_safe(s: &[u8]) -> (b: bool)
    ensures
        b == assembler_safe(s@),
{
    let n: usize = s.len();
    if n >= 0x4000_0000 {
        return false;
    }
    let mut i: usize = 0;
    while i < n
        invariant
            0 <= i <= n,
            n == s@.len(),
            n < 0x4000_0000,
            forall|k: int|
                0 <= k < i && (#[trigger] s@[k]) == 36 ==> register_number_ok(s@, k),
            forall|k: int|
                0 <= k < i && (#[trigger] s@[k]) == 35 ==> immediate_ok(s@, k),
            forall|k: int|
                k < i && #[trigger] is_load_word_at(s@, k) ==> load_operands_ok(s@, k),
        decreases n - i,
    {
        if s[i] == 36 {
            let k = skip_ws(s, i + 1);
            if !run_fits(s, k, 255) {
                return false;
            }
        }
        if s[i] == 35 {
            let k = skip_ws(s, i + 1);
            let j = if k < n && s[k] == 45 {
                skip_ws(s, k + 1)
            } else {
                k
            };
            if !run_fits(s, j, 0x7fff_ffff) {
                return false;
            }
        }
        if load_word_at(s, i) {
            if !load_operands_present(s, i) {
                return false;
            }
        }
        i = i + 1;
    }
    proof {
        assert forall|k: int| #[trigger]
            is_load_word_at(s@, k) implies load_operands_ok(s@, k) by {
            assert(0 <= k < n);
        }
    }
    true
}

} // verus!
