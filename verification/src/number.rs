//! The grammar of sample values.
//!
//! A value is kept as the decimal literal that the line carried. A token is a
//! value exactly when it is a literal that the standard library's parser of
//! double-precision numbers accepts, so a value that the line parser let
//! through converts to a number without a failure case:
//!
//! ```text
//! Literal ::= Sign? ( 'inf' | 'infinity' | 'nan' | Number )
//! Number  ::= ( Digit+ | Digit+ '.' Digit* | Digit* '.' Digit+ ) Exp?
//! Exp     ::= 'e' Sign? Digit+
//! Sign    ::= [+-]
//! Digit   ::= [0-9]
//! ```
//!
//! Letters match without regard to case.

use vstd::prelude::*;
use vstd::slice::slice_subrange;
use crate::text::{scan, lemma_scan};

verus! {

/// An ASCII decimal digit.
pub open spec fn digit(c: char) -> bool {
    '0' <= c <= '9'
}

/// A sign character.
pub open spec fn sign(c: char) -> bool {
    c == '+' || c == '-'
}

/// An ASCII letter of either case.
pub open spec fn letter(c: char) -> bool {
    ('a' <= c <= 'z') || ('A' <= c <= 'Z')
}

/// Whether `c` is the lower-case letter `l` or its upper-case form.
pub open spec fn same_letter(c: char, l: char) -> bool {
    c == l || ('A' <= c <= 'Z' && c as u32 + 32 == l as u32)
}

/// Whether `s` spells the lower-case `word`, letter case aside.
pub open spec fn spells(s: Seq<char>, word: Seq<char>) -> bool {
    &&& s.len() == word.len()
    &&& forall|i: int| 0 <= i < s.len() ==> same_letter(#[trigger] s[i], word[i])
}

/// The three spellings that stand for a value that is not finite.
pub open spec fn special(s: Seq<char>) -> bool {
    ||| spells(s, seq!['i', 'n', 'f'])
    ||| spells(s, seq!['i', 'n', 'f', 'i', 'n', 'i', 't', 'y'])
    ||| spells(s, seq!['n', 'a', 'n'])
}

/// The stopping rule that holds of everything but digits.
pub open spec fn non_digit() -> spec_fn(char) -> bool {
    |c: char| !digit(c)
}

/// Where the run of digits that starts at `from` ends.
pub open spec fn digits_end(s: Seq<char>, from: int) -> int {
    scan(s, from, non_digit())
}

/// `Exp`: an `e`, an optional sign, and at least one digit up to the end.
pub open spec fn exponent(s: Seq<char>) -> bool {
    &&& s.len() >= 2
    &&& same_letter(s[0], 'e')
    &&& {
        let first: int = if sign(s[1]) { 2 } else { 1 };
        first < s.len() && digits_end(s, first) == s.len()
    }
}

/// `Number`: digits with at most one point among them, at least one digit in
/// all, and an optional exponent.
pub open spec fn number(s: Seq<char>) -> bool {
    let whole = digits_end(s, 0);
    let pointed = whole < s.len() && s[whole] == '.';
    let mantissa = if pointed { digits_end(s, whole + 1) } else { whole };
    let count = if pointed { mantissa - 1 } else { mantissa };
    &&& count > 0
    &&& (mantissa == s.len() || exponent(s.skip(mantissa)))
}

/// `Literal`: the tokens that are sample values.
pub open spec fn float_literal(s: Seq<char>) -> bool {
    let unsigned = if s.len() > 0 && sign(s[0]) { s.skip(1) } else { s };
    special(unsigned) || number(unsigned)
}

/// Decides [`digit`].
pub(crate) fn is_digit(c: char) -> (r: bool)
    ensures
        r == digit(c),
{
    '0' <= c && c <= '9'
}

/// Decides [`sign`].
pub(crate) fn is_sign(c: char) -> (r: bool)
    ensures
        r == sign(c),
{
    c == '+' || c == '-'
}

/// Decides [`same_letter`].
pub(crate) fn is_same_letter(c: char, l: char) -> (r: bool)
    ensures
        r == same_letter(c, l),
{
    c == l || ('A' <= c && c <= 'Z' && c as u32 + 32 == l as u32)
}

/// Finds the end of the run of digits that starts at `from`.
pub(crate) fn skip_digits(chars: &[char], from: usize) -> (r: usize)
    requires
        from <= chars@.len(),
    ensures
        r == digits_end(chars@, from as int),
        from <= r <= chars@.len(),
{
    let mut i: usize = from;
    while i < chars.len() && is_digit(chars[i])
        invariant
            from <= i <= chars@.len(),
            digits_end(chars@, from as int) == digits_end(chars@, i as int),
        decreases chars@.len() - i,
    {
        i += 1;
    }
    i
}

/// Decides [`spells`] for a lower-case word.
pub(crate) fn is_spelling(chars: &[char], word: &[char]) -> (r: bool)
    ensures
        r == spells(chars@, word@),
{
    if chars.len() != word.len() {
        return false;
    }
    let mut i: usize = 0;
    while i < chars.len()
        invariant
            i <= chars@.len() == word@.len(),
            forall|k: int| 0 <= k < i ==> same_letter(#[trigger] chars@[k], word@[k]),
        decreases chars@.len() - i,
    {
        if !is_same_letter(chars[i], word[i]) {
            return false;
        }
        i += 1;
    }
    true
}

/// Decides [`special`].
pub(crate) fn is_special(chars: &[char]) -> (r: bool)
    ensures
        r == special(chars@),
{
    let inf: [char; 3] = ['i', 'n', 'f'];
    let infinity: [char; 8] = ['i', 'n', 'f', 'i', 'n', 'i', 't', 'y'];
    let nan: [char; 3] = ['n', 'a', 'n'];
    assert(inf@ == seq!['i', 'n', 'f']);
    assert(infinity@ == seq!['i', 'n', 'f', 'i', 'n', 'i', 't', 'y']);
    assert(nan@ == seq!['n', 'a', 'n']);
    is_spelling(chars, inf.as_slice()) || is_spelling(chars, infinity.as_slice()) || is_spelling(
        chars,
        nan.as_slice(),
    )
}

/// Decides [`exponent`].
pub(crate) fn is_exponent(chars: &[char]) -> (r: bool)
    ensures
        r == exponent(chars@),
{
    if chars.len() < 2 || !is_same_letter(chars[0], 'e') {
        return false;
    }
    let first: usize = if is_sign(chars[1]) { 2 } else { 1 };
    first < chars.len() && skip_digits(chars, first) == chars.len()
}

/// Decides [`number`].
pub(crate) fn is_number(chars: &[char]) -> (r: bool)
    ensures
        r == number(chars@),
{
    let whole: usize = skip_digits(chars, 0);
    let pointed: bool = whole < chars.len() && chars[whole] == '.';
    let mantissa: usize = if pointed { skip_digits(chars, whole + 1) } else { whole };
    let count: usize = if pointed { mantissa - 1 } else { mantissa };
    if count == 0 {
        return false;
    }
    if mantissa == chars.len() {
        return true;
    }
    let rest = slice_subrange(chars, mantissa, chars.len());
    assert(rest@ == chars@.skip(mantissa as int));
    is_exponent(rest)
}

/// Decides [`float_literal`].
pub fn is_float_literal(chars: &[char]) -> (r: bool)
    ensures
        r == float_literal(chars@),
{
    if chars.len() > 0 && is_sign(chars[0]) {
        let unsigned = slice_subrange(chars, 1, chars.len());
        assert(unsigned@ == chars@.skip(1));
        is_special(unsigned) || is_number(unsigned)
    } else {
        is_special(chars) || is_number(chars)
    }
}

/// No literal is empty, and a literal holds nothing but digits, signs, the
/// point and ASCII letters.
pub proof fn lemma_literal_alphabet(s: Seq<char>)
    requires
        float_literal(s),
    ensures
        s.len() > 0,
        forall|i: int|
            0 <= i < s.len() ==> {
                let c = #[trigger] s[i];
                digit(c) || sign(c) || c == '.' || letter(c)
            },
{
    let unsigned = if s.len() > 0 && sign(s[0]) { s.skip(1) } else { s };
    let shift: int = if s.len() > 0 && sign(s[0]) { 1 } else { 0 };
    assert forall|i: int| 0 <= i < unsigned.len() implies {
        let c = #[trigger] unsigned[i];
        digit(c) || sign(c) || c == '.' || letter(c)
    } by {
        if special(unsigned) {
            let inf = seq!['i', 'n', 'f'];
            let infinity = seq!['i', 'n', 'f', 'i', 'n', 'i', 't', 'y'];
            let nan = seq!['n', 'a', 'n'];
            if spells(unsigned, inf) {
                assert(same_letter(unsigned[i], inf[i]) && 'a' <= inf[i] <= 'z');
            } else if spells(unsigned, infinity) {
                assert(same_letter(unsigned[i], infinity[i]) && 'a' <= infinity[i] <= 'z');
            } else {
                assert(same_letter(unsigned[i], nan[i]) && 'a' <= nan[i] <= 'z');
            }
        } else {
            let stop = non_digit();
            let whole = digits_end(unsigned, 0);
            lemma_scan(unsigned, 0, stop);
            let pointed = whole < unsigned.len() && unsigned[whole] == '.';
            let mantissa = if pointed { digits_end(unsigned, whole + 1) } else { whole };
            if pointed {
                lemma_scan(unsigned, whole + 1, stop);
            }
            if i >= mantissa {
                let tail = unsigned.skip(mantissa);
                assert(exponent(tail));
                let first: int = if sign(tail[1]) { 2 } else { 1 };
                lemma_scan(tail, first, stop);
                assert(unsigned[i] == tail[i - mantissa]);
                if i - mantissa >= first {
                    assert(!stop(tail[i - mantissa]));
                }
            } else if i < whole {
                assert(!stop(unsigned[i]));
            } else if i > whole {
                assert(!stop(unsigned[i]));
            }
        }
    }
    assert forall|i: int| 0 <= i < s.len() implies {
        let c = #[trigger] s[i];
        digit(c) || sign(c) || c == '.' || letter(c)
    } by {
        if i >= shift {
            assert(s[i] == unsigned[i - shift]);
        }
    }
    if !special(unsigned) {
        lemma_scan(unsigned, 0, non_digit());
    }
}

} // verus!
