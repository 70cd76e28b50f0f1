//! The text of a floating-point literal. Only the grammar lives here: the
//! literal is carried as text, and no floating-point arithmetic is done on it.

use vstd::prelude::*;

use crate::ascii::{DOT, LOWER_E, UPPER_A, UPPER_Z};
use crate::digits::{all_digits, is_digit, is_sign, unsigned_part};

verus! {

/// The lower-case form of an ASCII letter; any other byte is left as it is.
pub open spec fn to_lower(b: u8) -> u8 {
    if UPPER_A <= b <= UPPER_Z {
        (b + 32) as u8
    } else {
        b
    }
}

/// The text with every ASCII letter in lower case.
pub open spec fn lowered(s: Seq<u8>) -> Seq<u8> {
    Seq::new(s.len(), |i: int| to_lower(s[i]))
}

/// The bytes of `inf`.
pub open spec fn word_inf() -> Seq<u8> {
    seq![105u8, 110u8, 102u8]
}

/// The bytes of `infinity`.
pub open spec fn word_infinity() -> Seq<u8> {
    seq![105u8, 110u8, 102u8, 105u8, 110u8, 105u8, 116u8, 121u8]
}

/// The bytes of `nan`.
pub open spec fn word_nan() -> Seq<u8> {
    seq![110u8, 97u8, 110u8]
}

/// One of the words `inf`, `infinity` and `nan`, in any mix of cases.
pub open spec fn is_special_float(s: Seq<u8>) -> bool {
    lowered(s) == word_inf() || lowered(s) == word_infinity() || lowered(s) == word_nan()
}

/// Digits with at most one decimal point among them, and at least one digit.
pub open spec fn is_mantissa(s: Seq<u8>) -> bool {
    ||| s.len() >= 1 && all_digits(s)
    ||| exists|k: int|
        0 <= k < s.len() && s.len() >= 2 && s[k] == DOT && all_digits(s.take(k)) && all_digits(
            #[trigger] s.skip(k + 1),
        )
}

/// The letter `e` in either case, an optional sign, and one or more digits.
pub open spec fn is_exponent(s: Seq<u8>) -> bool {
    &&& s.len() >= 2
    &&& to_lower(s[0]) == LOWER_E
    &&& unsigned_part(s.skip(1)).len() >= 1
    &&& all_digits(unsigned_part(s.skip(1)))
}

/// A mantissa, optionally followed by an exponent.
pub open spec fn is_decimal_float(s: Seq<u8>) -> bool {
    ||| is_mantissa(s)
    ||| exists|k: int| 0 <= k <= s.len() && is_mantissa(#[trigger] s.take(k)) && is_exponent(s.skip(k))
}

/// The grammar of a floating-point literal: an optional sign, then a special
/// word or a decimal number with an optional exponent.
pub open spec fn is_float_literal(s: Seq<u8>) -> bool {
    is_special_float(unsigned_part(s)) || is_decimal_float(unsigned_part(s))
}

fn lower(b: u8) -> (r: u8)
    ensures
        r == to_lower(b),
{
    if b >= UPPER_A && b <= UPPER_Z {
        b + 32
    } else {
        b
    }
}

fn is_special(body: &[u8]) -> (r: bool)
    ensures
        r == is_special_float(body@),
{
    let n: usize = body.len();
    let ghost low = lowered(body@);
    assert(low.len() == n);
    assert(word_inf().len() == 3 && word_nan().len() == 3 && word_infinity().len() == 8);
    if n == 3 {
        let a: u8 = lower(body[0]);
        let b: u8 = lower(body[1]);
        let c: u8 = lower(body[2]);
        assert(low[0] == a && low[1] == b && low[2] == c);
        let inf: bool = a == 105 && b == 110 && c == 102;
        let nan: bool = a == 110 && b == 97 && c == 110;
        assert(inf <==> low =~= word_inf());
        assert(nan <==> low =~= word_nan());
        inf || nan
    } else if n == 8 {
        let r: bool = lower(body[0]) == 105 && lower(body[1]) == 110 && lower(body[2]) == 102
            && lower(body[3]) == 105 && lower(body[4]) == 110 && lower(body[5]) == 105 && lower(
            body[6],
        ) == 116 && lower(body[7]) == 121;
        assert(low[0] == to_lower(body@[0]) && low[1] == to_lower(body@[1]) && low[2] == to_lower(
            body@[2],
        ) && low[3] == to_lower(body@[3]) && low[4] == to_lower(body@[4]) && low[5] == to_lower(
            body@[5],
        ) && low[6] == to_lower(body@[6]) && low[7] == to_lower(body@[7]));
        assert(r <==> low =~= word_infinity());
        r
    } else {
        false
    }
}

/// The index after the longest run of digits that starts at `from`.
fn scan_digits(body: &[u8], from: usize) -> (end: usize)
    requires
        from <= body.len(),
    ensures
        from <= end <= body.len(),
        forall|j: int| from <= j < end ==> is_digit(#[trigger] body@[j]),
        end < body.len() ==> !is_digit(body@[end as int]),
{
    let mut i: usize = from;
    while i < body.len() && body[i] >= crate::ascii::ZERO && body[i] <= crate::ascii::NINE
        invariant
            from <= i <= body.len(),
            forall|j: int| from <= j < i ==> is_digit(#[trigger] body@[j]),
        decreases body.len() - i,
    {
        i += 1;
    }
    i
}

/// Where the mantissa of a text ends, given what a scan of it has found: a
/// run of digits up to `int_end`, a decimal point there or not, and a second
/// run of digits from `frac_start` to `frac_end`.
proof fn lemma_mantissa_end(s: Seq<u8>, int_end: int, frac_start: int, frac_end: int)
    requires
        0 <= int_end <= frac_start <= frac_end <= s.len(),
        forall|j: int| 0 <= j < int_end ==> is_digit(#[trigger] s[j]),
        int_end < s.len() ==> !is_digit(s[int_end]),
        frac_start == int_end + 1 ==> s[int_end] == DOT,
        frac_start != int_end + 1 ==> frac_start == int_end && (int_end < s.len() ==> s[int_end]
            != DOT),
        forall|j: int| frac_start <= j < frac_end ==> is_digit(#[trigger] s[j]),
        frac_end < s.len() ==> !is_digit(s[frac_end]),
    ensures
        is_mantissa(s.take(frac_end)) <==> int_end + (frac_end - frac_start) >= 1,
        forall|k: int|
            0 <= k <= s.len() && #[trigger] is_mantissa(s.take(k)) && (k < s.len() ==> !is_digit(
                s[k],
            ) && s[k] != DOT) ==> k == frac_end,
{
    let m = s.take(frac_end);
    if int_end + (frac_end - frac_start) >= 1 {
        if frac_start == int_end {
            assert(all_digits(m));
        } else {
            assert(m[int_end] == DOT);
            assert(all_digits(m.take(int_end)));
            assert(all_digits(m.skip(int_end + 1)));
        }
        assert(is_mantissa(m));
    } else {
        if is_mantissa(m) {
            if m.len() >= 1 && all_digits(m) {
                assert(is_digit(m[0]));
            }
        }
    }
    assert forall|k: int|
        0 <= k <= s.len() && #[trigger] is_mantissa(s.take(k)) && (k < s.len() ==> !is_digit(s[k])
            && s[k] != DOT) implies k == frac_end by {
        let p = s.take(k);
        if p.len() >= 1 && all_digits(p) {
            if k > int_end {
                assert(is_digit(p[int_end]));
            }
            assert(k == int_end);
        } else {
            let j = choose|j: int|
                0 <= j < p.len() && p.len() >= 2 && p[j] == DOT && all_digits(p.take(j))
                    && all_digits(#[trigger] p.skip(j + 1));
            if j < int_end {
                assert(is_digit(s[j]));
            }
            if j > int_end {
                assert(is_digit(p.take(j)[int_end]));
            }
            assert(j == int_end);
            if k > frac_end {
                assert(is_digit(p.skip(j + 1)[frac_end - (j + 1)]));
            }
            if k < frac_end {
                assert(is_digit(s[k]));
            }
        }
    }
}

fn is_number(body: &[u8]) -> (r: bool)
    ensures
        r == is_decimal_float(body@),
{
    let n: usize = body.len();
    let int_end: usize = scan_digits(body, 0);
    let has_dot: bool = int_end < n && body[int_end] == DOT;
    let frac_start: usize = if has_dot {
        int_end + 1
    } else {
        int_end
    };
    let frac_end: usize = scan_digits(body, frac_start);
    proof {
        lemma_mantissa_end(body@, int_end as int, frac_start as int, frac_end as int);
        assert(body@.take(n as int) =~= body@);
    }
    if int_end + (frac_end - frac_start) == 0 {
        return false;
    }
    if frac_end == n {
        return true;
    }
    let ghost tail = body@.skip(frac_end as int);
    assert(tail[0] == body@[frac_end as int]);
    if lower(body[frac_end]) != LOWER_E {
        return false;
    }
    let signed: bool = frac_end + 1 < n && (body[frac_end + 1] == crate::ascii::PLUS
        || body[frac_end + 1] == crate::ascii::MINUS);
    let exp_start: usize = if signed {
        frac_end + 2
    } else {
        frac_end + 1
    };
    let exp_end: usize = scan_digits(body, exp_start);
    proof {
        let rest = tail.skip(1);
        assert(rest =~= body@.skip(frac_end + 1));
        if rest.len() > 0 {
            assert(rest[0] == body@[frac_end + 1]);
        }
        let digits = unsigned_part(rest);
        assert(digits =~= body@.skip(exp_start as int));
        if exp_start < n && exp_end == n {
            assert(all_digits(digits));
        } else if exp_start < n {
            assert(digits[exp_end - exp_start] == body@[exp_end as int]);
        }
    }
    exp_start < n && exp_end == n
}

/// Whether the text is a floating-point literal.
pub fn is_float_text(text: &[u8]) -> (r: bool)
    ensures
        r == is_float_literal(text@),
{
    let n: usize = text.len();
    let start: usize = if n > 0 && (text[0] == crate::ascii::PLUS || text[0]
        == crate::ascii::MINUS) {
        1
    } else {
        0
    };
    let body = vstd::slice::slice_subrange(text, start, n);
    assert(body@ =~= unsigned_part(text@));
    is_special(body) || is_number(body)
}

/// A mantissa holds digits and decimal points only.
proof fn lemma_mantissa_bytes(s: Seq<u8>)
    requires
        is_mantissa(s),
    ensures
        forall|j: int| 0 <= j < s.len() ==> is_digit(#[trigger] s[j]) || s[j] == DOT,
{
    if s.len() >= 1 && all_digits(s) {
    } else {
        let k = choose|k: int|
            0 <= k < s.len() && s.len() >= 2 && s[k] == DOT && all_digits(s.take(k)) && all_digits(
                #[trigger] s.skip(k + 1),
            );
        assert forall|j: int| 0 <= j < s.len() implies is_digit(#[trigger] s[j]) || s[j]
            == DOT by {
            if j < k {
                assert(s.take(k)[j] == s[j]);
            } else if j > k {
                assert(s.skip(k + 1)[j - (k + 1)] == s[j]);
            }
        }
    }
}

/// An exponent holds the letter `e`, signs and digits only.
proof fn lemma_exponent_bytes(s: Seq<u8>)
    requires
        is_exponent(s),
    ensures
        forall|j: int|
            0 <= j < s.len() ==> is_digit(#[trigger] s[j]) || is_sign(s[j]) || to_lower(s[j])
                == LOWER_E,
{
    let rest = s.skip(1);
    let digits = unsigned_part(rest);
    assert forall|j: int| 0 <= j < s.len() implies is_digit(#[trigger] s[j]) || is_sign(s[j])
        || to_lower(s[j]) == LOWER_E by {
        if j >= 1 {
            assert(rest[j - 1] == s[j]);
            if is_sign(rest[0]) {
                if j >= 2 {
                    assert(digits[j - 2] == s[j]);
                }
            } else {
                assert(digits[j - 1] == s[j]);
            }
        }
    }
}

/// A floating-point literal holds neither a carriage return nor a line feed.
pub proof fn lemma_float_literal_bytes(s: Seq<u8>)
    requires
        is_float_literal(s),
    ensures
        forall|j: int|
            0 <= j < s.len() ==> #[trigger] s[j] != crate::ascii::CR && s[j] != crate::ascii::LF,
{
    let body = unsigned_part(s);
    let shift = s.len() - body.len();
    assert forall|j: int| 0 <= j < body.len() implies #[trigger] body[j] != crate::ascii::CR
        && body[j] != crate::ascii::LF by {
        if is_special_float(body) {
            let low = lowered(body);
            assert(low[j] == to_lower(body[j]));
            if low == word_inf() {
                assert(low.len() == 3);
            } else if low == word_nan() {
                assert(low.len() == 3);
            } else {
                assert(low.len() == 8);
            }
        } else if is_mantissa(body) {
            lemma_mantissa_bytes(body);
        } else {
            let k = choose|k: int|
                0 <= k <= body.len() && is_mantissa(#[trigger] body.take(k)) && is_exponent(
                    body.skip(k),
                );
            lemma_mantissa_bytes(body.take(k));
            lemma_exponent_bytes(body.skip(k));
            if j < k {
                assert(body.take(k)[j] == body[j]);
            } else {
                assert(body.skip(k)[j - k] == body[j]);
            }
        }
    }
    assert forall|j: int| 0 <= j < s.len() implies #[trigger] s[j] != crate::ascii::CR && s[j]
        != crate::ascii::LF by {
        if j >= shift {
            assert(body[j - shift] == s[j]);
        }
    }
}

} // verus!
