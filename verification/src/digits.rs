//! Decimal integers as ASCII text: the grammar, its value, and the inverse.

use vstd::prelude::*;

use crate::ascii::{MINUS, NINE, PLUS, ZERO};

verus! {

/// What is wrong with a piece of text that should have been a decimal integer.
#[derive(Debug, PartialEq, Eq, Clone, Copy, Structural)]
pub enum IntErrorKind {
    /// There is no text at all.
    Empty,
    /// A sign stands alone, or some byte is not a digit.
    InvalidDigit,
    /// The digits are sound but the number is above the largest accepted value.
    PosOverflow,
    /// The digits are sound but the number is below the smallest accepted value.
    NegOverflow,
}

/// An ASCII digit.
pub open spec fn is_digit(b: u8) -> bool {
    ZERO <= b <= NINE
}

/// A plus or minus sign.
pub open spec fn is_sign(b: u8) -> bool {
    b == PLUS || b == MINUS
}

/// Every byte is an ASCII digit.
pub open spec fn all_digits(s: Seq<u8>) -> bool {
    forall|i: int| 0 <= i < s.len() ==> is_digit(#[trigger] s[i])
}

/// The number that a run of digits denotes in base ten.
pub open spec fn decimal_value(s: Seq<u8>) -> nat
    decreases s.len(),
{
    if s.len() == 0 {
        0
    } else {
        decimal_value(s.drop_last()) * 10 + (s.last() - ZERO) as nat
    }
}

/// The digits of a signed decimal: the text without its leading sign, if it has one.
pub open spec fn unsigned_part(s: Seq<u8>) -> Seq<u8> {
    if s.len() > 0 && is_sign(s[0]) {
        s.skip(1)
    } else {
        s
    }
}

/// The grammar of a signed decimal and its value within `lo..=hi`: an optional
/// sign, then one or more digits.
pub open spec fn parse_decimal(s: Seq<u8>, lo: int, hi: int) -> Result<int, IntErrorKind> {
    let digits = unsigned_part(s);
    if s.len() == 0 {
        Err(IntErrorKind::Empty)
    } else if digits.len() == 0 || !all_digits(digits) {
        Err(IntErrorKind::InvalidDigit)
    } else {
        let value = if s[0] == MINUS {
            -(decimal_value(digits) as int)
        } else {
            decimal_value(digits) as int
        };
        if value > hi {
            Err(IntErrorKind::PosOverflow)
        } else if value < lo {
            Err(IntErrorKind::NegOverflow)
        } else {
            Ok(value)
        }
    }
}

/// Carries a parse over the mathematical integers to a machine type.
pub open spec fn as_i64(r: Result<int, IntErrorKind>) -> Result<i64, IntErrorKind> {
    match r {
        Ok(v) => Ok(v as i64),
        Err(k) => Err(k),
    }
}

/// Carries a parse over the mathematical integers to a machine type.
pub open spec fn as_isize(r: Result<int, IntErrorKind>) -> Result<isize, IntErrorKind> {
    match r {
        Ok(v) => Ok(v as isize),
        Err(k) => Err(k),
    }
}

/// Appending one digit multiplies the value by ten and adds the digit.
pub proof fn lemma_decimal_value_push(s: Seq<u8>, b: u8)
    ensures
        decimal_value(s.push(b)) == decimal_value(s) * 10 + (b - ZERO) as nat,
{
    assert(s.push(b).drop_last() =~= s);
}

/// A longer run of digits never denotes a smaller number than its prefix.
pub proof fn lemma_decimal_value_take(s: Seq<u8>, k: int)
    requires
        0 <= k < s.len(),
        is_digit(s[k]),
    ensures
        decimal_value(s.take(k + 1)) == decimal_value(s.take(k)) * 10 + (s[k] - ZERO) as nat,
{
    assert(s.take(k + 1).drop_last() =~= s.take(k));
}

/// Reads a signed decimal that fits in an `i64`.
pub fn parse_i64(text: &[u8]) -> (r: Result<i64, IntErrorKind>)
    ensures
        r == as_i64(parse_decimal(text@, i64::MIN as int, i64::MAX as int)),
{
    let n: usize = text.len();
    if n == 0 {
        return Err(IntErrorKind::Empty);
    }
    let negative: bool = text[0] == MINUS;
    let start: usize = if text[0] == MINUS || text[0] == PLUS {
        1
    } else {
        0
    };
    let ghost digits = unsigned_part(text@);
    assert(digits =~= text@.skip(start as int));
    if start == n {
        return Err(IntErrorKind::InvalidDigit);
    }
    let mut i: usize = start;
    while i < n
        invariant
            start <= i <= n,
            n == text.len(),
            digits == text@.skip(start as int),
            digits == unsigned_part(text@),
            forall|j: int| 0 <= j < i - start ==> is_digit(#[trigger] digits[j]),
        decreases n - i,
    {
        if !(text[i] >= ZERO && text[i] <= NINE) {
            assert(digits[i - start] == text@[i as int]);
            assert(!all_digits(digits));
            return Err(IntErrorKind::InvalidDigit);
        }
        i += 1;
    }
    assert(all_digits(digits));
    // The magnitude, as long as it stays within 2^63; `over` once it has left it.
    let limit: u64 = 9_223_372_036_854_775_808;
    let mut magnitude: u64 = 0;
    let mut over: bool = false;
    let mut k: usize = start;
    assert(digits.take(0) =~= Seq::<u8>::empty());
    while k < n
        invariant
            start <= k <= n,
            n == text.len(),
            limit == 9_223_372_036_854_775_808,
            digits == text@.skip(start as int),
            all_digits(digits),
            !over ==> magnitude == decimal_value(digits.take(k - start)) && magnitude <= limit,
            over ==> decimal_value(digits.take(k - start)) > limit,
        decreases n - k,
    {
        proof {
            assert(digits[k - start] == text@[k as int]);
            assert(is_digit(digits[k - start]));
            lemma_decimal_value_take(digits, k - start);
        }
        let d: u64 = (text[k] - ZERO) as u64;
        if !over {
            if magnitude > (limit - d) / 10 {
                over = true;
            } else {
                magnitude = magnitude * 10 + d;
            }
        }
        k += 1;
    }
    assert(digits.take(n - start) =~= digits);
    if negative {
        if over {
            Err(IntErrorKind::NegOverflow)
        } else if magnitude == limit {
            Ok(i64::MIN)
        } else {
            Ok(-(magnitude as i64))
        }
    } else {
        if over || magnitude == limit {
            Err(IntErrorKind::PosOverflow)
        } else {
            Ok(magnitude as i64)
        }
    }
}

/// Reads a signed decimal that fits in an `isize`.
pub fn parse_isize(text: &[u8]) -> (r: Result<isize, IntErrorKind>)
    ensures
        r == as_isize(parse_decimal(text@, isize::MIN as int, isize::MAX as int)),
{
    match parse_i64(text) {
        Ok(v) => {
            if v > isize::MAX as i64 {
                Err(IntErrorKind::PosOverflow)
            } else if v < isize::MIN as i64 {
                Err(IntErrorKind::NegOverflow)
            } else {
                Ok(v as isize)
            }
        },
        Err(k) => Err(k),
    }
}

/// The shortest run of digits that denotes `n`.
pub open spec fn decimal_text(n: nat) -> Seq<u8>
    decreases n,
{
    if n < 10 {
        seq![(ZERO + n) as u8]
    } else {
        decimal_text(n / 10).push((ZERO + n % 10) as u8)
    }
}

/// The decimal form of a signed integer: a minus sign for a negative number,
/// no sign otherwise.
pub open spec fn int_text(i: int) -> Seq<u8> {
    if i < 0 {
        seq![MINUS] + decimal_text((-i) as nat)
    } else {
        decimal_text(i as nat)
    }
}

/// The text of a number is made of digits, is not empty, and denotes that number.
pub proof fn lemma_decimal_text(n: nat)
    ensures
        decimal_text(n).len() >= 1,
        all_digits(decimal_text(n)),
        decimal_value(decimal_text(n)) == n,
    decreases n,
{
    if n < 10 {
        let t = decimal_text(n);
        assert(t.drop_last() =~= Seq::<u8>::empty());
        assert(decimal_value(t.drop_last()) == 0);
    } else {
        lemma_decimal_text(n / 10);
        lemma_decimal_value_push(decimal_text(n / 10), (ZERO + n % 10) as u8);
    }
}

/// Reading back the text of an integer gives that integer, whenever it lies
/// within the accepted range.
pub proof fn lemma_parse_int_text(i: int, lo: int, hi: int)
    requires
        lo <= i <= hi,
    ensures
        parse_decimal(int_text(i), lo, hi) == Ok::<int, IntErrorKind>(i),
{
    if i < 0 {
        let digits = decimal_text((-i) as nat);
        lemma_decimal_text((-i) as nat);
        assert(unsigned_part(int_text(i)) =~= digits);
    } else {
        let digits = decimal_text(i as nat);
        lemma_decimal_text(i as nat);
        assert(is_digit(digits[0]));
        assert(unsigned_part(int_text(i)) =~= digits);
    }
}

/// The text of an integer holds digits and at most a leading minus sign, so
/// it never holds a line terminator.
pub proof fn lemma_int_text_bytes(i: int)
    ensures
        forall|j: int|
            0 <= j < int_text(i).len() ==> is_digit(#[trigger] int_text(i)[j]) || int_text(i)[j]
                == MINUS,
{
    if i < 0 {
        lemma_decimal_text((-i) as nat);
    } else {
        lemma_decimal_text(i as nat);
    }
}

/// Writes an unsigned number in decimal.
pub fn format_u64(n: u64) -> (r: Vec<u8>)
    ensures
        r@ == decimal_text(n as nat),
{
    // The digits after the leading one, least significant first.
    let mut tail: Vec<u8> = Vec::new();
    let mut m: u64 = n;
    assert(decimal_text(m as nat) + tail@.reverse() =~= decimal_text(n as nat));
    while m >= 10
        invariant
            decimal_text(n as nat) == decimal_text(m as nat) + tail@.reverse(),
        decreases m,
    {
        let digit: u8 = ZERO + (m % 10) as u8;
        let ghost before = tail@;
        tail.push(digit);
        proof {
            assert(tail@.reverse() =~= seq![digit] + before.reverse());
            assert(decimal_text(m as nat) == decimal_text((m / 10) as nat).push(digit));
            assert(decimal_text((m / 10) as nat).push(digit) + before.reverse() =~= decimal_text(
                (m / 10) as nat,
            ) + (seq![digit] + before.reverse()));
        }
        m = m / 10;
    }
    let mut out: Vec<u8> = Vec::new();
    out.push(ZERO + m as u8);
    let mut i: usize = tail.len();
    assert(tail@.reverse().take(0) =~= Seq::<u8>::empty());
    assert(out@ =~= decimal_text(m as nat) + tail@.reverse().take(0));
    while i > 0
        invariant
            i <= tail.len(),
            out@ == decimal_text(m as nat) + tail@.reverse().take(tail.len() - i),
        decreases i,
    {
        i -= 1;
        let ghost before = out@;
        out.push(tail[i]);
        proof {
            let rev = tail@.reverse();
            assert(rev[tail.len() - 1 - i] == tail@[i as int]);
            assert(rev.take(tail.len() - i) =~= rev.take(tail.len() - i - 1).push(tail@[i as int]));
            assert(out@ =~= decimal_text(m as nat) + rev.take(tail.len() - i));
        }
    }
    assert(tail@.reverse().take(tail.len() as int) =~= tail@.reverse());
    out
}

/// Writes a signed number in decimal, with a minus sign if it is negative.
pub fn format_i64(i: i64) -> (r: Vec<u8>)
    ensures
        r@ == int_text(i as int),
{
    if i < 0 {
        let magnitude: u64 = if i == i64::MIN {
            9_223_372_036_854_775_808
        } else {
            (-i) as u64
        };
        let digits = format_u64(magnitude);
        let mut out: Vec<u8> = Vec::new();
        out.push(MINUS);
        out.extend_from_slice(digits.as_slice());
        assert(out@ =~= seq![MINUS] + digits@);
        out
    } else {
        format_u64(i as u64)
    }
}

} // verus!
