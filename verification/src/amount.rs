//! Parsing of a signed-amount lexeme into a count of cents.
//!
//! An amount lexeme is a decimal with exactly two fractional digits, either
//! plain (`3.85`, a charge) or enclosed in parentheses (`(12.00)`, a credit,
//! denoting a negative value). The parser strips one leading `(` and one
//! trailing `)` when both are present, and otherwise takes the lexeme as it
//! stands; a lexeme that is not a decimal after stripping is rejected rather
//! than coerced to zero.

use crate::chars::{all_digits, digit, digit_val, is_digit};
use vstd::prelude::*;
use vstd::string::*;

verus! {

/// Why an amount lexeme failed to yield a signed count of cents.
#[derive(Clone, Copy, Debug, PartialEq, Eq, Structural)]
pub enum AmountError {
    /// After stripping a balanced pair of parentheses, the lexeme is not of
    /// the form `digits '.' digit digit`.
    NotDecimal,
    /// The denoted value does not fit in a signed 64-bit count of cents.
    Overflow,
}

/// The value of a string of decimal digits, most significant first.
pub open spec fn digits_value(s: Seq<char>) -> int
    decreases s.len(),
{
    if s.len() == 0 {
        0
    } else {
        digits_value(s.drop_last()) * 10 + digit_val(s.last())
    }
}

/// `digits '.' digit digit` — the body of an amount lexeme once parentheses
/// are gone. The digit run before the point may be empty (`.85`).
pub open spec fn is_decimal_body(s: Seq<char>) -> bool {
    &&& s.len() >= 3
    &&& s[s.len() - 3] == '.'
    &&& is_digit(s[s.len() - 2])
    &&& is_digit(s[s.len() - 1])
    &&& all_digits(s.subrange(0, s.len() - 3))
}

/// The number of cents a decimal body denotes.
pub open spec fn decimal_cents(s: Seq<char>) -> int {
    digits_value(s.subrange(0, s.len() - 3)) * 100 + digit_val(s[s.len() - 2]) * 10 + digit_val(
        s[s.len() - 1],
    )
}

/// The lexeme is enclosed in parentheses, which denotes a negative amount.
pub open spec fn parenthesized(s: Seq<char>) -> bool {
    s.len() >= 2 && s[0] == '(' && s[s.len() - 1] == ')'
}

/// The lexeme with an enclosing pair of parentheses stripped, if both are
/// present; otherwise the lexeme itself.
pub open spec fn stripped(s: Seq<char>) -> Seq<char> {
    if parenthesized(s) {
        s.subrange(1, s.len() - 1)
    } else {
        s
    }
}

/// What parsing an amount lexeme yields: the signed count of cents, or the
/// reason it is rejected.
pub open spec fn amount_result(s: Seq<char>) -> Result<int, AmountError> {
    let body = stripped(s);
    if !is_decimal_body(body) {
        Err(AmountError::NotDecimal)
    } else if decimal_cents(body) > i64::MAX as int {
        Err(AmountError::Overflow)
    } else if parenthesized(s) {
        Ok(-decimal_cents(body))
    } else {
        Ok(decimal_cents(body))
    }
}

proof fn lemma_all_digits_drop_last(s: Seq<char>)
    requires
        all_digits(s),
        s.len() > 0,
    ensures
        all_digits(s.drop_last()),
{
    assert forall|k: int| 0 <= k < s.drop_last().len() implies is_digit(#[trigger] s.drop_last()[k]) by {
        assert(s.drop_last()[k] == s[k]);
    }
}

proof fn lemma_digits_value_nonneg(s: Seq<char>)
    requires
        all_digits(s),
    ensures
        digits_value(s) >= 0,
    decreases s.len(),
{
    if s.len() > 0 {
        lemma_all_digits_drop_last(s);
        lemma_digits_value_nonneg(s.drop_last());
        assert(is_digit(s[s.len() - 1]));
    }
}

/// The value of a digit string is no less than the value of any of its
/// prefixes: appending digits can only grow a non-negative value.
proof fn lemma_digits_value_prefix(s: Seq<char>, j: int)
    requires
        all_digits(s),
        0 <= j <= s.len(),
    ensures
        digits_value(s.subrange(0, j)) <= digits_value(s),
    decreases s.len(),
{
    if j == s.len() {
        assert(s.subrange(0, j) =~= s);
    } else {
        lemma_all_digits_drop_last(s);
        assert(s.drop_last().subrange(0, j) =~= s.subrange(0, j));
        lemma_digits_value_prefix(s.drop_last(), j);
        lemma_digits_value_nonneg(s.drop_last());
        assert(is_digit(s[s.len() - 1]));
    }
}

/// Parses an amount lexeme into signed cents: parenthesized lexemes come out
/// strictly negative, plain ones non-negative, and the magnitude is exactly
/// the decimal the digits spell. A lexeme that is not a decimal after
/// stripping is rejected as `NotDecimal`; one whose value does not fit in an
/// `i64` count of cents is rejected as `Overflow`.
#[verifier::loop_isolation(false)]
pub fn parse_amount(s: &str) -> (r: Result<i64, AmountError>)
    ensures
        match r {
            Ok(v) => amount_result(s@) == Ok::<int, AmountError>(v as int),
            Err(e) => amount_result(s@) == Err::<int, AmountError>(e),
        },
{
    let n = s.unicode_len();
    let paren = n >= 2 && s.get_char(0) == '(' && s.get_char(n - 1) == ')';
    let lo: usize = if paren {
        1
    } else {
        0
    };
    let hi: usize = if paren {
        n - 1
    } else {
        n
    };
    proof {
        assert(paren == parenthesized(s@));
        assert(stripped(s@) =~= s@.subrange(lo as int, hi as int));
    }
    let ghost body = stripped(s@);
    if hi - lo < 3 {
        return Err(AmountError::NotDecimal);
    }
    if s.get_char(hi - 3) != '.' {
        assert(body[body.len() - 3] == s@[hi - 3]);
        return Err(AmountError::NotDecimal);
    }
    let c1 = s.get_char(hi - 2);
    let c2 = s.get_char(hi - 1);
    if !digit(c1) || !digit(c2) {
        assert(body[body.len() - 2] == s@[hi - 2]);
        assert(body[body.len() - 1] == s@[hi - 1]);
        return Err(AmountError::NotDecimal);
    }
    let ghost dseq = s@.subrange(lo as int, hi - 3);
    proof {
        assert(dseq =~= body.subrange(0, body.len() - 3));
    }
    let mut k: usize = lo;
    while k < hi - 3
        invariant
            lo <= k <= hi - 3,
            hi <= n == s@.len(),
            dseq == s@.subrange(lo as int, hi - 3),
            forall|j: int| lo <= j < k ==> is_digit(#[trigger] s@[j]),
        decreases hi - 3 - k,
    {
        if !digit(s.get_char(k)) {
            assert(body.subrange(0, body.len() - 3)[k - lo] == s@[k as int]);
            assert(!all_digits(body.subrange(0, body.len() - 3)));
            return Err(AmountError::NotDecimal);
        }
        k += 1;
    }
    proof {
        assert forall|j: int| 0 <= j < dseq.len() implies is_digit(#[trigger] dseq[j]) by {
            assert(dseq[j] == s@[lo + j]);
        }
        assert(body[body.len() - 3] == s@[hi - 3]);
        assert(body[body.len() - 2] == s@[hi - 2]);
        assert(body[body.len() - 1] == s@[hi - 1]);
        assert(is_decimal_body(body));
    }
    // The lexeme has the right shape; now compute its value, watching for
    // overflow of the 64-bit cent count.
    let mut acc: i64 = 0;
    k = lo;
    while k < hi - 3
        invariant
            lo <= k <= hi - 3,
            hi <= n == s@.len(),
            dseq == s@.subrange(lo as int, hi - 3),
            all_digits(dseq),
            is_decimal_body(body),
            body == stripped(s@),
            dseq =~= body.subrange(0, body.len() - 3),
            acc as int == digits_value(s@.subrange(lo as int, k as int)),
            acc >= 0,
        decreases hi - 3 - k,
    {
        let c = s.get_char(k);
        proof {
            assert(dseq[k - lo] == s@[k as int]);
        }
        let d = (c as u32 - 48) as i64;
        let ghost prev = s@.subrange(lo as int, k as int);
        let ghost next = s@.subrange(lo as int, k + 1);
        proof {
            assert(next.drop_last() =~= prev);
            assert(next.last() == s@[k as int]);
            assert(digits_value(next) == digits_value(prev) * 10 + digit_val(s@[k as int]));
        }
        let m = match acc.checked_mul(10) {
            Some(x) => x,
            None => {
                proof {
                    assert(next =~= dseq.subrange(0, k + 1 - lo));
                    lemma_overflow_means_too_big(body, dseq, k + 1 - lo);
                }
                return Err(AmountError::Overflow);
            },
        };
        let a = match m.checked_add(d) {
            Some(x) => x,
            None => {
                proof {
                    assert(next =~= dseq.subrange(0, k + 1 - lo));
                    lemma_overflow_means_too_big(body, dseq, k + 1 - lo);
                }
                return Err(AmountError::Overflow);
            },
        };
        acc = a;
        k += 1;
    }
    proof {
        assert(s@.subrange(lo as int, k as int) == dseq);
    }
    // acc is the value of the digit run; scale to cents and add the fraction.
    let frac = (c1 as u32 - 48) as i64 * 10 + (c2 as u32 - 48) as i64;
    let cents = match acc.checked_mul(100) {
        Some(x) => x,
        None => {
            proof {
                lemma_cents_exceed(body, dseq, frac as int);
            }
            return Err(AmountError::Overflow);
        },
    };
    let total = match cents.checked_add(frac) {
        Some(x) => x,
        None => {
            proof {
                lemma_cents_exceed(body, dseq, frac as int);
            }
            return Err(AmountError::Overflow);
        },
    };
    proof {
        assert(total as int == decimal_cents(body));
    }
    if paren {
        Ok(-total)
    } else {
        Ok(total)
    }
}

/// If some prefix of the digit run already exceeds the cent bound, the whole
/// decimal does too.
proof fn lemma_overflow_means_too_big(body: Seq<char>, dseq: Seq<char>, j: int)
    requires
        is_decimal_body(body),
        dseq == body.subrange(0, body.len() - 3),
        0 <= j <= dseq.len(),
        digits_value(dseq.subrange(0, j)) > i64::MAX as int,
    ensures
        decimal_cents(body) > i64::MAX as int,
{
    lemma_digits_value_prefix(dseq, j);
    lemma_digits_value_nonneg(dseq);
    assert(digits_value(dseq) > i64::MAX as int);
    assert(is_digit(body[body.len() - 2]));
    assert(is_digit(body[body.len() - 1]));
    assert(decimal_cents(body) >= digits_value(dseq));
}

/// The sign of a parsed amount comes solely from the parentheses: a
/// parenthesized lexeme parses to the negation of the decimal its digits
/// spell — strictly negative whenever that decimal is not zero — and a plain
/// lexeme parses to the decimal itself, which is never negative.
pub proof fn lemma_amount_sign(s: Seq<char>)
    requires
        amount_result(s) is Ok,
    ensures
        match amount_result(s) {
            Ok(v) => {
                &&& (parenthesized(s) ==> v == -decimal_cents(stripped(s)) && v <= 0)
                &&& (parenthesized(s) && decimal_cents(stripped(s)) > 0 ==> v < 0)
                &&& (!parenthesized(s) ==> v == decimal_cents(stripped(s)) && v >= 0)
            },
            Err(_) => false,
        },
{
    let body = stripped(s);
    assert(is_decimal_body(body));
    lemma_digits_value_nonneg(body.subrange(0, body.len() - 3));
    assert(is_digit(body[body.len() - 2]));
    assert(is_digit(body[body.len() - 1]));
    assert(decimal_cents(body) >= 0);
}

/// If scaling the digit-run value to cents overflows, the decimal exceeds the
/// cent bound.
proof fn lemma_cents_exceed(body: Seq<char>, dseq: Seq<char>, frac: int)
    requires
        is_decimal_body(body),
        dseq == body.subrange(0, body.len() - 3),
        digits_value(dseq) * 100 + frac > i64::MAX as int,
        frac == digit_val(body[body.len() - 2]) * 10 + digit_val(body[body.len() - 1]),
    ensures
        decimal_cents(body) > i64::MAX as int,
{
}

} // verus!
