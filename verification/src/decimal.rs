//! Decimal text: the form in which integers, lengths and counts travel.

use vstd::prelude::*;

verus! {

pub open spec fn is_digit(b: u8) -> bool {
    48 <= b <= 57
}

pub open spec fn all_digits(s: Seq<u8>) -> bool {
    forall|i: int| 0 <= i < s.len() ==> is_digit(#[trigger] s[i])
}

/// The number that a run of digits denotes, most significant digit first. An empty
/// run denotes zero.
pub open spec fn digits_value(s: Seq<u8>) -> nat
    decreases s.len(),
{
    if s.len() == 0 {
        0
    } else {
        digits_value(s.drop_last()) * 10 + (s.last() - 48) as nat
    }
}

/// The integer that a decimal text denotes: an optional `+` or `-`, then at least
/// one digit and nothing else. Leading zeros are allowed.
pub open spec fn parse_int(text: Seq<u8>) -> Option<int> {
    if text.len() == 0 {
        None
    } else if text[0] == 45 || text[0] == 43 {
        let digits = text.skip(1);
        if digits.len() == 0 || !all_digits(digits) {
            None
        } else if text[0] == 45 {
            Some(-(digits_value(digits) as int))
        } else {
            Some(digits_value(digits) as int)
        }
    } else if all_digits(text) {
        Some(digits_value(text) as int)
    } else {
        None
    }
}

/// `parse_int`, for numbers that fit in 64 bits; larger ones have no value.
pub open spec fn parse_i64_spec(text: Seq<u8>) -> Option<i64> {
    match parse_int(text) {
        Some(v) => if i64::MIN <= v <= i64::MAX {
            Some(v as i64)
        } else {
            None
        },
        None => None,
    }
}

/// The digits of a natural number, without leading zeros.
pub open spec fn nat_digits(n: nat) -> Seq<u8>
    decreases n,
{
    if n < 10 {
        seq![(48 + n) as u8]
    } else {
        nat_digits(n / 10).push((48 + n % 10) as u8)
    }
}

/// The canonical decimal text of an integer: `-` before a negative number, no sign
/// otherwise.
pub open spec fn int_text(v: int) -> Seq<u8> {
    if v < 0 {
        seq![45u8] + nat_digits((-v) as nat)
    } else {
        nat_digits(v as nat)
    }
}

pub proof fn lemma_digits_value_take(s: Seq<u8>, k: int)
    requires
        0 <= k < s.len(),
    ensures
        digits_value(s.take(k + 1)) == digits_value(s.take(k)) * 10 + (s[k] - 48) as nat,
{
    assert(s.take(k + 1).drop_last() =~= s.take(k));
}

/// Reading more digits never makes the number smaller.
pub proof fn lemma_digits_value_grows(s: Seq<u8>, k: int)
    requires
        all_digits(s),
        0 <= k <= s.len(),
    ensures
        digits_value(s.take(k)) <= digits_value(s),
    decreases s.len() - k,
{
    if k == s.len() {
        assert(s.take(k) =~= s);
    } else {
        lemma_digits_value_take(s, k);
        assert(is_digit(s[k]));
        lemma_digits_value_grows(s, k + 1);
    }
}

/// The digits of a number are digits, at least one, and denote that number.
pub proof fn lemma_nat_digits(n: nat)
    ensures
        nat_digits(n).len() > 0,
        all_digits(nat_digits(n)),
        digits_value(nat_digits(n)) == n,
    decreases n,
{
    if n < 10 {
        let s = nat_digits(n);
        assert(s.drop_last() =~= Seq::<u8>::empty());
        assert(digits_value(s.drop_last()) == 0);
    } else {
        lemma_nat_digits(n / 10);
        let s = nat_digits(n);
        assert(s.drop_last() =~= nat_digits(n / 10));
        assert forall|i: int| 0 <= i < s.len() implies is_digit(#[trigger] s[i]) by {
            if i < s.len() - 1 {
                assert(s[i] == nat_digits(n / 10)[i]);
            }
        }
    }
}

/// Reading back the canonical text of an integer gives that integer.
pub proof fn lemma_int_text_parses(v: int)
    ensures
        parse_int(int_text(v)) == Some(v),
{
    if v < 0 {
        let d = nat_digits((-v) as nat);
        lemma_nat_digits((-v) as nat);
        assert(int_text(v).skip(1) =~= d);
    } else {
        lemma_nat_digits(v as nat);
        let t = int_text(v);
        assert(is_digit(t[0]));
    }
}

/// The canonical text of an integer is not empty and holds neither a carriage
/// return nor a line feed.
pub proof fn lemma_int_text_plain(v: int)
    ensures
        int_text(v).len() > 0,
        forall|i: int|
            0 <= i < int_text(v).len() ==> (#[trigger] int_text(v)[i]) != 13 && int_text(v)[i]
                != 10,
{
    let t = int_text(v);
    if v < 0 {
        let d = nat_digits((-v) as nat);
        lemma_nat_digits((-v) as nat);
        assert forall|i: int| 0 <= i < t.len() implies (#[trigger] t[i]) != 13 && t[i] != 10 by {
            if i > 0 {
                assert(t[i] == d[i - 1]);
                assert(is_digit(d[i - 1]));
            }
        }
    } else {
        lemma_nat_digits(v as nat);
        assert forall|i: int| 0 <= i < t.len() implies (#[trigger] t[i]) != 13 && t[i] != 10 by {
            assert(is_digit(t[i]));
        }
    }
}

/// Reads a decimal integer that fits in 64 bits.
pub fn parse_i64(text: &[u8]) -> (r: Option<i64>)
    ensures
        r == parse_i64_spec(text@),
{
    let n: usize = text.len();
    if n == 0 {
        return None;
    }
    let first: u8 = text[0];
    let negative: bool = first == 45;
    let start: usize = if first == 45 || first == 43 {
        1
    } else {
        0
    };
    if start == n {
        return None;
    }
    let limit: u64 = if negative {
        9223372036854775808
    } else {
        9223372036854775807
    };
    let ghost digits = text@.skip(start as int);
    let mut acc: u64 = 0;
    let mut i: usize = start;
    proof {
        assert(digits.take(0) =~= Seq::<u8>::empty());
        if start == 0 {
            assert(digits =~= text@);
        }
    }
    while i < n
        invariant
            start <= i <= n,
            n == text@.len(),
            n > start,
            digits == text@.skip(start as int),
            start == 0 ==> digits == text@ && text@[0] != 45 && text@[0] != 43,
            start == 1 ==> (text@[0] == 45 || text@[0] == 43),
            start == 0 || start == 1,
            negative == (text@[0] == 45),
            negative ==> limit == 9223372036854775808,
            !negative ==> limit == 9223372036854775807,
            all_digits(digits.take(i - start)),
            acc == digits_value(digits.take(i - start)),
            acc <= limit,
        decreases n - i,
    {
        let b: u8 = text[i];
        let ghost k = i - start;
        if b < 48 || b > 57 {
            assert(!is_digit(digits[k]));
            return None;
        }
        let d: u64 = (b - 48) as u64;
        proof {
            lemma_digits_value_take(digits, k);
        }
        if acc > (limit - d) / 10 {
            proof {
                if all_digits(digits) {
                    lemma_digits_value_grows(digits, k + 1);
                }
            }
            return None;
        }
        acc = acc * 10 + d;
        i += 1;
        proof {
            assert forall|j: int| 0 <= j < digits.take(k + 1).len() implies is_digit(
                #[trigger] digits.take(k + 1)[j],
            ) by {
                if j < k {
                    assert(digits.take(k + 1)[j] == digits.take(k)[j]);
                }
            }
        }
    }
    assert(digits.take(n - start) =~= digits);
    if negative {
        if acc == 9223372036854775808 {
            Some(i64::MIN)
        } else {
            Some(-(acc as i64))
        }
    } else {
        Some(acc as i64)
    }
}

/// Appends the digits of `n`.
pub fn push_digits(out: &mut Vec<u8>, n: u64)
    ensures
        final(out)@ == old(out)@ + nat_digits(n as nat),
    decreases n,
{
    if n >= 10 {
        push_digits(out, n / 10);
    }
    let digit: u8 = 48 + (n % 10) as u8;
    out.push(digit);
    assert(final(out)@ =~= old(out)@ + nat_digits(n as nat));
}

/// Appends the canonical decimal text of `v`.
pub fn push_int(out: &mut Vec<u8>, v: i64)
    ensures
        final(out)@ == old(out)@ + int_text(v as int),
{
    if v < 0 {
        out.push(45);
        let magnitude: u64 = (-(v + 1)) as u64 + 1;
        push_digits(out, magnitude);
        assert(final(out)@ =~= old(out)@ + int_text(v as int));
    } else {
        push_digits(out, v as u64);
    }
}

} // verus!
