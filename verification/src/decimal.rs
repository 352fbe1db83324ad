//! Whole numbers written in decimal digits.

use vstd::prelude::*;
use vstd::string::*;
use crate::text::chars_of;

verus! {

/// Whether `c` is one of the digits `0` to `9`.
pub open spec fn is_digit(c: char) -> bool {
    0x30 <= c as int <= 0x39
}

/// The value of the digit `c`.
pub open spec fn digit_value(c: char) -> int {
    c as int - 0x30
}

/// Whether `s` holds digits only.
pub open spec fn all_digits(s: Seq<char>) -> bool {
    forall|i: int| 0 <= i < s.len() ==> is_digit(#[trigger] s[i])
}

/// The number that a sequence of digits writes.
pub open spec fn decimal_value(digits: Seq<char>) -> int
    decreases digits.len(),
{
    if digits.len() == 0 {
        0
    } else {
        decimal_value(digits.drop_last()) * 10 + digit_value(digits.last())
    }
}

/// The number that `s` writes, as `i64::from_str` reads it: an optional sign,
/// then at least one digit and nothing else, the value within the range of
/// `i64`. `None` for every other text.
pub open spec fn parse_i64(s: Seq<char>) -> Option<i64> {
    let signed = s.len() > 0 && (s[0] == '-' || s[0] == '+');
    let digits = if signed {
        s.drop_first()
    } else {
        s
    };
    let value = if signed && s[0] == '-' {
        -decimal_value(digits)
    } else {
        decimal_value(digits)
    };
    if digits.len() > 0 && all_digits(digits) && i64::MIN <= value <= i64::MAX {
        Some(value as i64)
    } else {
        None
    }
}

/// The decimal digits of `n`, without leading zeros.
pub open spec fn decimal_text(n: nat) -> Seq<char>
    decreases n,
{
    if n < 10 {
        seq![digit_char(n)]
    } else {
        decimal_text(n / 10).push(digit_char(n % 10))
    }
}

/// The character of the digit `d`.
pub open spec fn digit_char(d: nat) -> char {
    (d + 0x30) as char
}

/// A number written with more digits is at least as large.
pub proof fn lemma_decimal_value_grows(digits: Seq<char>, n: int)
    requires
        all_digits(digits),
        0 <= n <= digits.len(),
    ensures
        0 <= decimal_value(digits.take(n)) <= decimal_value(digits),
    decreases digits.len() - n,
{
    if n == digits.len() {
        assert(digits.take(n) =~= digits);
        lemma_decimal_value_nonnegative(digits);
    } else {
        lemma_decimal_value_grows(digits, n + 1);
        let longer = digits.take(n + 1);
        assert(longer.drop_last() =~= digits.take(n));
        assert(longer.last() == digits[n]);
        assert(is_digit(digits[n]));
        lemma_decimal_value_nonnegative(digits.take(n));
    }
}

proof fn lemma_decimal_value_nonnegative(digits: Seq<char>)
    requires
        all_digits(digits),
    ensures
        0 <= decimal_value(digits),
    decreases digits.len(),
{
    if digits.len() > 0 {
        assert(is_digit(digits[digits.len() - 1]));
        let front = digits.drop_last();
        assert forall|i: int| 0 <= i < front.len() implies is_digit(#[trigger] front[i]) by {
            assert(front[i] == digits[i]);
        }
        lemma_decimal_value_nonnegative(front);
    }
}

/// What `decimal_text` writes is read back as the same number.
pub proof fn lemma_decimal_text_value(n: nat)
    ensures
        decimal_text(n).len() > 0,
        all_digits(decimal_text(n)),
        decimal_value(decimal_text(n)) == n,
    decreases n,
{
    if n < 10 {
        let t = decimal_text(n);
        assert(t.drop_last() =~= Seq::<char>::empty());
        assert(decimal_value(t.drop_last()) == 0);
        assert(t.last() == digit_char(n));
        assert(digit_char(n) as int == n + 0x30);
        assert(decimal_value(t) == n);
    } else {
        lemma_decimal_text_value(n / 10);
        let front = decimal_text(n / 10);
        let t = front.push(digit_char(n % 10));
        assert(t.drop_last() =~= front);
        assert(t.last() == digit_char(n % 10));
        assert(digit_char(n % 10) as int == n % 10 + 0x30);
        assert(decimal_value(t) == decimal_value(front) * 10 + n % 10);
        assert forall|i: int| 0 <= i < t.len() implies is_digit(#[trigger] t[i]) by {
            if i < front.len() {
                assert(t[i] == front[i]);
            }
        }
    }
}

/// A timestamp that has been written in decimal is parsed as itself.
pub proof fn lemma_parse_decimal_text(n: nat)
    requires
        n <= i64::MAX,
    ensures
        parse_i64(decimal_text(n)) == Some(n as i64),
{
    lemma_decimal_text_value(n);
    let t = decimal_text(n);
    assert(is_digit(t[0]));
}

/// Reads a number as `str::parse::<i64>` does.
pub fn parse_number(s: &str) -> (value: Option<i64>)
    ensures
        value == parse_i64(s@),
{
    let chars = chars_of(s);
    if chars.len() == 0 {
        return None;
    }
    let negative = chars[0] == '-';
    let first: usize = if chars[0] == '-' || chars[0] == '+' {
        1
    } else {
        0
    };
    let ghost digits = s@.skip(first as int);
    assert(first == 1 ==> digits =~= s@.drop_first());
    assert(first == 0 ==> digits =~= s@);
    if first == chars.len() {
        return None;
    }
    // One more than the largest `i64`: the size of the smallest.
    let limit: i128 = 0x8000_0000_0000_0000;
    let mut total: i128 = 0;
    let mut i: usize = first;
    assert(digits.take(0) =~= Seq::<char>::empty());
    while i < chars.len()
        invariant
            chars@ == s@,
            first <= i <= chars.len(),
            first < chars.len(),
            first == 1 ==> (s@[0] == '-' || s@[0] == '+') && digits == s@.drop_first(),
            first != 1 ==> !(s@[0] == '-' || s@[0] == '+') && digits == s@,
            digits == s@.skip(first as int),
            limit == 0x8000_0000_0000_0000,
            all_digits(digits.take(i - first)),
            total == decimal_value(digits.take(i - first)),
            0 <= total <= limit,
        decreases chars.len() - i,
    {
        let c = chars[i];
        let ghost seen = digits.take(i - first);
        let ghost more = digits.take(i - first + 1);
        proof {
            assert(digits[i - first] == c);
            assert(more.drop_last() =~= seen);
            assert(more.last() == c);
        }
        if !(c >= '0' && c <= '9') {
            assert(!is_digit(digits[i - first]));
            return None;
        }
        proof {
            assert forall|k: int| 0 <= k < more.len() implies is_digit(#[trigger] more[k]) by {
                if k < seen.len() {
                    assert(more[k] == seen[k]);
                }
            }
        }
        let d: i128 = (c as u32 - 0x30) as i128;
        total = total * 10 + d;
        if total > limit {
            // Too large, whatever follows.
            proof {
                if all_digits(digits) {
                    lemma_decimal_value_grows(digits, i - first + 1);
                }
            }
            return None;
        }
        i += 1;
    }
    assert(digits.take(i - first) =~= digits);
    if negative {
        Some((-total) as i64)
    } else if total == limit {
        None
    } else {
        Some(total as i64)
    }
}

/// Writes `n` in decimal digits.
pub fn decimal_string(n: u128) -> (text: String)
    ensures
        text@ == decimal_text(n as nat),
    decreases n,
{
    let mut text = if n < 10 {
        String::new()
    } else {
        decimal_string(n / 10)
    };
    let digit: &str = match n % 10 {
        0 => "0",
        1 => "1",
        2 => "2",
        3 => "3",
        4 => "4",
        5 => "5",
        6 => "6",
        7 => "7",
        8 => "8",
        _ => "9",
    };
    proof {
        reveal_strlit("0");
        reveal_strlit("1");
        reveal_strlit("2");
        reveal_strlit("3");
        reveal_strlit("4");
        reveal_strlit("5");
        reveal_strlit("6");
        reveal_strlit("7");
        reveal_strlit("8");
        reveal_strlit("9");
        assert(digit@ =~= seq![digit_char((n % 10) as nat)]);
    }
    let ghost before = text@;
    text.append(digit);
    assert(text@ =~= before.push(digit_char((n % 10) as nat)));
    text
}

} // verus!
