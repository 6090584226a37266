//! Decimal notation of the count that may lead a line.

use vstd::prelude::*;
use vstd::string::*;
use vstd::utf8::*;

verus! {

/// Whether `digits` is a non-empty string of the ASCII digits `0` to `9`.
pub open spec fn is_decimal(digits: Seq<char>) -> bool {
    &&& digits.len() > 0
    &&& forall|i: int| 0 <= i < digits.len() ==> '0' <= #[trigger] digits[i] <= '9'
}

/// The value of one ASCII digit.
pub open spec fn digit_value(c: char) -> nat {
    (c as u32 - '0' as u32) as nat
}

/// The number that a string of ASCII digits denotes in base ten.
pub open spec fn decimal_value(digits: Seq<char>) -> nat
    decreases digits.len(),
{
    if digits.len() == 0 {
        0
    } else {
        10 * decimal_value(digits.drop_last()) + digit_value(digits.last())
    }
}

/// The count that `digits` denotes: a value only where they are ASCII decimal
/// digits of a number that fits in 32 bits.
pub open spec fn count_of(digits: Seq<char>) -> Option<u32> {
    if is_decimal(digits) && decimal_value(digits) <= u32::MAX {
        Some(decimal_value(digits) as u32)
    } else {
        None
    }
}

/// The ASCII digit of a value below ten.
pub open spec fn digit_char(value: nat) -> char {
    ((value + 48) as u8) as char
}

/// The decimal notation of `n`, without leading zeros.
pub open spec fn decimal_digits(n: nat) -> Seq<char>
    decreases n,
{
    if n < 10 {
        seq![digit_char(n)]
    } else {
        decimal_digits(n / 10).push(digit_char(n % 10))
    }
}

/// The decimal notation of a number is a digit string that denotes it.
pub proof fn lemma_decimal_digits(n: nat)
    ensures
        is_decimal(decimal_digits(n)),
        decimal_value(decimal_digits(n)) == n,
    decreases n,
{
    let digits = decimal_digits(n);
    if n < 10 {
        assert(digits.drop_last() =~= Seq::<char>::empty());
        assert(decimal_value(digits.drop_last()) == 0);
        assert(digit_value(digits.last()) == n);
    } else {
        lemma_decimal_digits(n / 10);
        let front = decimal_digits(n / 10);
        assert(digits.drop_last() =~= front);
        assert(digit_value(digits.last()) == n % 10);
        assert(decimal_value(digits) == 10 * (n / 10) + n % 10);
        assert forall|i: int| 0 <= i < digits.len() implies '0' <= #[trigger] digits[i] <= '9' by {
            if i < front.len() {
                assert(digits[i] == front[i]);
            }
        }
    }
}

/// A prefix of a digit string denotes no more than the whole.
pub proof fn lemma_prefix_value(digits: Seq<char>, n: int)
    requires
        0 <= n <= digits.len(),
    ensures
        decimal_value(digits.take(n)) <= decimal_value(digits),
    decreases digits.len() - n,
{
    if n == digits.len() {
        assert(digits.take(n) =~= digits);
    } else {
        lemma_prefix_value(digits, n + 1);
        assert(digits.take(n + 1).drop_last() =~= digits.take(n));
    }
}

/// Reads `text` as a decimal count.
pub fn parse_count(text: &str) -> (r: Option<u32>)
    ensures
        r == count_of(text@),
{
    if !text.is_ascii() {
        return None;
    }
    let bytes = text.as_bytes();
    let n = bytes.len();
    if n == 0 {
        return None;
    }
    proof {
        is_ascii_spec_bytes(text);
    }
    let mut value: u32 = 0;
    let mut i: usize = 0;
    while i < n
        invariant
            i <= n,
            n == text@.len(),
            bytes@.len() == n,
            is_ascii_chars(text@),
            forall|j: int| 0 <= j < n ==> bytes@[j] == text@[j] as u8,
            is_decimal(text@.take(i as int)) || i == 0,
            value == decimal_value(text@.take(i as int)),
        decreases n - i,
    {
        let b = bytes[i];
        let ghost c = text@[i as int];
        let ghost next = text@.take(i + 1);
        proof {
            assert(next.drop_last() =~= text@.take(i as int));
            assert(next.last() == c);
            assert(c as u8 == b);
        }
        if b < 48 || b > 57 {
            return None;
        }
        let digit: u32 = (b - 48) as u32;
        assert(digit == digit_value(c));
        proof {
            lemma_prefix_value(text@, i + 1);
        }
        let Some(tens) = value.checked_mul(10) else {
            return None;
        };
        let Some(sum) = tens.checked_add(digit) else {
            return None;
        };
        value = sum;
        i += 1;
        assert(is_decimal(next)) by {
            assert forall|j: int| 0 <= j < next.len() implies '0' <= #[trigger] next[j] <= '9' by {
                if j < i - 1 {
                    assert(next[j] == text@.take(i - 1)[j]);
                }
            }
        }
    }
    assert(text@.take(n as int) =~= text@);
    Some(value)
}

} // verus!
