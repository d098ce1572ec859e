//! Numbers as text.

use vstd::prelude::*;

use crate::text::{chars_of, concat};

verus! {

/// The value of a decimal digit.
pub open spec fn digit_value(c: char) -> nat {
    (c as int - '0' as int) as nat
}

pub open spec fn is_digit(c: char) -> bool {
    '0' <= c <= '9'
}

/// The digit of a value below ten.
pub open spec fn digit_of(value: nat) -> char {
    ('0' as int + value) as char
}

/// The decimal digits of a number.
pub open spec fn digits_of(n: nat) -> Seq<char>
    decreases n,
{
    if n < 10 {
        seq![digit_of(n)]
    } else {
        digits_of(n / 10).push(digit_of(n % 10))
    }
}

/// A number as it is written.
pub open spec fn decimal(n: int) -> Seq<char> {
    if n < 0 {
        seq!['-'] + digits_of((-n) as nat)
    } else {
        digits_of(n as nat)
    }
}

/// The number that decimal digits spell.
pub open spec fn digits_value(digits: Seq<char>) -> nat
    decreases digits.len(),
{
    if digits.len() == 0 {
        0
    } else {
        digits_value(digits.drop_last()) * 10 + digit_value(digits.last())
    }
}

/// Whether text consists of decimal digits, and not of none.
pub open spec fn all_digits(text: Seq<char>) -> bool {
    text.len() > 0 && forall|i: int| 0 <= i < text.len() ==> is_digit(#[trigger] text[i])
}

/// Digits of a number spell the number.
pub proof fn law_digits_read_back(n: nat)
    ensures
        all_digits(digits_of(n)),
        digits_value(digits_of(n)) == n,
    decreases n,
{
    if n < 10 {
        assert(digits_of(n).drop_last() =~= Seq::<char>::empty());
        assert(digits_value(digits_of(n).drop_last()) == 0);
    } else {
        law_digits_read_back(n / 10);
        assert(digits_of(n).drop_last() =~= digits_of(n / 10));
        assert forall|i: int| 0 <= i < digits_of(n).len() implies is_digit(
            #[trigger] digits_of(n)[i],
        ) by {
            if i < digits_of(n / 10).len() {
                assert(is_digit(digits_of(n / 10)[i]));
            }
        }
    }
}

fn digit_char(value: u64) -> (c: char)
    requires
        value < 10,
    ensures
        c == digit_of(value as nat),
{
    (48u8 + value as u8) as char
}

/// The decimal digits of a number.
fn digits_text(n: u64) -> (text: String)
    ensures
        text@ == digits_of(n as nat),
    decreases n,
{
    if n < 10 {
        let mut text = String::new();
        text.push(digit_char(n));
        assert(text@ =~= digits_of(n as nat));
        text
    } else {
        let mut text = digits_text(n / 10);
        text.push(digit_char(n % 10));
        text
    }
}

/// A number as it is written.
pub fn decimal_text(n: i64) -> (text: String)
    ensures
        text@ == decimal(n as int),
{
    if n >= 0 {
        return digits_text(n as u64);
    }
    let magnitude: u64 = if n == i64::MIN {
        9_223_372_036_854_775_808
    } else {
        (-n) as u64
    };
    proof {
        reveal_strlit("-");
        assert("-"@ =~= seq!['-']);
    }
    concat("-", digits_text(magnitude).as_str())
}

/// Text without a leading plus sign.
pub open spec fn without_plus(text: Seq<char>) -> Seq<char> {
    if text.len() > 0 && text[0] == '+' {
        text.skip(1)
    } else {
        text
    }
}

/// The number that text spells: decimal digits, with a plus sign before them or
/// without one, whose value fits.
pub open spec fn parsed_usize(text: Seq<char>) -> Option<usize> {
    let digits = without_plus(text);
    if all_digits(digits) && digits_value(digits) <= usize::MAX {
        Some(digits_value(digits) as usize)
    } else {
        None
    }
}

proof fn lemma_value_grows(digits: Seq<char>, i: int)
    requires
        0 <= i <= digits.len(),
    ensures
        digits_value(digits.take(i)) <= digits_value(digits),
    decreases digits.len() - i,
{
    if i < digits.len() {
        lemma_value_grows(digits, i + 1);
        assert(digits.take(i + 1).drop_last() =~= digits.take(i));
    } else {
        assert(digits.take(i) =~= digits);
    }
}

/// The number that text spells.
pub fn parse_usize(text: &str) -> (number: Option<usize>)
    ensures
        number == parsed_usize(text@),
{
    let chars = chars_of(text);
    let size = chars.len();
    let start: usize = if size > 0 && chars[0] == '+' {
        1
    } else {
        0
    };
    let ghost digits = without_plus(text@);
    assert(digits =~= chars@.skip(start as int));
    if start == size {
        return None;
    }
    let mut value: usize = 0;
    let mut i: usize = start;
    while i < size
        invariant
            start <= i <= size,
            start < size,
            size == chars@.len(),
            digits == chars@.skip(start as int),
            digits == without_plus(text@),
            forall|j: int| 0 <= j < i - start ==> is_digit(#[trigger] digits[j]),
            value == digits_value(digits.take(i - start)),
        decreases size - i,
    {
        let c = chars[i];
        assert(c == digits[i - start]);
        if c < '0' || c > '9' {
            assert(!is_digit(digits[i - start]));
            return None;
        }
        let digit: usize = c as usize - '0' as usize;
        proof {
            assert(digits.take(i + 1 - start).drop_last() =~= digits.take(i - start));
            lemma_value_grows(digits, i + 1 - start);
        }
        let grown = match value.checked_mul(10) {
            Some(product) => product.checked_add(digit),
            None => None,
        };
        match grown {
            Some(sum) => {
                value = sum;
            },
            None => return None,
        }
        i += 1;
    }
    assert(digits.take(i - start) =~= digits);
    Some(value)
}

/// What a number is written as is read back.
pub proof fn law_decimal_read_back(n: usize)
    ensures
        parsed_usize(decimal(n as int)) == Some(n),
{
    law_digits_read_back(n as nat);
    assert(is_digit(digits_of(n as nat)[0]));
}

/// A number is written with its last digit at the end, behind what is written for the
/// tenth of it, and a negative one behind a hyphen.
pub proof fn law_decimal_digits(n: nat)
    ensures
        decimal(n as int).last() as int == '0' as int + n % 10,
        n >= 10 ==> decimal(n as int).drop_last() == decimal((n / 10) as int),
        n < 10 ==> decimal(n as int).len() == 1,
        n > 0 ==> decimal(-n) == seq!['-'] + decimal(n as int),
{
    if n >= 10 {
        assert(digits_of(n).drop_last() =~= digits_of(n / 10));
    }
}

/// Text spells a number exactly if it is made of digits, behind at most one plus sign, and
/// the number fits.
pub proof fn law_parsed_number(text: Seq<char>, digits: Seq<char>)
    ensures
        parsed_usize(seq![]) is None,
        all_digits(digits) && digits_value(digits) <= usize::MAX ==> parsed_usize(digits) == Some(
            digits_value(digits) as usize,
        ) && parsed_usize(seq!['+'] + digits) == parsed_usize(digits),
        parsed_usize(text) is Some ==> text.len() > 0 && (is_digit(text[0]) || text[0] == '+')
            && forall|i: int| 0 < i < text.len() ==> '0' <= #[trigger] text[i] <= '9',
        parsed_usize(seq!['+', '+'] + digits) is None,
{
    assert((seq!['+'] + digits).skip(1) =~= digits);
    let twice = seq!['+', '+'] + digits;
    assert(twice.skip(1)[0] == '+');
    assert(!is_digit(twice.skip(1)[0]));
    if parsed_usize(text) is Some {
        let plain = without_plus(text);
        assert forall|i: int| 0 < i < text.len() implies '0' <= #[trigger] text[i] <= '9' by {
            if text[0] == '+' {
                assert(plain[i - 1] == text[i]);
            } else {
                assert(plain[i] == text[i]);
            }
        }
        if text[0] != '+' {
            assert(plain[0] == text[0]);
        }
    }
}

} // verus!
