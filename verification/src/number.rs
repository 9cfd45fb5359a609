//! Decimal numbers, written and read.

use vstd::prelude::*;
use vstd::string::StringExecFns;

use crate::text::characters;

verus! {

/// The digit that stands for `n`.
pub open spec fn digit(n: nat) -> char {
    ('0' as nat + n) as char
}

/// `n` in decimal, without leading zeros.
pub open spec fn decimal(n: nat) -> Seq<char>
    decreases n,
{
    if n < 10 {
        seq![digit(n)]
    } else {
        decimal(n / 10).push(digit(n % 10))
    }
}

/// The digit that stands for `n`, as a text.
fn digit_text(n: u64) -> (result: &'static str)
    requires
        n < 10,
    ensures
        result@ == seq![digit(n as nat)],
{
    proof {
        reveal_strlit("0");
        reveal_strlit("1");
        reveal_strlit("2");
        reveal_strlit("3");
        reveal_strlit("4");
        reveal_strlit("5");
        reveal_strlit("6");
        reveal_strlit("7");
        reveal_strlit("8");
        reveal_strlit("9");
    }
    match n {
        0 => "0",
        1 => "1",
        2 => "2",
        3 => "3",
        4 => "4",
        5 => "5",
        6 => "6",
        7 => "7",
        8 => "8",
        _ => "9",
    }
}

/// Writes `n` in decimal.
pub fn write_decimal(n: u64) -> (result: String)
    ensures
        result@ == decimal(n as nat),
    decreases n,
{
    if n < 10 {
        let result = digit_text(n).to_owned();
        result
    } else {
        let head = write_decimal(n / 10);
        let result = head.concat(digit_text(n % 10));
        assert(result@ == decimal(n as nat / 10).push(digit(n as nat % 10)));
        result
    }
}

/// Whether `c` is one of the ten ASCII digits.
pub open spec fn is_digit(c: char) -> bool {
    '0' <= c <= '9'
}

/// The number that a run of decimal digits stands for.
pub open spec fn value(digits: Seq<char>) -> nat
    decreases digits.len(),
{
    if digits.len() == 0 {
        0
    } else {
        value(digits.drop_last()) * 10 + (digits.last() as nat - '0' as nat) as nat
    }
}

/// Whether `text` is made of decimal digits alone.
pub open spec fn all_digits(text: Seq<char>) -> bool {
    forall|i: int| 0 <= i < text.len() ==> is_digit(#[trigger] text[i])
}

/// `text` behind the plus sign that it may start with.
pub open spec fn unsigned(text: Seq<char>) -> Seq<char> {
    if text.len() > 0 && text[0] == '+' {
        text.skip(1)
    } else {
        text
    }
}

/// The 32-bit number that `text` spells: decimal digits, at least one, behind
/// at most one plus sign, and no larger than the type holds.
pub open spec fn number_32(text: Seq<char>) -> Option<u32> {
    let digits = unsigned(text);
    if digits.len() > 0 && all_digits(digits) && value(digits) <= u32::MAX {
        Some(value(digits) as u32)
    } else {
        None
    }
}

/// More digits never make a number smaller.
proof fn lemma_value_grows(digits: Seq<char>, length: int)
    requires
        0 <= length <= digits.len(),
    ensures
        value(digits.take(length)) <= value(digits),
    decreases digits.len(),
{
    if length == digits.len() {
        assert(digits.take(length) == digits);
    } else {
        lemma_value_grows(digits.drop_last(), length);
        assert(digits.drop_last().take(length) == digits.take(length));
    }
}

/// Reads a 32-bit number.
pub fn parse_number_32(text: &str) -> (result: Option<u32>)
    ensures
        result == number_32(text@),
{
    let chars = characters(text);
    let start: usize = if chars.len() > 0 && chars[0] == '+' {
        1
    } else {
        0
    };
    let ghost digits = unsigned(text@);
    assert(digits == text@.skip(start as int));
    if start == chars.len() {
        return None;
    }
    let mut total: u64 = 0;
    let mut at: usize = start;
    assert(digits.take(0).len() == 0);
    while at < chars.len()
        invariant
            chars@ == text@,
            start <= at <= chars@.len(),
            start < chars@.len(),
            digits == unsigned(text@),
            digits == text@.skip(start as int),
            forall|i: int| 0 <= i < at - start ==> is_digit(#[trigger] digits[i]),
            total == value(digits.take(at - start)),
            total <= u32::MAX,
        decreases chars@.len() - at,
    {
        let c = chars[at];
        assert(digits[at - start] == c);
        if !('0' <= c && c <= '9') {
            return None;
        }
        let ghost longer = digits.take(at - start + 1);
        assert(longer.drop_last() == digits.take(at - start));
        assert(longer.last() == c);
        total = total * 10 + (c as u64 - '0' as u64);
        assert(total == value(longer));
        if total > 0xffff_ffff {
            proof {
                lemma_value_grows(digits, at - start + 1);
            }
            return None;
        }
        at = at + 1;
    }
    assert(digits.take(digits.len() as int) == digits);
    Some(total as u32)
}

////////////////////////////////////////////////////////////////////////////
// Laws

/// A decimal is made of digits, at least one, and they stand for the number.
pub proof fn lemma_decimal(n: nat)
    ensures
        decimal(n).len() > 0,
        all_digits(decimal(n)),
        value(decimal(n)) == n,
    decreases n,
{
    if n < 10 {
        let text = decimal(n);
        assert(text.len() == 1 && text[0] == digit(n));
        assert(value(text.drop_last()) == 0);
    } else {
        lemma_decimal(n / 10);
        let text = decimal(n);
        assert(text.drop_last() == decimal(n / 10));
        assert(text.last() == digit(n % 10));
        assert forall|i: int| 0 <= i < text.len() implies is_digit(#[trigger] text[i]) by {
            if i < text.len() - 1 {
                assert(text[i] == decimal(n / 10)[i]);
            }
        }
    }
}

/// What is written in decimal is read back as the same number.
pub proof fn law_decimals_are_read_back(n: u32)
    ensures
        number_32(decimal(n as nat)) == Some(n),
{
    lemma_decimal(n as nat);
    assert(is_digit(decimal(n as nat)[0]));
}

/// A decimal is read from the left, each digit worth ten times what is behind
/// it, and the digits are the ASCII ones.
pub proof fn law_decimals_are_positional(n: nat, last: nat)
    requires
        last < 10,
    ensures
        decimal(last).len() == 1,
        decimal(last)[0] as int == 48 + last,
        n > 0 ==> decimal(10 * n + last) == decimal(n) + decimal(last),
{
    if n > 0 {
        let whole = 10 * n + last;
        assert(whole / 10 == n);
        assert(whole % 10 == last);
        assert(decimal(n).push(digit(last)) == decimal(n) + decimal(last));
    }
}

/// What counts as a 32-bit number: ASCII digits, at least one, behind at most
/// one plus sign, as long as the value fits. Each digit behind a number makes
/// it ten times as large and adds its own value, and a digit alone is its own
/// value.
pub proof fn law_numbers_are_read_digit_by_digit(text: Seq<char>, last: char)
    ensures
        number_32(text) is Some ==> {
            &&& text.len() > 0
            &&& forall|i: int|
                0 <= i < text.len() ==> (48 <= (#[trigger] text[i]) as int <= 57 || (i == 0
                    && text[i] == '+' && text.len() > 1))
        },
        number_32(Seq::empty()) is None,
        number_32(seq!['+']) is None,
        !(48 <= last as int <= 57) ==> number_32(text.push(last)) is None || text.len() == 0,
        48 <= last as int <= 57 ==> {
            &&& number_32(seq![last]) == Some((last as int - 48) as u32)
            &&& number_32(seq!['+', last]) == Some((last as int - 48) as u32)
            &&& number_32(text) is Some ==> number_32(text.push(last)) == ({
                let whole = 10 * (number_32(text)->0 as int) + (last as int - 48);
                if whole <= 0xffff_ffff {
                    Some(whole as u32)
                } else {
                    None
                }
            })
        },
{
    let empty = Seq::<char>::empty();
    if number_32(text) is Some {
        let digits = unsigned(text);
        assert forall|i: int| 0 <= i < text.len() implies (48 <= (#[trigger] text[i]) as int <= 57
            || (i == 0 && text[i] == '+' && text.len() > 1)) by {
            if text[0] == '+' {
                if i > 0 {
                    assert(digits[i - 1] == text[i]);
                }
            } else {
                assert(is_digit(digits[i]));
            }
        }
    }
    assert(unsigned(seq!['+']) == empty);
    let longer = text.push(last);
    if text.len() > 0 {
        let digits = unsigned(longer);
        assert(digits == unsigned(text).push(last));
        assert(digits[digits.len() - 1] == last);
        if 48 <= last as int <= 57 && number_32(text) is Some {
            assert(digits.drop_last() == unsigned(text));
            assert forall|i: int| 0 <= i < digits.len() implies is_digit(#[trigger] digits[i]) by {
                if i < digits.len() - 1 {
                    assert(unsigned(text)[i] == digits[i]);
                }
            }
        }
    }
    if 48 <= last as int <= 57 {
        let one = seq![last];
        assert(unsigned(one) == one);
        assert(unsigned(seq!['+', last]) == one);
        assert(one.drop_last() == empty);
        assert(value(empty) == 0);
        assert(one.last() == last);
        assert(value(one) == last as int - 48);
        assert(all_digits(one));
    }
}

/// A text that overflows as a number overflows with any digit behind it, so
/// nothing too large is ever taken for something smaller.
pub proof fn law_large_numbers_are_none(text: Seq<char>, last: char)
    requires
        text.len() > 0,
        text != seq!['+'],
        number_32(text) is None,
    ensures
        number_32(text.push(last)) is None,
{
    let digits = unsigned(text);
    let longer = unsigned(text.push(last));
    assert(longer == digits.push(last));
    assert(longer.drop_last() == digits);
    if number_32(text.push(last)) is Some {
        assert forall|i: int| 0 <= i < digits.len() implies is_digit(#[trigger] digits[i]) by {
            assert(longer[i] == digits[i]);
        }
        assert(is_digit(longer[longer.len() - 1]));
        if digits.len() == 0 {
            assert(text =~= seq!['+']);
        }
        assert(value(longer) >= value(digits));
    }
}

}
