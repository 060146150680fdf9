//! Decimal numbers as text: reading and writing.
use vstd::prelude::*;

verus! {

/// A decimal digit.
pub open spec fn is_digit(c: char) -> bool {
    '0' <= c <= '9'
}

/// One or more decimal digits.
pub open spec fn is_digits(text: Seq<char>) -> bool {
    &&& text.len() > 0
    &&& forall|i: int| 0 <= i < text.len() ==> is_digit(#[trigger] text[i])
}

/// The number that a row of digits writes.
pub open spec fn number(digits: Seq<char>) -> int
    decreases digits.len(),
{
    if digits.len() == 0 {
        0
    } else {
        number(digits.drop_last()) * 10 + (digits.last() as int - '0' as int)
    }
}

/// What is left of a text after one leading `sign`.
pub open spec fn without_sign(text: Seq<char>, sign: char) -> Seq<char> {
    if text.len() > 0 && text[0] == sign {
        text.drop_first()
    } else {
        text
    }
}

/// The number that a text writes, where it is digits, perhaps after one `+`, and is not above `max`.
pub open spec fn unsigned_value(text: Seq<char>, max: int) -> Option<int> {
    let digits = without_sign(text, '+');
    if is_digits(digits) && number(digits) <= max {
        Some(number(digits))
    } else {
        None
    }
}

/// The number that a text writes, where it is digits, perhaps after one `+` or `-`, and fits in
/// 64 bits with a sign.
pub open spec fn signed_value(text: Seq<char>) -> Option<int> {
    if text.len() > 0 && text[0] == '-' {
        let digits = text.drop_first();
        if is_digits(digits) && -number(digits) >= i64::MIN {
            Some(-number(digits))
        } else {
            None
        }
    } else {
        unsigned_value(text, i64::MAX as int)
    }
}

/// The character of one digit.
pub open spec fn digit_char(digit: int) -> char {
    ('0' as int + digit) as char
}

/// The digits that write a number, without leading zeros.
pub open spec fn decimal(n: int) -> Seq<char>
    decreases n,
{
    if n < 10 {
        seq![digit_char(n)]
    } else {
        decimal(n / 10).push(digit_char(n % 10))
    }
}

/// The digits that write a number, after a `-` where it is below zero.
pub open spec fn signed_decimal(n: int) -> Seq<char> {
    if n < 0 {
        seq!['-'] + decimal(-n)
    } else {
        decimal(n)
    }
}

/// Digits write a number of zero or more, and a row of digits never writes less than its
/// beginning does.
proof fn lemma_number_grows(digits: Seq<char>, count: int)
    requires
        0 <= count <= digits.len(),
        forall|i: int| 0 <= i < digits.len() ==> is_digit(#[trigger] digits[i]),
    ensures
        0 <= number(digits.take(count)) <= number(digits),
    decreases digits.len(),
{
    if count == digits.len() {
        assert(digits.take(count) =~= digits);
        if count > 0 {
            assert(digits.drop_last() =~= digits.take(count - 1));
            lemma_number_grows(digits.drop_last(), count - 1);
            assert(digits.drop_last().take(count - 1) =~= digits.drop_last());
            assert(is_digit(digits[count - 1]));
        }
    } else {
        let init = digits.drop_last();
        assert forall|i: int| 0 <= i < init.len() implies is_digit(#[trigger] init[i]) by {
            assert(digits[i] == init[i]);
        }
        lemma_number_grows(init, count);
        assert(init.take(count) =~= digits.take(count));
        assert(is_digit(digits[digits.len() - 1]));
    }
}

/// Writing a number in digits and reading it back gives the number.
pub proof fn law_reading_undoes_writing(n: int)
    requires
        n >= 0,
    ensures
        is_digits(decimal(n)),
        number(decimal(n)) == n,
    decreases n,
{
    if n < 10 {
        assert(decimal(n).drop_last() =~= Seq::<char>::empty());
        assert(number(decimal(n).drop_last()) == 0);
    } else {
        law_reading_undoes_writing(n / 10);
        let digits = decimal(n);
        assert(digits.drop_last() =~= decimal(n / 10));
        assert forall|i: int| 0 <= i < digits.len() implies is_digit(#[trigger] digits[i]) by {
            if i < digits.len() - 1 {
                assert(digits[i] == decimal(n / 10)[i]);
            }
        }
    }
}

/// Any whole number of 64 bits with a sign is read back from what is written of it.
pub proof fn law_signed_reading_undoes_writing(n: i64)
    ensures
        signed_value(signed_decimal(n as int)) == Some(n as int),
{
    if n < 0 {
        law_reading_undoes_writing(-(n as int));
        assert(signed_decimal(n as int).drop_first() =~= decimal(-(n as int)));
    } else {
        law_reading_undoes_writing(n as int);
        let text = decimal(n as int);
        assert(is_digit(text[0]));
    }
}

/// Any whole number up to a limit is read back, under that limit, from what is written of it.
pub proof fn law_unsigned_reading_undoes_writing(n: int, max: int)
    requires
        0 <= n <= max,
    ensures
        unsigned_value(decimal(n), max) == Some(n),
{
    law_reading_undoes_writing(n);
    assert(is_digit(decimal(n)[0]));
}

/// Reads the digits of a text from a position on.
fn read_digits(text: &str, start: usize, max: u64) -> (value: Option<u64>)
    requires
        start <= text@.len(),
    ensures
        match value {
            Some(v) => is_digits(text@.skip(start as int)) && number(text@.skip(start as int)) == v
                && v <= max,
            None => !(is_digits(text@.skip(start as int)) && number(text@.skip(start as int))
                <= max),
        },
{
    let mut value: u64 = 0;
    let mut index: usize = 0;
    let total: usize = text.unicode_len();
    let ghost digits = text@.skip(start as int);
    proof {
        assert(digits.take(0) =~= Seq::<char>::empty());
    }
    for c in it: text.chars()
        invariant
            it.seq() == text@,
            total == text@.len(),
            index == it.index(),
            start <= total,
            digits == text@.skip(start as int),
            value <= max,
            index <= start ==> value == 0,
            index > start ==> value == number(digits.take(index - start)),
            forall|i: int| 0 <= i < index - start ==> is_digit(#[trigger] digits[i]),
    {
        if index >= start {
            let ghost at = index - start;
            proof {
                assert(digits[at] == c);
                if at == 0 {
                    assert(digits.take(0) =~= Seq::<char>::empty());
                    assert(number(digits.take(0)) == 0);
                }
                assert(digits.take(at + 1).drop_last() =~= digits.take(at));
                assert(digits.take(at + 1).last() == c);
                assert(number(digits.take(at + 1)) == value * 10 + (c as int - '0' as int));
            }
            if !('0' <= c && c <= '9') {
                return None;
            }
            let digit: u64 = (c as u32 - '0' as u32) as u64;
            if value > max / 10 || digit > max - value * 10 {
                proof {
                    assert(number(digits.take(at + 1)) > max);
                    if is_digits(digits) {
                        lemma_number_grows(digits, at + 1);
                    }
                }
                return None;
            }
            value = value * 10 + digit;
        }
        index += 1;
    }
    if total == start {
        return None;
    }
    proof {
        assert(digits.take(index - start) =~= digits);
    }
    Some(value)
}

/// Reads a whole number of zero or more, not above a limit.
pub fn parse_unsigned(text: &str, max: u64) -> (value: Option<u64>)
    ensures
        match value {
            Some(v) => unsigned_value(text@, max as int) == Some(v as int),
            None => unsigned_value(text@, max as int) is None,
        },
{
    proof {
        assert(text@.skip(0) =~= text@);
        if text@.len() > 0 {
            assert(text@.skip(1) =~= text@.drop_first());
        }
    }
    if text.unicode_len() > 0 && text.get_char(0) == '+' {
        read_digits(text, 1, max)
    } else {
        read_digits(text, 0, max)
    }
}

/// Reads a whole number of 64 bits.
pub fn parse_u64(text: &str) -> (value: Option<u64>)
    ensures
        match value {
            Some(v) => unsigned_value(text@, u64::MAX as int) == Some(v as int),
            None => unsigned_value(text@, u64::MAX as int) is None,
        },
{
    parse_unsigned(text, u64::MAX)
}

/// Reads a whole number of 16 bits.
pub fn parse_u16(text: &str) -> (value: Option<u16>)
    ensures
        match value {
            Some(v) => unsigned_value(text@, u16::MAX as int) == Some(v as int),
            None => unsigned_value(text@, u16::MAX as int) is None,
        },
{
    match parse_unsigned(text, 0xffff) {
        Some(v) => Some(v as u16),
        None => None,
    }
}

/// Reads a whole number of 64 bits with a sign.
pub fn parse_i64(text: &str) -> (value: Option<i64>)
    ensures
        match value {
            Some(v) => signed_value(text@) == Some(v as int),
            None => signed_value(text@) is None,
        },
{
    if text.unicode_len() > 0 && text.get_char(0) == '-' {
        proof {
            assert(text@.skip(1) =~= text@.drop_first());
        }
        match read_digits(text, 1, 0x8000_0000_0000_0000) {
            Some(v) => if v == 0x8000_0000_0000_0000 {
                Some(i64::MIN)
            } else {
                Some(-(v as i64))
            },
            None => None,
        }
    } else {
        match parse_unsigned(text, 0x7fff_ffff_ffff_ffff) {
            Some(v) => Some(v as i64),
            None => None,
        }
    }
}

/// The text of one digit.
fn digit_text(digit: u64) -> (text: &'static str)
    requires
        digit < 10,
    ensures
        text@ == seq![digit_char(digit as int)],
{
    proof {
        reveal_strlit("0");
        reveal_strlit("1");
        reveal_strlit("2");
        reveal_strlit("3");
        reveal_strlit("4");
        reveal_strlit("5");
        reveal_strlit("6");
        reveal_strlit("7");
        reveal_strlit("8");
        reveal_strlit("9");
    }
    if digit == 0 {
        "0"
    } else if digit == 1 {
        "1"
    } else if digit == 2 {
        "2"
    } else if digit == 3 {
        "3"
    } else if digit == 4 {
        "4"
    } else if digit == 5 {
        "5"
    } else if digit == 6 {
        "6"
    } else if digit == 7 {
        "7"
    } else if digit == 8 {
        "8"
    } else {
        "9"
    }
}

/// Writes a whole number of zero or more.
pub fn decimal_text(n: u64) -> (text: String)
    ensures
        text@ == decimal(n as int),
    decreases n,
{
    if n < 10 {
        digit_text(n).to_owned()
    } else {
        let mut text = decimal_text(n / 10);
        let ghost front = text@;
        text.append(digit_text(n % 10));
        proof {
            assert(text@ =~= front.push(digit_char((n % 10) as int)));
        }
        text
    }
}

/// Writes a whole number.
pub fn signed_decimal_text(n: i64) -> (text: String)
    ensures
        text@ == signed_decimal(n as int),
{
    if n < 0 {
        proof {
            reveal_strlit("-");
        }
        let magnitude: u64 = if n == i64::MIN {
            0x8000_0000_0000_0000
        } else {
            (-n) as u64
        };
        let mut text: String = "-".to_owned();
        text.append(decimal_text(magnitude).as_str());
        proof {
            assert(text@ =~= seq!['-'] + decimal(-(n as int)));
        }
        text
    } else {
        decimal_text(n as u64)
    }
}

/// Each digit more makes a number ten times as large and adds the digit.
pub proof fn law_digits_by_place(digits: Seq<char>, digit: char)
    ensures
        number(Seq::empty()) == 0,
        number(digits.push(digit)) == 10 * number(digits) + (digit as int - '0' as int),
{
    assert(digits.push(digit).drop_last() =~= digits);
}

/// A row of digits, leading zeros or not, is read as the number that it writes where that is up to the
/// limit, and so it is after one `+`.
pub proof fn law_digits_are_read(digits: Seq<char>, max: int)
    requires
        digits.len() > 0,
        forall|i: int| 0 <= i < digits.len() ==> '0' <= #[trigger] digits[i] <= '9',
    ensures
        unsigned_value(digits, max) == if number(digits) <= max {
            Some(number(digits))
        } else {
            None
        },
        unsigned_value(seq!['+'] + digits, max) == unsigned_value(digits, max),
{
    assert('0' <= digits[0] <= '9');
    assert forall|i: int| 0 <= i < digits.len() implies is_digit(#[trigger] digits[i]) by {
        assert('0' <= digits[i] <= '9');
    }
    assert((seq!['+'] + digits).drop_first() =~= digits);
}

/// Nothing is read as a number but digits, perhaps after one `+`.
pub proof fn law_only_digits_are_read(text: Seq<char>, max: int)
    requires
        unsigned_value(text, max) is Some,
    ensures
        text.len() > 0,
        forall|i: int| 1 <= i < text.len() ==> '0' <= #[trigger] text[i] <= '9',
        text[0] == '+' ==> text.len() > 1,
        text[0] != '+' ==> '0' <= text[0] <= '9',
{
    let digits = without_sign(text, '+');
    assert(is_digit(digits[0]));
    assert forall|i: int| 1 <= i < text.len() implies '0' <= #[trigger] text[i] <= '9' by {
        if text[0] == '+' {
            assert(is_digit(digits[i - 1]));
        } else {
            assert(is_digit(digits[i]));
        }
    }
}

/// A row of digits after a `-` is read as the number below zero that it writes, down to -2^63.
pub proof fn law_digits_below_zero_are_read(digits: Seq<char>)
    requires
        digits.len() > 0,
        forall|i: int| 0 <= i < digits.len() ==> '0' <= #[trigger] digits[i] <= '9',
    ensures
        signed_value(seq!['-'] + digits) == if number(digits) <= 0x8000_0000_0000_0000 {
            Some(-number(digits))
        } else {
            None
        },
{
    assert forall|i: int| 0 <= i < digits.len() implies is_digit(#[trigger] digits[i]) by {
        assert('0' <= digits[i] <= '9');
    }
    assert((seq!['-'] + digits).drop_first() =~= digits);
}

/// A text without a `-` in front is read with a sign as it is read without one, up to 2^63 - 1; one
/// with a `-` in front is read only where digits follow.
pub proof fn law_signs(text: Seq<char>)
    ensures
        text.len() == 0 || text[0] != '-' ==> signed_value(text) == unsigned_value(
            text,
            0x7fff_ffff_ffff_ffff,
        ),
        text.len() > 0 && text[0] == '-' && signed_value(text) is Some ==> text.len() > 1 && forall|
            i: int,
        |
            1 <= i < text.len() ==> '0' <= #[trigger] text[i] <= '9',
{
    if text.len() > 0 && text[0] == '-' && signed_value(text) is Some {
        let digits = text.drop_first();
        assert forall|i: int| 1 <= i < text.len() implies '0' <= #[trigger] text[i] <= '9' by {
            assert(is_digit(digits[i - 1]));
        }
    }
}

/// A number is written in digits that write it, without a zero in front but for zero itself; one
/// below zero with a `-` before the digits of its magnitude.
pub proof fn law_written_numbers(n: int)
    requires
        n >= 0,
    ensures
        decimal(n).len() > 0,
        forall|i: int| 0 <= i < decimal(n).len() ==> '0' <= #[trigger] decimal(n)[i] <= '9',
        number(decimal(n)) == n,
        decimal(n)[0] == '0' ==> n == 0 && decimal(n).len() == 1,
        signed_decimal(n) == decimal(n),
        n > 0 ==> signed_decimal(-n) == seq!['-'] + decimal(n),
    decreases n,
{
    law_reading_undoes_writing(n);
    let digits = decimal(n);
    assert forall|i: int| 0 <= i < digits.len() implies '0' <= #[trigger] digits[i] <= '9' by {
        assert(is_digit(digits[i]));
    }
    if n >= 10 {
        law_written_numbers(n / 10);
        assert(digits[0] == decimal(n / 10)[0]);
    }
}

} // verus!
