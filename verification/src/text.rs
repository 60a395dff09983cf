//! Numbers as text: decimal digits and binary digits.

use vstd::prelude::*;
use vstd::string::*;

verus! {

/// The character of the decimal digit `digit`.
pub open spec fn digit_char(digit: nat) -> char {
    if digit == 0 {
        '0'
    } else if digit == 1 {
        '1'
    } else if digit == 2 {
        '2'
    } else if digit == 3 {
        '3'
    } else if digit == 4 {
        '4'
    } else if digit == 5 {
        '5'
    } else if digit == 6 {
        '6'
    } else if digit == 7 {
        '7'
    } else if digit == 8 {
        '8'
    } else {
        '9'
    }
}

/// `value` in decimal digits, without leading zeros.
pub open spec fn decimal_digits(value: nat) -> Seq<char>
    decreases value,
{
    if value < 10 {
        seq![digit_char(value)]
    } else {
        decimal_digits(value / 10).push(digit_char(value % 10))
    }
}

/// `value` in decimal digits, after a minus sign where it is negative.
pub open spec fn signed_decimal_digits(value: int) -> Seq<char> {
    if value < 0 {
        seq!['-'] + decimal_digits((-value) as nat)
    } else {
        decimal_digits(value as nat)
    }
}

/// The low `count` bits of `value` in binary digits, highest bit first.
pub open spec fn binary_digits(value: nat, count: nat) -> Seq<char>
    decreases count,
{
    if count == 0 {
        Seq::empty()
    } else {
        binary_digits(value / 2, (count - 1) as nat).push(
            if value % 2 == 1 {
                '1'
            } else {
                '0'
            },
        )
    }
}

/// Appends `value` in decimal digits to `text`.
pub fn append_decimal(text: &mut String, value: u64)
    ensures
        final(text)@ == old(text)@ + decimal_digits(value as nat),
    decreases value,
{
    proof {
        reveal_strlit("0");
        reveal_strlit("1");
        reveal_strlit("2");
        reveal_strlit("3");
        reveal_strlit("4");
        reveal_strlit("5");
        reveal_strlit("6");
        reveal_strlit("7");
        reveal_strlit("8");
        reveal_strlit("9");
    }
    if value >= 10 {
        append_decimal(text, value / 10);
    }
    let digit: u64 = value % 10;
    let ghost before = text@;
    let name: &str = if digit == 0 {
        "0"
    } else if digit == 1 {
        "1"
    } else if digit == 2 {
        "2"
    } else if digit == 3 {
        "3"
    } else if digit == 4 {
        "4"
    } else if digit == 5 {
        "5"
    } else if digit == 6 {
        "6"
    } else if digit == 7 {
        "7"
    } else if digit == 8 {
        "8"
    } else {
        "9"
    };
    text.append(name);
    proof {
        assert(name@ =~= seq![digit_char(digit as nat)]);
        if value >= 10 {
            assert(text@ =~= old(text)@ + decimal_digits(value as nat));
        } else {
            assert(text@ =~= old(text)@ + decimal_digits(value as nat));
        }
    }
}

/// Appends `value` in decimal digits to `text`, after a minus sign where it
/// is negative.
pub fn append_signed_decimal(text: &mut String, value: i64)
    ensures
        final(text)@ == old(text)@ + signed_decimal_digits(value as int),
{
    if value < 0 {
        proof {
            reveal_strlit("-");
        }
        text.append("-");
        let magnitude: u64 = (-(value as i128)) as u64;
        append_decimal(text, magnitude);
        proof {
            assert("-"@ =~= seq!['-']);
            assert(text@ =~= old(text)@ + signed_decimal_digits(value as int));
        }
    } else {
        append_decimal(text, value as u64);
    }
}

/// Appends the low `count` bits of `value` in binary digits to `text`, highest
/// bit first.
pub fn append_binary(text: &mut String, value: u32, count: u32)
    ensures
        final(text)@ == old(text)@ + binary_digits(value as nat, count as nat),
    decreases count,
{
    if count > 0 {
        proof {
            reveal_strlit("0");
            reveal_strlit("1");
        }
        append_binary(text, value / 2, count - 1);
        let name: &str = if value % 2 == 1 {
            "1"
        } else {
            "0"
        };
        text.append(name);
        proof {
            assert(name@ =~= seq![if value % 2 == 1 {
                '1'
            } else {
                '0'
            }]);
            assert(text@ =~= old(text)@ + binary_digits(value as nat, count as nat));
        }
    } else {
        assert(text@ =~= old(text)@ + binary_digits(value as nat, count as nat));
    }
}

} // verus!
