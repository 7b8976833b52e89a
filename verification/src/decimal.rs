//! Whole numbers in decimal digits.

use vstd::prelude::*;
use vstd::string::StringExecFns;

verus! {

/// The character of the digit `digit`.
pub open spec fn digit_char(digit: int) -> char {
    if digit == 0 {
        '0'
    } else if digit == 1 {
        '1'
    } else if digit == 2 {
        '2'
    } else if digit == 3 {
        '3'
    } else if digit == 4 {
        '4'
    } else if digit == 5 {
        '5'
    } else if digit == 6 {
        '6'
    } else if digit == 7 {
        '7'
    } else if digit == 8 {
        '8'
    } else {
        '9'
    }
}

/// The decimal digits of a number that is not negative, the most
/// significant first and without zeros in front.
pub open spec fn digits_text(value: nat) -> Seq<char>
    decreases value,
{
    if value < 10 {
        seq![digit_char(value as int)]
    } else {
        digits_text(value / 10).push(digit_char((value % 10) as int))
    }
}

/// The decimal digits of a whole number, with a minus sign in front of a
/// negative one.
pub open spec fn decimal_text(value: int) -> Seq<char> {
    if value < 0 {
        seq!['-'] + digits_text((-value) as nat)
    } else {
        digits_text(value as nat)
    }
}

/// The digit `digit` as text.
fn digit_str(digit: u8) -> (r: &'static str)
    requires
        digit < 10,
    ensures
        r@ == seq![digit_char(digit as int)],
{
    proof {
        reveal_strlit("0");
        reveal_strlit("1");
        reveal_strlit("2");
        reveal_strlit("3");
        reveal_strlit("4");
        reveal_strlit("5");
        reveal_strlit("6");
        reveal_strlit("7");
        reveal_strlit("8");
        reveal_strlit("9");
    }
    let text = match digit {
        0 => "0",
        1 => "1",
        2 => "2",
        3 => "3",
        4 => "4",
        5 => "5",
        6 => "6",
        7 => "7",
        8 => "8",
        _ => "9",
    };
    assert(text@ =~= seq![digit_char(digit as int)]);
    text
}

/// Writes the digits of `value` behind what `text` holds.
fn append_digits(text: &mut String, value: u128)
    ensures
        final(text)@ == old(text)@ + digits_text(value as nat),
    decreases value,
{
    if value >= 10 {
        append_digits(text, value / 10);
    }
    text.append(digit_str((value % 10) as u8));
    proof {
        if value >= 10 {
            assert(old(text)@ + digits_text((value / 10) as nat) + seq![
                digit_char((value % 10) as int),
            ] =~= old(text)@ + digits_text(value as nat));
        }
    }
}

/// Writes `value` in decimal digits behind what `text` holds, see
/// [`decimal_text`].
pub fn append_decimal(text: &mut String, value: i128)
    ensures
        final(text)@ == old(text)@ + decimal_text(value as int),
{
    if value < 0 {
        proof {
            reveal_strlit("-");
        }
        text.append("-");
        let magnitude: u128 = (-(value + 1)) as u128 + 1;
        append_digits(text, magnitude);
        assert("-"@ =~= seq!['-']);
        assert(old(text)@ + "-"@ + digits_text(magnitude as nat) =~= old(text)@ + (seq!['-']
            + digits_text(magnitude as nat)));
    } else {
        append_digits(text, value as u128);
    }
}

} // verus!
