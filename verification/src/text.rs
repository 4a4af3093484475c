use vstd::prelude::*;
use vstd::string::*;

verus! {

/// The character that writes one decimal digit.
pub open spec fn digit_char(digit: nat) -> char {
    if digit == 0 {
        '0'
    } else if digit == 1 {
        '1'
    } else if digit == 2 {
        '2'
    } else if digit == 3 {
        '3'
    } else if digit == 4 {
        '4'
    } else if digit == 5 {
        '5'
    } else if digit == 6 {
        '6'
    } else if digit == 7 {
        '7'
    } else if digit == 8 {
        '8'
    } else {
        '9'
    }
}

/// A number written in base ten, without sign and without leading zeros.
pub open spec fn decimal(value: nat) -> Seq<char>
    decreases value,
{
    if value < 10 {
        seq![digit_char(value)]
    } else {
        decimal(value / 10).push(digit_char(value % 10))
    }
}

fn digit_text(digit: u64) -> (text: &'static str)
    requires
        digit < 10,
    ensures
        text@ == seq![digit_char(digit as nat)],
{
    let text = match digit {
        0 => "0",
        1 => "1",
        2 => "2",
        3 => "3",
        4 => "4",
        5 => "5",
        6 => "6",
        7 => "7",
        8 => "8",
        _ => "9",
    };
    proof {
        reveal_strlit("0");
        reveal_strlit("1");
        reveal_strlit("2");
        reveal_strlit("3");
        reveal_strlit("4");
        reveal_strlit("5");
        reveal_strlit("6");
        reveal_strlit("7");
        reveal_strlit("8");
        reveal_strlit("9");
        assert(text@ =~= seq![digit_char(digit as nat)]);
    }
    text
}

/// Writes a number in base ten.
pub fn decimal_string(value: u64) -> (text: String)
    ensures
        text@ == decimal(value as nat),
{
    let mut text = String::from_str(digit_text(value % 10));
    let mut rest: u64 = value / 10;
    while rest > 0
        invariant
            rest > 0 ==> decimal(value as nat) == decimal(rest as nat) + text@,
            rest == 0 ==> decimal(value as nat) == text@,
        decreases rest,
    {
        let ghost tail = text@;
        let digit = digit_text(rest % 10);
        text = String::from_str(digit).concat(text.as_str());
        proof {
            let lead = seq![digit_char((rest % 10) as nat)];
            assert(text@ == lead + tail);
            if rest >= 10 {
                assert(decimal((rest / 10) as nat).push(digit_char((rest % 10) as nat)) + tail
                    =~= decimal((rest / 10) as nat) + (lead + tail));
            }
        }
        rest = rest / 10;
    }
    text
}

} // verus!
