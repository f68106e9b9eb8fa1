//! Decimal numerals.

use vstd::prelude::*;
use vstd::string::StringExecFns;

verus! {

/// The character that stands for the digit `d`.
pub open spec fn digit_char(d: nat) -> char
    recommends
        d < 10,
{
    if d == 0 {
        '0'
    } else if d == 1 {
        '1'
    } else if d == 2 {
        '2'
    } else if d == 3 {
        '3'
    } else if d == 4 {
        '4'
    } else if d == 5 {
        '5'
    } else if d == 6 {
        '6'
    } else if d == 7 {
        '7'
    } else if d == 8 {
        '8'
    } else {
        '9'
    }
}

/// Whether `c` is one of the ten digits.
pub open spec fn is_digit(c: char) -> bool {
    exists|d: nat| d < 10 && c == #[trigger] digit_char(d)
}

/// The decimal numeral of `n`: its digits from the most significant to the
/// least, with no leading zero and no sign.
pub open spec fn decimal_digits(n: nat) -> Seq<char>
    decreases n,
{
    if n < 10 {
        seq![digit_char(n)]
    } else {
        decimal_digits(n / 10).push(digit_char(n % 10))
    }
}

/// A numeral has at least one character, all its characters are digits, and
/// numbers of two digits or more have numerals of two characters or more.
pub proof fn lemma_decimal_shape(n: nat)
    ensures
        decimal_digits(n).len() >= 1,
        n >= 10 ==> decimal_digits(n).len() >= 2,
        forall|k: int| 0 <= k < decimal_digits(n).len() ==> is_digit(#[trigger] decimal_digits(n)[k]),
    decreases n,
{
    if n < 10 {
        assert(decimal_digits(n)[0] == digit_char(n));
    } else {
        lemma_decimal_shape(n / 10);
        let head = decimal_digits(n / 10);
        assert forall|k: int| 0 <= k < decimal_digits(n).len() implies is_digit(
            #[trigger] decimal_digits(n)[k],
        ) by {
            if k < head.len() {
                assert(decimal_digits(n)[k] == head[k]);
            } else {
                assert(decimal_digits(n)[k] == digit_char(n % 10));
            }
        }
    }
}

/// Different numbers have different numerals.
pub proof fn lemma_decimal_injective(n: nat, m: nat)
    requires
        decimal_digits(n) == decimal_digits(m),
    ensures
        n == m,
    decreases n,
{
    lemma_decimal_shape(n);
    lemma_decimal_shape(m);
    if n < 10 {
        assert(decimal_digits(n)[0] == digit_char(n));
        assert(decimal_digits(m)[0] == digit_char(m));
    } else {
        let head_n = decimal_digits(n / 10);
        let head_m = decimal_digits(m / 10);
        assert(m >= 10);
        assert(decimal_digits(n).last() == digit_char(n % 10));
        assert(decimal_digits(m).last() == digit_char(m % 10));
        assert(decimal_digits(n).drop_last() =~= head_n);
        assert(decimal_digits(m).drop_last() =~= head_m);
        lemma_decimal_injective(n / 10, m / 10);
    }
}

/// The numeral of one digit, as text.
fn digit_text(d: u8) -> (text: &'static str)
    requires
        d < 10,
    ensures
        text@ == seq![digit_char(d as nat)],
{
    proof {
        reveal_strlit("0");
        reveal_strlit("1");
        reveal_strlit("2");
        reveal_strlit("3");
        reveal_strlit("4");
        reveal_strlit("5");
        reveal_strlit("6");
        reveal_strlit("7");
        reveal_strlit("8");
        reveal_strlit("9");
    }
    let text = match d {
        0 => "0",
        1 => "1",
        2 => "2",
        3 => "3",
        4 => "4",
        5 => "5",
        6 => "6",
        7 => "7",
        8 => "8",
        _ => "9",
    };
    assert(text@ =~= seq![digit_char(d as nat)]);
    text
}

/// Writes `n` as a decimal numeral.
pub fn decimal(n: u64) -> (text: String)
    ensures
        text@ == decimal_digits(n as nat),
    decreases n,
{
    if n < 10 {
        String::from_str(digit_text(n as u8))
    } else {
        let mut text = decimal(n / 10);
        text.append(digit_text((n % 10) as u8));
        assert(text@ =~= decimal_digits(n as nat));
        text
    }
}

} // verus!
