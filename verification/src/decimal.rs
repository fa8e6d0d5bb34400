//! Whole numbers as decimal text, both ways.

use vstd::prelude::*;
use vstd::string::*;

verus! {

/// Whether `c` is one of the ten decimal digits.
pub open spec fn is_digit(c: char) -> bool {
    '0' <= c && c <= '9'
}

/// The number a decimal digit stands for.
pub open spec fn digit_value(c: char) -> nat {
    (c as int - '0' as int) as nat
}

/// The decimal digit that stands for `d`, for `d` below ten.
pub open spec fn digit(d: nat) -> char {
    ('0' as int + d) as char
}

/// The usual decimal notation of `n`: no sign, no leading zero but for zero itself.
pub open spec fn decimal(n: nat) -> Seq<char>
    decreases n,
{
    if n < 10 {
        seq![digit(n)]
    } else {
        decimal(n / 10).push(digit(n % 10))
    }
}

/// The number that a run of decimal digits denotes, the empty run denoting zero.
pub open spec fn digits_value(digits: Seq<char>) -> nat
    decreases digits.len(),
{
    if digits.len() == 0 {
        0
    } else {
        10 * digits_value(digits.drop_last()) + digit_value(digits.last())
    }
}

/// Every character of `text` is a decimal digit.
pub open spec fn all_digits(text: Seq<char>) -> bool {
    forall|i: int| 0 <= i < text.len() ==> is_digit(#[trigger] text[i])
}

/// `text` without the one plus sign that may lead it.
pub open spec fn unsigned(text: Seq<char>) -> Seq<char> {
    if text.len() > 0 && text[0] == '+' {
        text.skip(1)
    } else {
        text
    }
}

/// The number that `text` denotes, if it is a number: an optional plus sign,
/// then one or more decimal digits and nothing else.
pub open spec fn parsed(text: Seq<char>) -> Option<nat> {
    let digits = unsigned(text);
    if digits.len() > 0 && all_digits(digits) {
        Some(digits_value(digits))
    } else {
        None
    }
}

/// The text of one digit.
fn digit_text(d: u64) -> (text: &'static str)
    requires
        d < 10,
    ensures
        text@ == seq![digit(d as nat)],
{
    proof {
        reveal_strlit("0");
        reveal_strlit("1");
        reveal_strlit("2");
        reveal_strlit("3");
        reveal_strlit("4");
        reveal_strlit("5");
        reveal_strlit("6");
        reveal_strlit("7");
        reveal_strlit("8");
        reveal_strlit("9");
    }
    match d {
        0 => "0",
        1 => "1",
        2 => "2",
        3 => "3",
        4 => "4",
        5 => "5",
        6 => "6",
        7 => "7",
        8 => "8",
        _ => "9",
    }
}

/// Writes `n` in decimal notation.
pub fn to_decimal(n: u64) -> (text: String)
    ensures
        text@ == decimal(n as nat),
    decreases n,
{
    if n < 10 {
        digit_text(n).to_owned()
    } else {
        let mut text = to_decimal(n / 10);
        text.append(digit_text(n % 10));
        text
    }
}

/// A run of digits denotes at least what any of its prefixes denotes.
proof fn lemma_value_grows(digits: Seq<char>, k: int)
    requires
        0 <= k <= digits.len(),
    ensures
        digits_value(digits.take(k)) <= digits_value(digits),
    decreases digits.len(),
{
    if k == digits.len() {
        assert(digits.take(k) =~= digits);
    } else {
        lemma_value_grows(digits.drop_last(), k);
        assert(digits.drop_last().take(k) =~= digits.take(k));
    }
}

/// How many digits were read once `index` characters were, the sign not counted.
spec fn read_digits(signed: bool, index: int) -> int {
    if signed {
        index - 1
    } else {
        index
    }
}

/// Reads a number: an optional plus sign, then one or more decimal digits and
/// nothing else. Text of any other shape is no number, and neither is one too
/// large for the machine's word.
pub fn parse_number(text: &str) -> (number: Option<usize>)
    ensures
        number == match parsed(text@) {
            Some(n) => if n <= usize::MAX {
                Some(n as usize)
            } else {
                None
            },
            None => None,
        },
{
    let mut value: usize = 0;
    let mut any_digit = false;
    let mut signed = false;
    let ghost body = unsigned(text@);
    for c in it: text.chars()
        invariant
            it.seq() == text@,
            body == unsigned(text@),
            signed == (it.index() > 0 && text@[0] == '+'),
            any_digit == (read_digits(signed, it.index() as int) > 0),
            0 <= read_digits(signed, it.index() as int) <= body.len(),
            all_digits(body.take(read_digits(signed, it.index() as int))),
            value == digits_value(body.take(read_digits(signed, it.index() as int))),
    {
        let ghost count = read_digits(signed, it.index() as int);
        if !any_digit && !signed && c == '+' {
            signed = true;
        } else if '0' <= c && c <= '9' {
            let d = (c as u32 - '0' as u32) as usize;
            proof {
                assert(body.take(count + 1).drop_last() =~= body.take(count));
                lemma_value_grows(body, count + 1);
            }
            let next = match value.checked_mul(10) {
                Some(tens) => tens.checked_add(d),
                None => None,
            };
            match next {
                Some(v) => {
                    value = v;
                    any_digit = true;
                },
                None => {
                    return None;
                },
            }
        } else {
            assert(body[count] == c);
            return None;
        }
    }
    assert(body.take(body.len() as int) =~= body);
    if any_digit {
        Some(value)
    } else {
        None
    }
}

} // verus!
