//! Numbers as text, for the messages that name one.

use vstd::prelude::*;

verus! {

/// The character of one hexadecimal digit, in lower case.
pub open spec fn digit(value: nat) -> char {
    if value == 0 { '0' }
    else if value == 1 { '1' }
    else if value == 2 { '2' }
    else if value == 3 { '3' }
    else if value == 4 { '4' }
    else if value == 5 { '5' }
    else if value == 6 { '6' }
    else if value == 7 { '7' }
    else if value == 8 { '8' }
    else if value == 9 { '9' }
    else if value == 10 { 'a' }
    else if value == 11 { 'b' }
    else if value == 12 { 'c' }
    else if value == 13 { 'd' }
    else if value == 14 { 'e' }
    else { 'f' }
}

/// A number in base ten, without leading zeroes.
pub open spec fn decimal_text(value: nat) -> Seq<char>
    decreases value,
{
    if value < 10 {
        seq![digit(value)]
    } else {
        decimal_text(value / 10).push(digit(value % 10))
    }
}

/// A number in base sixteen, without leading zeroes.
pub open spec fn hex_digits(value: nat) -> Seq<char>
    decreases value,
{
    if value < 16 {
        seq![digit(value)]
    } else {
        hex_digits(value / 16).push(digit(value % 16))
    }
}

/// A number in base sixteen behind its `0x`.
pub open spec fn hex_text(value: nat) -> Seq<char> {
    "0x"@ + hex_digits(value)
}

fn digit_str(value: u64) -> (text: &'static str)
    requires
        value < 16,
    ensures
        text@ == seq![digit(value as nat)],
{
    proof {
        reveal_strlit("0"); reveal_strlit("1"); reveal_strlit("2"); reveal_strlit("3");
        reveal_strlit("4"); reveal_strlit("5"); reveal_strlit("6"); reveal_strlit("7");
        reveal_strlit("8"); reveal_strlit("9"); reveal_strlit("a"); reveal_strlit("b");
        reveal_strlit("c"); reveal_strlit("d"); reveal_strlit("e"); reveal_strlit("f");
    }
    let text = match value {
        0 => "0", 1 => "1", 2 => "2", 3 => "3",
        4 => "4", 5 => "5", 6 => "6", 7 => "7",
        8 => "8", 9 => "9", 10 => "a", 11 => "b",
        12 => "c", 13 => "d", 14 => "e", _ => "f",
    };
    assert(text@ =~= seq![digit(value as nat)]);
    text
}

/// Writes `value` in base ten.
pub fn decimal(value: u64) -> (text: String)
    ensures
        text@ == decimal_text(value as nat),
    decreases value,
{
    if value < 10 {
        digit_str(value).to_owned()
    } else {
        let mut text = decimal(value / 10);
        text.append(digit_str(value % 10));
        assert(text@ =~= decimal_text(value as nat));
        text
    }
}

fn bare_hex(value: u64) -> (text: String)
    ensures
        text@ == hex_digits(value as nat),
    decreases value,
{
    if value < 16 {
        digit_str(value).to_owned()
    } else {
        let mut text = bare_hex(value / 16);
        text.append(digit_str(value % 16));
        assert(text@ =~= hex_digits(value as nat));
        text
    }
}

/// Writes `value` in base sixteen behind a `0x`.
pub fn hex(value: u64) -> (text: String)
    ensures
        text@ == hex_text(value as nat),
{
    let digits = bare_hex(value);
    let mut text = "0x".to_owned();
    text.append(digits.as_str());
    text
}

} // verus!
