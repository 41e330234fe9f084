//! How credit amounts and the report's messages are written out.

use vstd::prelude::*;
use vstd::string::*;
use crate::course::Credit;

verus! {

/// `String::push` appends one character to the text.
pub assume_specification[ String::push ](text: &mut String, ch: char)
    ensures
        final(text)@ == old(text)@.push(ch),
;

/// `str::starts_with`, for a text as the pattern: whether `text` begins with
/// the characters of `prefix`.
#[verifier::external_body]
pub(crate) fn starts_with_text(text: &str, prefix: &str) -> (r: bool)
    ensures
        r == prefix@.is_prefix_of(text@),
{
    text.starts_with(prefix)
}

/// The character of a decimal digit.
pub open spec fn digit_char(digit: nat) -> char
    recommends
        digit < 10,
{
    if digit == 0 {
        '0'
    } else if digit == 1 {
        '1'
    } else if digit == 2 {
        '2'
    } else if digit == 3 {
        '3'
    } else if digit == 4 {
        '4'
    } else if digit == 5 {
        '5'
    } else if digit == 6 {
        '6'
    } else if digit == 7 {
        '7'
    } else if digit == 8 {
        '8'
    } else {
        '9'
    }
}

/// A number in decimal notation, without leading zeros.
pub open spec fn decimal_text(n: nat) -> Seq<char>
    decreases n,
{
    if n < 10 {
        seq![digit_char(n)]
    } else {
        decimal_text(n / 10).push(digit_char(n % 10))
    }
}

/// A credit amount in credit points, with as many decimal places as it
/// needs and two at most: `300` is written `3`, `350` is written `3.5`, and
/// `325` is written `3.25`.
pub open spec fn credit_text(amount: nat) -> Seq<char> {
    let whole = decimal_text(amount / 100);
    if amount % 100 == 0 {
        whole
    } else if amount % 10 == 0 {
        whole.push('.').push(digit_char((amount / 10) % 10))
    } else {
        whole.push('.').push(digit_char((amount / 10) % 10)).push(digit_char(amount % 10))
    }
}

/// The message that records a transfer of `amount` from the bank `from` to
/// the bank `to`.
pub open spec fn overflow_message(amount: nat, from: Seq<char>, to: Seq<char>) -> Seq<char> {
    "עברו "@ + credit_text(amount) + " נקודות מ- "@ + from + " ל- "@ + to
}

/// What the report says of a chain bank in which a chain was passed in full.
pub open spec fn chain_complete_message() -> Seq<char> {
    "The user completed a full chain"@
}

/// What the report says of a chain bank in which no chain was passed in full.
pub open spec fn chain_incomplete_message() -> Seq<char> {
    "The user didn't complete a full chain"@
}

fn digit(d: u64) -> (c: char)
    requires
        d < 10,
    ensures
        c == digit_char(d as nat),
{
    if d == 0 {
        '0'
    } else if d == 1 {
        '1'
    } else if d == 2 {
        '2'
    } else if d == 3 {
        '3'
    } else if d == 4 {
        '4'
    } else if d == 5 {
        '5'
    } else if d == 6 {
        '6'
    } else if d == 7 {
        '7'
    } else if d == 8 {
        '8'
    } else {
        '9'
    }
}

/// Writes `n` in decimal notation.
pub fn decimal_string(n: u64) -> (r: String)
    ensures
        r@ == decimal_text(n as nat),
    decreases n,
{
    if n < 10 {
        let mut text = String::new();
        text.push(digit(n));
        assert(text@ =~= seq![digit_char(n as nat)]);
        text
    } else {
        let mut text = decimal_string(n / 10);
        text.push(digit(n % 10));
        text
    }
}

/// Writes a credit amount in credit points, with as many decimal places as
/// it needs and two at most.
pub fn credit_string(amount: Credit) -> (r: String)
    ensures
        r@ == credit_text(amount as nat),
{
    let mut text = decimal_string(amount / 100);
    if amount % 100 != 0 {
        text.push('.');
        text.push(digit((amount / 10) % 10));
        if amount % 10 != 0 {
            text.push(digit(amount % 10));
        }
    }
    text
}

/// Writes the message that records a transfer of `amount` from the bank
/// `from` to the bank `to`.
pub fn overflow_message_string(amount: Credit, from: &String, to: &String) -> (r: String)
    ensures
        r@ == overflow_message(amount as nat, from@, to@),
{
    let mut text = String::from_str("עברו ");
    let points = credit_string(amount);
    text.append(points.as_str());
    text.append(" נקודות מ- ");
    text.append(from.as_str());
    text.append(" ל- ");
    text.append(to.as_str());
    text
}

} // verus!
