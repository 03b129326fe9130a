//! The wording of errors.

use vstd::prelude::*;

verus! {

/// The decimal digit of a number below ten.
pub open spec fn digit(n: nat) -> char {
    (48 + n) as char
}

/// A number in decimal notation.
pub open spec fn decimal(n: nat) -> Seq<char>
    decreases n,
{
    if n < 10 {
        seq![digit(n)]
    } else {
        decimal(n / 10).push(digit(n % 10))
    }
}

/// Appends a digit.
fn append_digit(text: &mut String, n: usize)
    requires
        n < 10,
    ensures
        final(text)@ == old(text)@.push(digit(n as nat)),
{
    proof {
        reveal_strlit("0");
        reveal_strlit("1");
        reveal_strlit("2");
        reveal_strlit("3");
        reveal_strlit("4");
        reveal_strlit("5");
        reveal_strlit("6");
        reveal_strlit("7");
        reveal_strlit("8");
        reveal_strlit("9");
    }
    let ghost before = text@;
    if n == 0 {
        text.append("0");
    } else if n == 1 {
        text.append("1");
    } else if n == 2 {
        text.append("2");
    } else if n == 3 {
        text.append("3");
    } else if n == 4 {
        text.append("4");
    } else if n == 5 {
        text.append("5");
    } else if n == 6 {
        text.append("6");
    } else if n == 7 {
        text.append("7");
    } else if n == 8 {
        text.append("8");
    } else {
        text.append("9");
    }
    assert(text@ =~= before.push(digit(n as nat)));
}

/// Appends a number in decimal notation.
fn append_decimal(text: &mut String, n: usize)
    ensures
        final(text)@ == old(text)@ + decimal(n as nat),
    decreases n,
{
    let ghost before = text@;
    if n >= 10 {
        append_decimal(text, n / 10);
    }
    append_digit(text, n % 10);
    assert(text@ =~= before + decimal(n as nat));
}

/// The number that a text in decimal notation stands for.
pub open spec fn number(text: Seq<char>) -> int
    decreases text.len(),
{
    if text.len() == 0 {
        0
    } else {
        number(text.drop_last()) * 10 + (text.last() as int - '0' as int)
    }
}

/// The decimal notation of a number consists of digits, starts with a zero only for
/// zero itself, and stands for the number.
pub proof fn law_decimal(n: nat)
    ensures
        decimal(n).len() > 0,
        forall|i: int| 0 <= i < decimal(n).len() ==> '0' <= #[trigger] decimal(n)[i] <= '9',
        n > 0 ==> decimal(n)[0] != '0',
        n == 0 ==> decimal(n).len() == 1,
        number(decimal(n)) == n,
    decreases n,
{
    reveal_with_fuel(number, 2);
    if n < 10 {
        assert(decimal(n).drop_last() =~= Seq::<char>::empty());
    } else {
        law_decimal(n / 10);
        assert(decimal(n).drop_last() =~= decimal(n / 10));
    }
}

/// The complaint names both numbers, the one that was expected first.
pub proof fn law_wrong_input_count(expected: nat, got: nat)
    ensures
        wrong_input_count(expected, got) == "Expected "@ + decimal(expected) + " inputs, got "@
            + decimal(got) + "."@,
{
}

/// What is said of a call with the wrong number of inputs.
pub open spec fn wrong_input_count(expected: nat, got: nat) -> Seq<char> {
    "Expected "@ + decimal(expected) + " inputs, got "@ + decimal(got) + "."@
}

/// Words the complaint about a call with the wrong number of inputs.
pub fn wrong_input_count_message(expected: usize, got: usize) -> (r: String)
    ensures
        r@ == wrong_input_count(expected as nat, got as nat),
{
    let mut text = String::new();
    text.append("Expected ");
    append_decimal(&mut text, expected);
    text.append(" inputs, got ");
    append_decimal(&mut text, got);
    text.append(".");
    assert(text@ =~= wrong_input_count(expected as nat, got as nat));
    text
}

} // verus!
