//! Decimal numerals.

use vstd::prelude::*;

verus! {

/// The numeral of one digit.
pub open spec fn digit(value: nat) -> char
    recommends
        value < 10,
{
    seq!['0', '1', '2', '3', '4', '5', '6', '7', '8', '9'][value as int]
}

/// The decimal numeral of `value`, without leading zeros.
pub open spec fn decimal(value: nat) -> Seq<char>
    decreases value,
{
    if value < 10 {
        seq![digit(value)]
    } else {
        decimal(value / 10).push(digit(value % 10))
    }
}

/// The last three digits of `value`, leading zeros included.
pub open spec fn three_digits(value: nat) -> Seq<char> {
    seq![digit(value / 100 % 10), digit(value / 10 % 10), digit(value % 10)]
}

fn digit_str(value: u64) -> (text: &'static str)
    requires
        value < 10,
    ensures
        text@ == seq![digit(value as nat)],
{
    proof {
        reveal_strlit("0");
        reveal_strlit("1");
        reveal_strlit("2");
        reveal_strlit("3");
        reveal_strlit("4");
        reveal_strlit("5");
        reveal_strlit("6");
        reveal_strlit("7");
        reveal_strlit("8");
        reveal_strlit("9");
    }
    match value {
        0 => "0",
        1 => "1",
        2 => "2",
        3 => "3",
        4 => "4",
        5 => "5",
        6 => "6",
        7 => "7",
        8 => "8",
        _ => "9",
    }
}

/// Appends the decimal numeral of `value` to `text`.
pub fn push_decimal(text: &mut String, value: u64)
    ensures
        final(text)@ == old(text)@ + decimal(value as nat),
    decreases value,
{
    if value >= 10 {
        push_decimal(text, value / 10);
    }
    text.append(digit_str(value % 10));
}

/// Appends the last three digits of `value` to `text`.
pub fn push_three_digits(text: &mut String, value: u64)
    ensures
        final(text)@ == old(text)@ + three_digits(value as nat),
{
    text.append(digit_str(value / 100 % 10));
    text.append(digit_str(value / 10 % 10));
    text.append(digit_str(value % 10));
}

/// A value below `10^digits` has a numeral of at most `digits` digits.
pub proof fn lemma_decimal_len(value: nat, digits: nat)
    requires
        digits > 0,
        value < vstd::arithmetic::power::pow(10, digits),
    ensures
        0 < decimal(value).len() <= digits,
    decreases value,
{
    if value >= 10 {
        reveal(vstd::arithmetic::power::pow);
        if digits == 1 {
            assert(vstd::arithmetic::power::pow(10, 1) == 10) by {
                reveal_with_fuel(vstd::arithmetic::power::pow, 2);
            }
        }
        lemma_decimal_len(value / 10, (digits - 1) as nat);
    }
}

/// A numeral starts with a digit.
pub proof fn lemma_decimal_starts_with_a_digit(value: nat)
    ensures
        decimal(value).len() > 0,
        '0' <= decimal(value)[0] <= '9',
    decreases value,
{
    if value >= 10 {
        lemma_decimal_starts_with_a_digit(value / 10);
    }
}

/// Whether every character is a decimal digit.
pub open spec fn all_digits(text: Seq<char>) -> bool {
    forall|i: int| 0 <= i < text.len() ==> '0' <= #[trigger] text[i] <= '9'
}

/// The number that a run of digits is read as, most significant digit first.
pub open spec fn number_of(text: Seq<char>) -> int
    decreases text.len(),
{
    if text.len() == 0 {
        0
    } else {
        10 * number_of(text.drop_last()) + (text.last() as int - '0' as int)
    }
}

/// Whether `text` is how `value` is written: in digits that are read as
/// `value`, the first of which is no zero unless it is the only one.
pub open spec fn is_numeral_of(text: Seq<char>, value: int) -> bool {
    &&& text.len() > 0
    &&& all_digits(text)
    &&& text.len() > 1 ==> text[0] != '0'
    &&& number_of(text) == value
}

/// The ten digits stand in a row in the character set, from zero to nine.
pub proof fn law_digits_follow_each_other(value: nat)
    requires
        value < 10,
    ensures
        digit(value) as int == '0' as int + value,
        '0' <= digit(value) <= '9',
{
    assert(value == 0 || value == 1 || value == 2 || value == 3 || value == 4 || value == 5
        || value == 6 || value == 7 || value == 8 || value == 9);
}

/// The numeral of a value is read back as that value, and has no leading zero.
pub proof fn law_numerals_read_back(value: nat)
    ensures
        is_numeral_of(decimal(value), value as int),
        value > 0 ==> decimal(value)[0] != '0',
    decreases value,
{
    law_digits_follow_each_other(value % 10);
    if value >= 10 {
        law_numerals_read_back(value / 10);
        let front = decimal(value / 10);
        assert(decimal(value).drop_last() =~= front);
        assert forall|i: int| 0 <= i < decimal(value).len() implies '0' <= #[trigger] decimal(
            value,
        )[i] <= '9' by {
            if i < front.len() {
                assert(decimal(value)[i] == front[i]);
            }
        }
        assert(decimal(value)[0] == front[0]);
    } else {
        assert(decimal(value).drop_last() =~= Seq::empty());
        assert(number_of(Seq::empty()) == 0);
    }
}

/// Three digits are read back as what the value leaves when divided by a
/// thousand.
pub proof fn law_three_digits_read_back(value: nat)
    ensures
        three_digits(value).len() == 3,
        all_digits(three_digits(value)),
        number_of(three_digits(value)) == value % 1000,
{
    law_digits_follow_each_other(value / 100 % 10);
    law_digits_follow_each_other(value / 10 % 10);
    law_digits_follow_each_other(value % 10);
    let text = three_digits(value);
    let two = text.drop_last();
    let one = two.drop_last();
    assert(number_of(one.drop_last()) == 0);
    assert(number_of(one) == value / 100 % 10);
    assert(number_of(two) == value / 100 % 10 * 10 + value / 10 % 10);
    assert(value % 1000 == value / 100 % 10 * 100 + value / 10 % 10 * 10 + value % 10);
}

/// A numeral is appended behind what was there, and is read back as the value.
pub proof fn law_numerals_are_appended(text: &mut String, value: u64)
    requires
        call_ensures(push_decimal, (text, value), ()),
    ensures
        old(text)@.is_prefix_of(final(text)@),
        is_numeral_of(final(text)@.skip(old(text)@.len() as int), value as int),
{
    law_numerals_read_back(value as nat);
    assert(final(text)@.skip(old(text)@.len() as int) =~= decimal(value as nat));
}

/// Three digits are appended behind what was there, and are read back as what
/// the value leaves when divided by a thousand.
pub proof fn law_three_digits_are_appended(text: &mut String, value: u64)
    requires
        call_ensures(push_three_digits, (text, value), ()),
    ensures
        old(text)@.is_prefix_of(final(text)@),
        final(text)@.len() == old(text)@.len() + 3,
        all_digits(final(text)@.skip(old(text)@.len() as int)),
        number_of(final(text)@.skip(old(text)@.len() as int)) == value % 1000,
{
    law_three_digits_read_back(value as nat);
    assert(final(text)@.skip(old(text)@.len() as int) =~= three_digits(value as nat));
}

} // verus!
