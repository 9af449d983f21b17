use vstd::prelude::*;
use vstd::string::*;

verus! {

/// The ASCII digit for `digit`, which is below ten.
pub open spec fn digit_char(digit: nat) -> char {
    (48 + digit) as char
}

/// The decimal digits of `value`, most significant first, without leading zeros.
pub open spec fn decimal(value: nat) -> Seq<char>
    decreases value,
{
    if value < 10 {
        seq![digit_char(value)]
    } else {
        decimal(value / 10).push(digit_char(value % 10))
    }
}

/// The decimal digits of `value`, padded on the left with zeros to at least `width` characters.
pub open spec fn zero_padded_decimal(value: nat, width: nat) -> Seq<char> {
    let digits = decimal(value);
    if digits.len() < width {
        Seq::new((width - digits.len()) as nat, |i: int| '0') + digits
    } else {
        digits
    }
}

/// The number that a string of ASCII digits denotes in decimal.
pub open spec fn digits_value(digits: Seq<char>) -> nat
    decreases digits.len(),
{
    if digits.len() == 0 {
        0
    } else {
        digits_value(digits.drop_last()) * 10 + (digits.last() as nat - 48) as nat
    }
}

proof fn lemma_decimal_value(value: nat)
    ensures
        digits_value(decimal(value)) == value,
    decreases value,
{
    let digit = value % 10;
    assert(digit_char(digit) as nat == 48 + digit);
    if value >= 10 {
        lemma_decimal_value(value / 10);
        assert(decimal(value).drop_last() =~= decimal(value / 10));
        assert(decimal(value).last() == digit_char(digit));
        assert(decimal(value).len() > 0);
        assert(digits_value(decimal(value)) == digits_value(decimal(value / 10)) * 10 + digit);
        assert(value == (value / 10) * 10 + digit);
    } else {
        assert(decimal(value).drop_last() =~= Seq::<char>::empty());
        assert(decimal(value).last() == digit_char(digit));
        assert(digits_value(decimal(value).drop_last()) == 0);
        assert(digit == value);
    }
}

proof fn lemma_leading_zeros_value(zeros: nat, digits: Seq<char>)
    ensures
        digits_value(Seq::new(zeros, |i: int| '0') + digits) == digits_value(digits),
    decreases digits.len(),
{
    let padded = Seq::new(zeros, |i: int| '0') + digits;
    if digits.len() == 0 {
        assert(padded =~= Seq::new(zeros, |i: int| '0'));
        lemma_zeros_value(zeros);
    } else {
        lemma_leading_zeros_value(zeros, digits.drop_last());
        assert(padded.drop_last() =~= Seq::new(zeros, |i: int| '0') + digits.drop_last());
    }
}

proof fn lemma_zeros_value(zeros: nat)
    ensures
        digits_value(Seq::new(zeros, |i: int| '0')) == 0,
    decreases zeros,
{
    if zeros > 0 {
        lemma_zeros_value((zeros - 1) as nat);
        assert(Seq::new(zeros, |i: int| '0').drop_last() =~= Seq::new(
            (zeros - 1) as nat,
            |i: int| '0',
        ));
    }
}

/// Zero padding does not change the number that the digits denote.
pub proof fn lemma_zero_padded_decimal_value(value: nat, width: nat)
    ensures
        digits_value(zero_padded_decimal(value, width)) == value,
{
    lemma_decimal_value(value);
    let digits = decimal(value);
    if digits.len() < width {
        lemma_leading_zeros_value((width - digits.len()) as nat, digits);
    }
}

/// How many digits a number has, up to the four that frame numbers are padded to.
pub proof fn lemma_decimal_len(value: nat)
    ensures
        decimal(value).len() >= 1,
        value < 10 ==> decimal(value).len() == 1,
        10 <= value < 100 ==> decimal(value).len() == 2,
        100 <= value < 1000 ==> decimal(value).len() == 3,
        1000 <= value ==> decimal(value).len() >= 4,
    decreases value,
{
    if value >= 10 {
        lemma_decimal_len(value / 10);
    }
}

fn digit_text(digit: u64) -> (text: &'static str)
    requires
        digit < 10,
    ensures
        text@ == seq![digit_char(digit as nat)],
{
    proof {
        reveal_strlit("0");
        reveal_strlit("1");
        reveal_strlit("2");
        reveal_strlit("3");
        reveal_strlit("4");
        reveal_strlit("5");
        reveal_strlit("6");
        reveal_strlit("7");
        reveal_strlit("8");
        reveal_strlit("9");
    }
    let text = match digit {
        0 => "0",
        1 => "1",
        2 => "2",
        3 => "3",
        4 => "4",
        5 => "5",
        6 => "6",
        7 => "7",
        8 => "8",
        _ => "9",
    };
    assert(text@ =~= seq![digit_char(digit as nat)]);
    text
}

/// Appends the decimal digits of `value` to `text`.
pub fn append_decimal(text: &mut String, value: u64)
    ensures
        final(text)@ == old(text)@ + decimal(value as nat),
    decreases value,
{
    if value >= 10 {
        append_decimal(text, value / 10);
    }
    text.append(digit_text(value % 10));
    proof {
        if value >= 10 {
            assert(old(text)@ + decimal(value as nat) =~= old(text)@ + decimal((value / 10) as nat)
                + seq![digit_char((value % 10) as nat)]);
        }
    }
}

/// Appends `value` in decimal, padded on the left with zeros to at least four digits.
pub fn append_four_digit_decimal(text: &mut String, value: u32)
    ensures
        final(text)@ == old(text)@ + zero_padded_decimal(value as nat, 4),
{
    proof {
        lemma_decimal_len(value as nat);
        reveal_strlit("0");
    }
    let ghost start = text@;
    if value < 10 {
        text.append("0");
        text.append("0");
        text.append("0");
    } else if value < 100 {
        text.append("0");
        text.append("0");
    } else if value < 1000 {
        text.append("0");
    }
    append_decimal(text, value as u64);
    assert(text@ =~= start + zero_padded_decimal(value as nat, 4));
}

} // verus!
