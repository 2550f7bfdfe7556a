//! Text building blocks: decimal numerals, comparison and character access.

use vstd::arithmetic::power::pow;
use vstd::prelude::*;

verus! {

/// `String::push` appends one character.
pub assume_specification[ String::push ](text: &mut String, c: char)
    ensures
        final(text)@ == old(text)@.push(c),
;

/// The character for a decimal digit.
pub open spec fn digit(value: nat) -> char {
    (48 + value) as char
}

/// The decimal numeral of a number, without leading zeros.
pub open spec fn decimal(value: nat) -> Seq<char>
    decreases value,
{
    if value < 10 {
        seq![digit(value)]
    } else {
        decimal(value / 10).push(digit(value % 10))
    }
}

/// The decimal numeral of a number that may be negative.
pub open spec fn signed_decimal(value: int) -> Seq<char> {
    if value < 0 {
        seq!['-'] + decimal((-value) as nat)
    } else {
        decimal(value as nat)
    }
}

/// Appends the decimal numeral of `value`.
pub fn push_decimal(text: &mut String, value: u128)
    ensures
        final(text)@ == old(text)@ + decimal(value as nat),
    decreases value,
{
    if value >= 10 {
        push_decimal(text, value / 10);
    }
    let low: u8 = (value % 10) as u8;
    text.push((48 + low) as char);
}

/// Appends the decimal numeral of `value`, with a minus sign where it is negative.
pub fn push_signed_decimal(text: &mut String, value: i64)
    ensures
        final(text)@ == old(text)@ + signed_decimal(value as int),
{
    if value < 0 {
        text.push('-');
        push_decimal(text, (-(value as i128)) as u128);
    } else {
        push_decimal(text, value as u128);
    }
}

/// Whether two texts hold the same characters.
pub fn same_text(left: &str, right: &str) -> (same: bool)
    ensures
        same == (left@ == right@),
{
    left.to_owned() == right.to_owned()
}

/// The characters of a text, one by one.
pub fn characters(text: &str) -> (chars: Vec<char>)
    ensures
        chars@ == text@,
{
    let mut chars: Vec<char> = Vec::new();
    for c in iter: text.chars()
        invariant
            iter.seq() == text@,
            chars@ == text@.take(iter.index() as int),
    {
        chars.push(c);
    }
    assert(text@.take(text@.len() as int) == text@);
    chars
}

/// Whether a character is one of the ten decimal digits.
pub open spec fn is_digit(c: char) -> bool {
    '0' <= c <= '9'
}

/// The number that a sequence of decimal digits writes.
pub open spec fn digits_value(digits: Seq<char>) -> nat
    decreases digits.len(),
{
    if digits.len() == 0 {
        0
    } else {
        digits_value(digits.drop_last()) * 10 + (digits.last() as nat - 48) as nat
    }
}

/// Whether a text consists of decimal digits, at least one.
pub open spec fn all_digits(text: Seq<char>) -> bool {
    text.len() > 0 && forall|i: int| 0 <= i < text.len() ==> is_digit(#[trigger] text[i])
}

/// The number that a text writes: decimal digits, at least one, after a plus sign or none.
pub open spec fn number_value(text: Seq<char>) -> Option<nat> {
    let digits = if text.len() > 0 && text[0] == '+' {
        text.drop_first()
    } else {
        text
    };
    if all_digits(digits) {
        Some(digits_value(digits))
    } else {
        None
    }
}

/// The number that a text writes, if it fits.
pub open spec fn u64_value(text: Seq<char>) -> Option<u64> {
    match number_value(text) {
        Some(value) => if value <= u64::MAX {
            Some(value as u64)
        } else {
            None
        },
        None => None,
    }
}

/// `str::parse::<u64>`: an optional plus sign followed by only decimal digits, at least one;
/// anything else is an error, and so is a number that does not fit.
#[verifier::external_body]
pub(crate) fn parse_u64(text: &str) -> (value: Option<u64>)
    ensures
        value == u64_value(text@),
{
    text.parse::<u64>().ok()
}

/// The character for a hexadecimal digit, in lower case.
pub open spec fn hex_digit(value: nat) -> char {
    if value < 10 {
        digit(value)
    } else {
        (87 + value) as char
    }
}

/// The last `count` hexadecimal digits of a number.
pub open spec fn hex(value: nat, count: nat) -> Seq<char>
    decreases count,
{
    if count == 0 {
        Seq::empty()
    } else {
        hex(value / 16, (count - 1) as nat).push(hex_digit(value % 16))
    }
}

/// A UUID as text: its 32 hexadecimal digits, with hyphens after the 8th, 12th, 16th and
/// 20th.
pub open spec fn uuid_text(bits: u128) -> Seq<char> {
    let digits = hex(bits as nat, 32);
    digits.subrange(0, 8) + seq!['-'] + digits.subrange(8, 12) + seq!['-'] + digits.subrange(
        12,
        16,
    ) + seq!['-'] + digits.subrange(16, 20) + seq!['-'] + digits.subrange(20, 32)
}

/// `Uuid::from_u128`, printed with `Uuid`'s `Display`: hyphenated, in lower case.
#[verifier::external_body]
fn hyphenated(bits: u128) -> (text: String)
    ensures
        text@ == uuid_text(bits),
{
    uuid::Uuid::from_u128(bits).to_string()
}

/// Appends a UUID.
pub fn push_uuid(text: &mut String, bits: u128)
    ensures
        final(text)@ == old(text)@ + uuid_text(bits),
{
    text.append(hyphenated(bits).as_str());
}

/// What the `Debug` of `str` prints for a text: in double quotes, with escapes.
pub uninterp spec fn quoted(text: Seq<char>) -> Seq<char>;

/// `<str as Debug>::fmt`: a text in double quotes, with escapes. Which characters are escaped
/// depends on nothing but the text.
#[verifier::external_body]
pub(crate) fn quoted_text(text: &str) -> (printed: String)
    ensures
        printed@ == quoted(text@),
{
    format!("{:?}", text)
}

/// A numeral consists of decimal digits, does not start with a zero unless it is one, and writes
/// the number that it was made for.
pub proof fn law_numerals_write_their_number(value: nat)
    ensures
        decimal(value).len() > 0,
        forall|i: int| 0 <= i < decimal(value).len() ==> '0' <= #[trigger] decimal(value)[i] <= '9',
        decimal(value)[0] == '0' ==> value == 0,
        digits_value(decimal(value)) == value,
    decreases value,
{
    if value >= 10 {
        let shorter = decimal(value / 10);
        law_numerals_write_their_number(value / 10);
        assert(decimal(value).drop_last() =~= shorter);
        assert(decimal(value)[0] == shorter[0]);
    } else {
        assert(decimal(value).drop_last() =~= Seq::<char>::empty());
        assert(digits_value(Seq::<char>::empty()) == 0);
    }
}

/// Digits are worth ten times as much for each digit behind them.
pub proof fn law_digits_count_by_their_place(digits: Seq<char>, last: char)
    requires
        '0' <= last <= '9',
    ensures
        digits_value(Seq::<char>::empty()) == 0,
        digits_value(digits.push(last)) == 10 * digits_value(digits) + (last as int - '0' as int),
{
    assert(digits.push(last).drop_last() =~= digits);
}

/// A negative number is a minus sign and the numeral of its opposite; any other is its numeral.
pub proof fn law_signed_numerals_write_their_number(value: int)
    ensures
        value >= 0 ==> digits_value(signed_decimal(value)) == value && signed_decimal(value)[0]
            != '-',
        value < 0 ==> signed_decimal(value)[0] == '-' && digits_value(
            signed_decimal(value).drop_first(),
        ) == -value,
{
    if value < 0 {
        law_numerals_write_their_number((-value) as nat);
        assert(signed_decimal(value).drop_first() =~= decimal((-value) as nat));
    } else {
        law_numerals_write_their_number(value as nat);
    }
}

/// Reading a numeral gives its number back, with a plus sign before it or without, unless it
/// does not fit; and only decimal digits behind at most one plus sign are read as a number,
/// namely as the one that they write.
pub proof fn law_numerals_are_read_back(value: nat, text: Seq<char>)
    ensures
        u64_value(decimal(value)) == if value <= 0xffff_ffff_ffff_ffff {
            Some(value as u64)
        } else {
            None
        },
        u64_value(seq!['+'] + decimal(value)) == u64_value(decimal(value)),
        u64_value(text) matches Some(number) ==> {
            let digits = if text[0] == '+' {
                text.drop_first()
            } else {
                text
            };
            &&& text.len() > 0
            &&& digits.len() > 0
            &&& forall|i: int| 0 <= i < digits.len() ==> '0' <= #[trigger] digits[i] <= '9'
            &&& digits_value(digits) == number
        },
{
    law_numerals_write_their_number(value);
    assert((seq!['+'] + decimal(value)).drop_first() =~= decimal(value));
    assert(decimal(value)[0] != '+');
}

/// The number that hexadecimal digits in lower case write.
pub open spec fn hex_value(digits: Seq<char>) -> nat
    decreases digits.len(),
{
    if digits.len() == 0 {
        0
    } else {
        hex_value(digits.drop_last()) * 16 + if '0' <= digits.last() <= '9' {
            (digits.last() as int - '0' as int) as nat
        } else {
            (digits.last() as int - 'a' as int + 10) as nat
        }
    }
}

proof fn lemma_hex(value: nat, count: nat)
    requires
        value < pow(16, count),
    ensures
        hex(value, count).len() == count,
        hex_value(hex(value, count)) == value,
        forall|i: int|
            0 <= i < count ==> ('0' <= #[trigger] hex(value, count)[i] <= '9' || 'a' <= hex(
                value,
                count,
            )[i] <= 'f'),
    decreases count,
{
    reveal(pow);
    if count > 0 {
        assert(value / 16 < pow(16, (count - 1) as nat));
        lemma_hex(value / 16, (count - 1) as nat);
        assert(hex(value, count).drop_last() =~= hex(value / 16, (count - 1) as nat));
        assert(value == value / 16 * 16 + value % 16);
    }
}

/// A UUID as text is 36 characters long, with hyphens in four places and hexadecimal digits in
/// lower case in all others, and the digits write the bits: so different bits give different
/// texts.
pub proof fn law_uuid_texts_write_their_bits(bits: u128)
    ensures
        uuid_text(bits).len() == 36,
        forall|i: int|
            0 <= i < 36 ==> ((#[trigger] uuid_text(bits)[i]) == '-' <==> i == 8 || i == 13 || i
                == 18 || i == 23),
        hex_value(
            uuid_text(bits).subrange(0, 8) + uuid_text(bits).subrange(9, 13) + uuid_text(
                bits,
            ).subrange(14, 18) + uuid_text(bits).subrange(19, 23) + uuid_text(bits).subrange(24, 36),
        ) == bits,
{
    reveal(pow);
    reveal_with_fuel(pow, 33);
    lemma_hex(bits as nat, 32);
    let text = uuid_text(bits);
    assert(text.subrange(0, 8) + text.subrange(9, 13) + text.subrange(14, 18) + text.subrange(
        19,
        23,
    ) + text.subrange(24, 36) =~= hex(bits as nat, 32));
}

} // verus!
