//! Reading decimal numerals, with the errors of an integer that does not fit.

use vstd::prelude::*;

verus! {

/// Why a text is not the numeral of an integer of the wanted type.
#[derive(Debug, Clone, Copy, PartialEq, Eq, Structural)]
pub enum NumberError {
    /// The text is empty.
    Empty,
    /// A character is no digit, or a sign stands alone.
    InvalidDigit,
    /// The number is above the type's largest value.
    PosOverflow,
    /// The number is below the type's smallest value.
    NegOverflow,
}

impl NumberError {
    /// The words that describe the error.
    pub open spec fn description(self) -> Seq<char> {
        match self {
            NumberError::Empty => "cannot parse integer from empty string"@,
            NumberError::InvalidDigit => "invalid digit found in string"@,
            NumberError::PosOverflow => "number too large to fit in target type"@,
            NumberError::NegOverflow => "number too small to fit in target type"@,
        }
    }

    /// The words that describe the error.
    pub fn message(&self) -> (s: &'static str)
        ensures
            s@ == self.description(),
    {
        match self {
            NumberError::Empty => "cannot parse integer from empty string",
            NumberError::InvalidDigit => "invalid digit found in string",
            NumberError::PosOverflow => "number too large to fit in target type",
            NumberError::NegOverflow => "number too small to fit in target type",
        }
    }
}

/// `c` is one of the ten digits.
pub open spec fn is_digit(c: char) -> bool {
    48 <= c as int <= 57
}

/// The value of the digit `c`.
pub open spec fn digit_value(c: char) -> int {
    c as int - 48
}

/// The value of `c` where it is a digit.
pub fn digit_of(c: char) -> (d: Option<u8>)
    ensures
        is_digit(c) <==> d is Some,
        d is Some ==> d->0 as int == digit_value(c),
{
    match c {
        '0' => Some(0),
        '1' => Some(1),
        '2' => Some(2),
        '3' => Some(3),
        '4' => Some(4),
        '5' => Some(5),
        '6' => Some(6),
        '7' => Some(7),
        '8' => Some(8),
        '9' => Some(9),
        _ => None,
    }
}

/// Reads `digits` from the left onto `acc`, adding each digit, or taking it
/// away where `negative`. The first character that is no digit, or that takes
/// the number out of `min..=max`, ends the reading with its error.
pub open spec fn scan_digits(
    digits: Seq<char>,
    negative: bool,
    min: int,
    max: int,
    acc: int,
) -> Result<int, NumberError>
    decreases digits.len(),
{
    if digits.len() == 0 {
        Ok(acc)
    } else if !is_digit(digits[0]) {
        Err(NumberError::InvalidDigit)
    } else {
        let next = if negative {
            acc * 10 - digit_value(digits[0])
        } else {
            acc * 10 + digit_value(digits[0])
        };
        if next > max {
            Err(NumberError::PosOverflow)
        } else if next < min {
            Err(NumberError::NegOverflow)
        } else {
            scan_digits(digits.skip(1), negative, min, max, next)
        }
    }
}

/// The integer in `min..=max` that `text` writes in decimal: digits after an
/// optional `+`, or after a `-` where the type is `signed`.
pub open spec fn parse_decimal(text: Seq<char>, signed: bool, min: int, max: int) -> Result<
    int,
    NumberError,
> {
    if text.len() == 0 {
        Err(NumberError::Empty)
    } else if text.len() == 1 && (text[0] == '+' || text[0] == '-') {
        Err(NumberError::InvalidDigit)
    } else if text[0] == '+' {
        scan_digits(text.skip(1), false, min, max, 0)
    } else if text[0] == '-' && signed {
        scan_digits(text.skip(1), true, min, max, 0)
    } else {
        scan_digits(text, false, min, max, 0)
    }
}

/// `result` is what `parse_decimal` gives, as a machine integer.
pub open spec fn parsed_as(
    result: Result<i64, NumberError>,
    text: Seq<char>,
    signed: bool,
    min: int,
    max: int,
) -> bool {
    match result {
        Ok(v) => parse_decimal(text, signed, min, max) == Ok::<int, NumberError>(v as int),
        Err(e) => parse_decimal(text, signed, min, max) == Err::<int, NumberError>(e),
    }
}

/// Reads the decimal numeral `text` as an integer in `min..=max`.
pub fn parse_integer(text: &Vec<char>, signed: bool, min: i64, max: i64) -> (result: Result<
    i64,
    NumberError,
>)
    requires
        min <= 0 <= max,
    ensures
        parsed_as(result, text@, signed, min as int, max as int),
{
    if text.len() == 0 {
        return Err(NumberError::Empty);
    }
    let first = text[0];
    if text.len() == 1 && (first == '+' || first == '-') {
        return Err(NumberError::InvalidDigit);
    }
    let negative = first == '-' && signed;
    let mut i: usize = if first == '+' || negative {
        1
    } else {
        0
    };
    let mut acc: i64 = 0;
    assert(text@.skip(0) =~= text@);
    while i < text.len()
        invariant
            i <= text.len(),
            min <= 0 <= max,
            min <= acc <= max,
            parse_decimal(text@, signed, min as int, max as int) == scan_digits(
                text@.skip(i as int),
                negative,
                min as int,
                max as int,
                acc as int,
            ),
        decreases text.len() - i,
    {
        let c = text[i];
        assert(text@.skip(i as int)[0] == c);
        assert(text@.skip(i as int).skip(1) =~= text@.skip(i + 1));
        let digit: i128 = match digit_of(c) {
            Some(d) => d as i128,
            None => {
                return Err(NumberError::InvalidDigit);
            },
        };
        let next: i128 = if negative {
            acc as i128 * 10 - digit
        } else {
            acc as i128 * 10 + digit
        };
        if next > max as i128 {
            return Err(NumberError::PosOverflow);
        }
        if next < min as i128 {
            return Err(NumberError::NegOverflow);
        }
        acc = next as i64;
        i += 1;
    }
    Ok(acc)
}

/// Reads `text` as an `i32`.
pub fn parse_i32(text: &Vec<char>) -> (result: Result<i32, NumberError>)
    ensures
        match result {
            Ok(v) => parse_decimal(text@, true, i32::MIN as int, i32::MAX as int) == Ok::<
                int,
                NumberError,
            >(v as int),
            Err(e) => parse_decimal(text@, true, i32::MIN as int, i32::MAX as int) == Err::<
                int,
                NumberError,
            >(e),
        },
{
    match parse_integer(text, true, i32::MIN as i64, i32::MAX as i64) {
        Ok(v) => {
            proof {
                lemma_parse_in_range(text@, true, i32::MIN as int, i32::MAX as int);
            }
            Ok(v as i32)
        },
        Err(e) => Err(e),
    }
}

/// Reads `text` as an `i64`.
pub fn parse_i64(text: &Vec<char>) -> (result: Result<i64, NumberError>)
    ensures
        parsed_as(result, text@, true, i64::MIN as int, i64::MAX as int),
{
    parse_integer(text, true, i64::MIN, i64::MAX)
}

/// Reads `text` as a `u16`.
pub fn parse_u16(text: &Vec<char>) -> (result: Result<u16, NumberError>)
    ensures
        match result {
            Ok(v) => parse_decimal(text@, false, 0, u16::MAX as int) == Ok::<int, NumberError>(
                v as int,
            ),
            Err(e) => parse_decimal(text@, false, 0, u16::MAX as int) == Err::<int, NumberError>(
                e,
            ),
        },
{
    match parse_integer(text, false, 0, u16::MAX as i64) {
        Ok(v) => {
            proof {
                lemma_parse_in_range(text@, false, 0, u16::MAX as int);
            }
            Ok(v as u16)
        },
        Err(e) => Err(e),
    }
}

/// A number that is read lies in the range that it was read for.
pub proof fn lemma_scan_in_range(digits: Seq<char>, negative: bool, min: int, max: int, acc: int)
    requires
        min <= acc <= max,
    ensures
        scan_digits(digits, negative, min, max, acc) is Ok ==> min <= scan_digits(
            digits,
            negative,
            min,
            max,
            acc,
        )->Ok_0 <= max,
    decreases digits.len(),
{
    if digits.len() != 0 && is_digit(digits[0]) {
        let next = if negative {
            acc * 10 - digit_value(digits[0])
        } else {
            acc * 10 + digit_value(digits[0])
        };
        if min <= next <= max {
            lemma_scan_in_range(digits.skip(1), negative, min, max, next);
        }
    }
}

/// A number that is read lies in the range that it was read for.
pub proof fn lemma_parse_in_range(text: Seq<char>, signed: bool, min: int, max: int)
    requires
        min <= 0 <= max,
    ensures
        parse_decimal(text, signed, min, max) is Ok ==> min <= parse_decimal(
            text,
            signed,
            min,
            max,
        )->Ok_0 <= max,
{
    lemma_scan_in_range(text.skip(1), false, min, max, 0);
    lemma_scan_in_range(text.skip(1), true, min, max, 0);
    lemma_scan_in_range(text, false, min, max, 0);
}

} // verus!
