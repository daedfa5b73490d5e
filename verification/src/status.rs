//! Status classes: from the status code's text to one of `1xx` .. `5xx`.

use vstd::prelude::*;
use vstd::string::*;

verus! {

/// Why a text is not a decimal `u16`.
#[derive(Clone, Copy, Debug, PartialEq, Eq, Structural)]
pub enum IntFailure {
    /// The text is empty.
    Empty,
    /// A character is not a decimal digit, or a sign stands alone.
    InvalidDigit,
    /// The number is larger than 65535.
    TooLarge,
}

/// Whether a character is one of the digits `0` to `9`.
pub open spec fn is_digit(c: char) -> bool {
    '0' <= c && c <= '9'
}

/// The value of a digit.
pub open spec fn digit_value(c: char) -> nat {
    (c as nat - '0' as nat) as nat
}

/// The value of a text of decimal digits, most significant first.
pub open spec fn decimal_value(digits: Seq<char>) -> nat
    decreases digits.len(),
{
    if digits.len() == 0 {
        0
    } else {
        decimal_value(digits.drop_last()) * 10 + digit_value(digits.last())
    }
}

/// Whether a text holds digits only.
pub open spec fn all_digits(digits: Seq<char>) -> bool {
    forall|i: int| 0 <= i < digits.len() ==> is_digit(#[trigger] digits[i])
}

/// Reads `digits` from the left, starting from the value `acc` of what was
/// read before. The first character that is no digit, or that takes the
/// value over 65535, ends the reading with its failure.
pub open spec fn scan_digits(digits: Seq<char>, acc: nat) -> Result<nat, IntFailure>
    decreases digits.len(),
{
    if digits.len() == 0 {
        Ok(acc)
    } else if !is_digit(digits[0]) {
        Err(IntFailure::InvalidDigit)
    } else if acc * 10 + digit_value(digits[0]) > 65535 {
        Err(IntFailure::TooLarge)
    } else {
        scan_digits(digits.drop_first(), acc * 10 + digit_value(digits[0]))
    }
}

/// What a text means as a `u16`: an optional `+`, then at least one decimal
/// digit, nothing else, and a value of at most 65535.
pub open spec fn parse_u16_spec(text: Seq<char>) -> Result<nat, IntFailure> {
    if text.len() == 0 {
        Err(IntFailure::Empty)
    } else if text.len() == 1 && (text[0] == '+' || text[0] == '-') {
        Err(IntFailure::InvalidDigit)
    } else if text[0] == '+' {
        scan_digits(text.drop_first(), 0)
    } else {
        scan_digits(text, 0)
    }
}

/// The digits of a text: the text without the `+` that may stand before
/// them.
pub open spec fn unsigned_digits(text: Seq<char>) -> Seq<char> {
    if text.len() > 0 && text[0] == '+' {
        text.drop_first()
    } else {
        text
    }
}

/// Digits appended never make a value smaller.
pub proof fn lemma_decimal_value_grows(prefix: Seq<char>, digits: Seq<char>)
    ensures
        decimal_value(prefix + digits) >= decimal_value(prefix),
    decreases digits.len(),
{
    if digits.len() == 0 {
        assert(prefix + digits =~= prefix);
    } else {
        assert((prefix + digits).drop_last() =~= prefix + digits.drop_last());
        lemma_decimal_value_grows(prefix, digits.drop_last());
    }
}

/// Reading on from the value of `prefix` gives the value of the whole, if
/// all that follows is digits and the whole is at most 65535, and fails
/// otherwise.
pub proof fn lemma_scan_digits_value(prefix: Seq<char>, digits: Seq<char>)
    requires
        decimal_value(prefix) <= 65535,
    ensures
        match scan_digits(digits, decimal_value(prefix)) {
            Ok(value) => all_digits(digits) && value == decimal_value(prefix + digits) && value
                <= 65535,
            Err(_) => !all_digits(digits) || decimal_value(prefix + digits) > 65535,
        },
    decreases digits.len(),
{
    if digits.len() == 0 {
        assert(prefix + digits =~= prefix);
    } else {
        let first = digits[0];
        let rest = digits.drop_first();
        let longer = prefix.push(first);
        assert(longer.drop_last() =~= prefix);
        assert(longer.last() == first);
        assert(longer + rest =~= prefix + digits);
        if !is_digit(first) {
        } else if decimal_value(prefix) * 10 + digit_value(first) > 65535 {
            lemma_decimal_value_grows(longer, rest);
        } else {
            lemma_scan_digits_value(longer, rest);
            if all_digits(rest) {
                assert forall|i: int| 0 <= i < digits.len() implies is_digit(
                    #[trigger] digits[i],
                ) by {
                    if i > 0 {
                        assert(digits[i] == rest[i - 1]);
                    }
                }
            } else {
                let k = choose|k: int| 0 <= k < rest.len() && !is_digit(#[trigger] rest[k]);
                assert(digits[k + 1] == rest[k]);
            }
        }
    }
}

/// A text is a `u16` exactly if, after the `+` that may stand first, it is
/// one or more decimal digits whose value is at most 65535; the number read
/// is that value.
pub proof fn lemma_parse_u16_value(text: Seq<char>)
    ensures
        parse_u16_spec(text) is Ok <==> unsigned_digits(text).len() > 0 && all_digits(
            unsigned_digits(text),
        ) && decimal_value(unsigned_digits(text)) <= 65535,
        parse_u16_spec(text) matches Ok(value) ==> value == decimal_value(unsigned_digits(text)),
{
    let digits = unsigned_digits(text);
    let none = Seq::<char>::empty();
    assert(decimal_value(none) == 0);
    assert(none + digits =~= digits);
    if text.len() == 0 {
    } else if text.len() == 1 && (text[0] == '+' || text[0] == '-') {
        if text[0] == '-' {
            assert(!is_digit(digits[0]));
        }
    } else {
        lemma_scan_digits_value(none, digits);
    }
}

/// The class of a status code: its hundreds digit, for codes from 100 to 599.
pub open spec fn status_class(code: nat) -> Option<nat> {
    if 100 <= code && code <= 599 {
        Some(code / 100)
    } else {
        None
    }
}

/// The label of a class.
pub open spec fn class_label(class: nat) -> Seq<char> {
    if class == 1 {
        "1xx"@
    } else if class == 2 {
        "2xx"@
    } else if class == 3 {
        "3xx"@
    } else if class == 4 {
        "4xx"@
    } else {
        "5xx"@
    }
}

/// The words for a failure.
pub open spec fn failure_text(failure: IntFailure) -> Seq<char> {
    match failure {
        IntFailure::Empty => "cannot parse integer from empty string"@,
        IntFailure::InvalidDigit => "invalid digit found in string"@,
        IntFailure::TooLarge => "number too large to fit in target type"@,
    }
}

/// The label of a status code's text, or the message that says why it has
/// none.
pub open spec fn status_label_spec(text: Seq<char>) -> Result<Seq<char>, Seq<char>> {
    match parse_u16_spec(text) {
        Err(failure) => Err("Failed to parse status_code. Error: "@ + failure_text(failure)),
        Ok(code) => match status_class(code) {
            Some(class) => Ok(class_label(class)),
            None => Err("Unknown status code"@),
        },
    }
}

/// The view of a result of `get_status_label`.
pub open spec fn label_result_view(result: Result<&'static str, String>) -> Result<
    Seq<char>,
    Seq<char>,
> {
    match result {
        Ok(label) => Ok(label@),
        Err(message) => Err(message@),
    }
}

fn digit_of(c: char) -> (d: Option<u16>)
    ensures
        d is Some <==> is_digit(c),
        d matches Some(v) ==> v == digit_value(c) && v <= 9,
{
    if '0' <= c && c <= '9' {
        Some((c as u32 - '0' as u32) as u16)
    } else {
        None
    }
}

/// Reads a `u16` from its decimal text.
pub fn parse_u16(text: &str) -> (parsed: Result<u16, IntFailure>)
    ensures
        match parsed {
            Ok(code) => parse_u16_spec(text@) == Ok::<nat, IntFailure>(code as nat),
            Err(failure) => parse_u16_spec(text@) == Err::<nat, IntFailure>(failure),
        },
{
    let n = text.unicode_len();
    if n == 0 {
        return Err(IntFailure::Empty);
    }
    let first = text.get_char(0);
    if n == 1 && (first == '+' || first == '-') {
        return Err(IntFailure::InvalidDigit);
    }
    let start: usize = if first == '+' { 1 } else { 0 };
    let ghost body = text@.skip(start as int);
    assert(start == 1 ==> body =~= text@.drop_first());
    assert(start == 0 ==> body =~= text@);
    assert(parse_u16_spec(text@) == scan_digits(body, 0));
    let mut acc: u16 = 0;
    let mut i: usize = start;
    while i < n
        invariant
            start <= i <= n,
            n == text@.len(),
            parse_u16_spec(text@) == scan_digits(body, 0),
            scan_digits(body, 0) == scan_digits(text@.skip(i as int), acc as nat),
        decreases n - i,
    {
        let c = text.get_char(i);
        let ghost rest = text@.skip(i as int);
        assert(rest[0] == c);
        assert(rest.drop_first() =~= text@.skip(i + 1));
        match digit_of(c) {
            None => {
                return Err(IntFailure::InvalidDigit);
            },
            Some(d) => {
                if acc > 6553 || (acc == 6553 && d > 5) {
                    return Err(IntFailure::TooLarge);
                }
                acc = acc * 10 + d;
            },
        }
        i = i + 1;
    }
    assert(text@.skip(n as int).len() == 0);
    Ok(acc)
}

/// Derives the status class label from the text of a status code.
///
/// The text is read as a `u16`; codes from 100 to 599 give `"1xx"` to
/// `"5xx"` by their hundreds digit. Any other text is an error, and the
/// message says which.
pub fn get_status_label(status_code: String) -> (result: Result<&'static str, String>)
    ensures
        label_result_view(result) == status_label_spec(status_code@),
{
    match parse_u16(status_code.as_str()) {
        Err(failure) => {
            let reason = match failure {
                IntFailure::Empty => "cannot parse integer from empty string",
                IntFailure::InvalidDigit => "invalid digit found in string",
                IntFailure::TooLarge => "number too large to fit in target type",
            };
            let mut message = String::from_str("Failed to parse status_code. Error: ");
            message.append(reason);
            Err(message)
        },
        Ok(status) => {
            if 100 <= status && status <= 199 {
                Ok("1xx")
            } else if 200 <= status && status <= 299 {
                Ok("2xx")
            } else if 300 <= status && status <= 399 {
                Ok("3xx")
            } else if 400 <= status && status <= 499 {
                Ok("4xx")
            } else if 500 <= status && status <= 599 {
                Ok("5xx")
            } else {
                Err(String::from_str("Unknown status code"))
            }
        },
    }
}

} // verus!
