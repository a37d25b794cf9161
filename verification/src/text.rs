//! How buffers and errors are shown as text.

use crate::buffer::Bufferfish;
use crate::error::{BufferfishError, IoFailure};
use vstd::prelude::*;
use vstd::string::{StrSliceExecFns, StringExecFns};

verus! {

/// The character of a decimal digit.
pub open spec fn digit_char(digit: nat) -> char {
    if digit == 0 {
        '0'
    } else if digit == 1 {
        '1'
    } else if digit == 2 {
        '2'
    } else if digit == 3 {
        '3'
    } else if digit == 4 {
        '4'
    } else if digit == 5 {
        '5'
    } else if digit == 6 {
        '6'
    } else if digit == 7 {
        '7'
    } else if digit == 8 {
        '8'
    } else {
        '9'
    }
}

/// A number in decimal digits, without leading zeros.
pub open spec fn decimal_text(n: nat) -> Seq<char>
    decreases n,
{
    if n < 10 {
        seq![digit_char(n)]
    } else {
        decimal_text(n / 10).push(digit_char(n % 10))
    }
}

/// `count` spaces.
pub open spec fn spaces(count: nat) -> Seq<char> {
    Seq::new(count, |i: int| ' ')
}

/// A text set flush right in a field of `width` characters: spaces are put
/// before it to make up the width, none if the text is as long or longer.
pub open spec fn padded(text: Seq<char>, width: nat) -> Seq<char> {
    if text.len() < width {
        spaces((width - text.len()) as nat) + text
    } else {
        text
    }
}

/// The width in columns at which a terminal shows a text.
pub uninterp spec fn display_width_of(text: Seq<char>) -> nat;

/// `unicode_width::UnicodeWidthStr::width`: the displayed width of a string
/// in columns.
#[verifier::external_body]
fn display_width(text: &str) -> (width: usize)
    ensures
        width == display_width_of(text@),
{
    unicode_width::UnicodeWidthStr::width(text)
}

/// The bytes of a buffer in a row: each in decimal, with a space before and
/// after it.
pub open spec fn byte_row(bytes: Seq<u8>) -> Seq<char>
    decreases bytes.len(),
{
    if bytes.len() == 0 {
        Seq::empty()
    } else {
        byte_row(bytes.drop_last()) + seq![' '] + decimal_text(bytes.last() as nat) + seq![' ']
    }
}

/// The indexes of the first `count` bytes of a buffer in a row: each in
/// decimal, set flush right in a field as wide as its byte is shown, with a
/// space before and after it.
pub open spec fn index_row(bytes: Seq<u8>, count: nat) -> Seq<char>
    decreases count,
{
    if count == 0 {
        Seq::empty()
    } else {
        let i = (count - 1) as nat;
        index_row(bytes, i) + seq![' '] + padded(
            decimal_text(i),
            display_width_of(decimal_text(bytes[i as int] as nat)),
        ) + seq![' ']
    }
}

/// A buffer as two lines of text: its bytes, and under each byte its index.
pub open spec fn display_text(bytes: Seq<u8>) -> Seq<char> {
    " Byte: "@ + byte_row(bytes) + "\nIndex: "@ + index_row(bytes, bytes.len())
}

/// The text of a decimal digit.
fn digit_text(digit: u8) -> (text: &'static str)
    requires
        digit < 10,
    ensures
        text@ == seq![digit_char(digit as nat)],
{
    proof {
        reveal_strlit("0");
        reveal_strlit("1");
        reveal_strlit("2");
        reveal_strlit("3");
        reveal_strlit("4");
        reveal_strlit("5");
        reveal_strlit("6");
        reveal_strlit("7");
        reveal_strlit("8");
        reveal_strlit("9");
    }
    let text = if digit == 0 {
        "0"
    } else if digit == 1 {
        "1"
    } else if digit == 2 {
        "2"
    } else if digit == 3 {
        "3"
    } else if digit == 4 {
        "4"
    } else if digit == 5 {
        "5"
    } else if digit == 6 {
        "6"
    } else if digit == 7 {
        "7"
    } else if digit == 8 {
        "8"
    } else {
        "9"
    };
    assert(text@ =~= seq![digit_char(digit as nat)]);
    text
}

/// The digits of a number that are left to say, from the most significant:
/// none if the number is 0.
spec fn leading_digits(rest: nat) -> Seq<char> {
    if rest == 0 {
        Seq::empty()
    } else {
        decimal_text(rest)
    }
}

/// The characters of some digits, last digit first.
spec fn backwards(digits: Seq<u8>) -> Seq<char> {
    Seq::new(digits.len(), |i: int| digit_char(digits[digits.len() - 1 - i] as nat))
}

/// A number in decimal digits.
pub fn decimal(n: usize) -> (text: String)
    ensures
        text@ == decimal_text(n as nat),
{
    decimal_u64(n as u64)
}

/// A 64-bit number in decimal digits.
pub fn decimal_u64(n: u64) -> (text: String)
    ensures
        text@ == decimal_text(n as nat),
{
    let mut digits: Vec<u8> = Vec::new();
    digits.push((n % 10) as u8);
    let mut rest: u64 = n / 10;
    proof {
        assert(decimal_text(n as nat) =~= leading_digits(rest as nat) + backwards(digits@));
    }
    while rest > 0
        invariant
            decimal_text(n as nat) == leading_digits(rest as nat) + backwards(digits@),
            forall|i: int| 0 <= i < digits@.len() ==> digits@[i] < 10,
        decreases rest,
    {
        let ghost before = digits@;
        digits.push((rest % 10) as u8);
        proof {
            assert(backwards(digits@) =~= seq![digit_char((rest % 10) as nat)] + backwards(
                before,
            ));
            assert(leading_digits(rest as nat) =~= leading_digits((rest / 10) as nat) + seq![
                digit_char((rest % 10) as nat),
            ]);
            assert(decimal_text(n as nat) =~= leading_digits((rest / 10) as nat) + backwards(
                digits@,
            ));
        }
        rest = rest / 10;
    }
    let mut text = String::new();
    let mut left: usize = digits.len();
    while left > 0
        invariant
            left <= digits@.len(),
            forall|i: int| 0 <= i < digits@.len() ==> digits@[i] < 10,
            text@ == backwards(digits@).subrange(0, digits@.len() - left),
        decreases left,
    {
        let ghost before = text@;
        text.append(digit_text(digits[left - 1]));
        proof {
            assert(text@ =~= backwards(digits@).subrange(0, digits@.len() - left + 1));
        }
        left = left - 1;
    }
    proof {
        assert(backwards(digits@).subrange(0, digits@.len() as int) =~= backwards(digits@));
        assert(decimal_text(n as nat) =~= backwards(digits@));
    }
    text
}

/// Sets a text flush right in a field of `width` characters.
pub fn pad_left(text: &str, width: usize) -> (out: String)
    ensures
        out@ == padded(text@, width as nat),
{
    proof {
        reveal_strlit(" ");
    }
    let len = text.unicode_len();
    let mut out = String::new();
    if len < width {
        let mut put: usize = 0;
        while put < width - len
            invariant
                len < width,
                put <= width - len,
                out@ == spaces(put as nat),
                " "@ == seq![' '],
            decreases width - len - put,
        {
            out.append(" ");
            proof {
                assert(out@ =~= spaces((put + 1) as nat));
            }
            put = put + 1;
        }
    }
    out.append(text);
    proof {
        assert(out@ =~= padded(text@, width as nat));
    }
    out
}

impl Bufferfish {
    /// Shows the buffer as two lines of text: its bytes in decimal, and
    /// under each byte its index, set flush right under the byte.
    pub fn to_string(&self) -> (text: String)
        ensures
            text@ == display_text(self@.bytes),
    {
        proof {
            reveal_strlit(" ");
        }
        let bytes = self.as_bytes();
        let mut text = String::from_str(" Byte: ");
        let mut at: usize = 0;
        while at < bytes.len()
            invariant
                at <= bytes@.len(),
                " "@ == seq![' '],
                text@ == " Byte: "@ + byte_row(bytes@.subrange(0, at as int)),
            decreases bytes@.len() - at,
        {
            let shown = decimal(bytes[at] as usize);
            text.append(" ");
            text.append(shown.as_str());
            text.append(" ");
            proof {
                let next = bytes@.subrange(0, at + 1);
                assert(next.drop_last() =~= bytes@.subrange(0, at as int));
                assert(text@ =~= " Byte: "@ + byte_row(next));
            }
            at = at + 1;
        }
        proof {
            assert(bytes@.subrange(0, at as int) =~= bytes@);
        }
        text.append("\nIndex: ");
        let mut at: usize = 0;
        while at < bytes.len()
            invariant
                at <= bytes@.len(),
                " "@ == seq![' '],
                text@ == " Byte: "@ + byte_row(bytes@) + "\nIndex: "@ + index_row(
                    bytes@,
                    at as nat,
                ),
            decreases bytes@.len() - at,
        {
            let shown = decimal(bytes[at] as usize);
            let width = display_width(shown.as_str());
            let index = pad_left(decimal(at).as_str(), width);
            text.append(" ");
            text.append(index.as_str());
            text.append(" ");
            proof {
                assert(text@ =~= " Byte: "@ + byte_row(bytes@) + "\nIndex: "@ + index_row(
                    bytes@,
                    (at + 1) as nat,
                ));
            }
            at = at + 1;
        }
        text
    }
}

/// What a failed byte-level operation says of itself.
pub open spec fn failure_text(failure: IoFailure) -> Seq<char> {
    match failure {
        IoFailure::CapacityExceeded { attempted, max_capacity } => "write of "@ + decimal_text(
            attempted as nat,
        ) + " bytes exceeds the max capacity of "@ + decimal_text(max_capacity as nat)
            + " bytes on this Bufferfish"@,
        IoFailure::PeekOutOfBounds { requested, max_capacity } => "peek of "@ + decimal_text(
            requested as nat,
        ) + " bytes exceeds the max capacity of "@ + decimal_text(max_capacity as nat)
            + " bytes on this Bufferfish"@,
        IoFailure::UnexpectedEof => "failed to fill whole buffer"@,
        IoFailure::InvalidUtf8 => "invalid utf-8 sequence"@,
        IoFailure::TooManyBools => "Cannot pack more than 8 booleans into a single byte."@,
        IoFailure::StringTooLong => "String length exceeds u16 max value"@,
    }
}

/// What an error says of itself.
pub open spec fn error_text(error: BufferfishError) -> Seq<char> {
    match error {
        BufferfishError::FailedWrite(failure) => "failed to write to buffer: "@ + failure_text(
            failure,
        ),
        BufferfishError::InvalidMessageId => "invalid message id"@,
        BufferfishError::InvalidEnumVariant => "invalid enum variant"@,
        BufferfishError::InsufficientBytes { available, required } =>
            "insufficient bytes in buffer: available "@ + decimal_text(available as nat)
                + ", required "@ + decimal_text(required as nat),
        BufferfishError::ExcessiveBytes { available, max_allowed } =>
            "excessive bytes in buffer: available "@ + decimal_text(available as nat)
                + ", maximum allowed "@ + decimal_text(max_allowed as nat),
    }
}

/// A text with a number in the middle and one at its end.
fn two_numbers(first: &str, a: usize, second: &str, b: usize, third: &str) -> (text: String)
    ensures
        text@ == first@ + decimal_text(a as nat) + second@ + decimal_text(b as nat) + third@,
{
    let mut text = String::from_str(first);
    text.append(decimal(a).as_str());
    text.append(second);
    text.append(decimal(b).as_str());
    text.append(third);
    text
}

impl IoFailure {
    /// Says in words why the operation failed.
    pub fn to_string(&self) -> (text: String)
        ensures
            text@ == failure_text(*self),
    {
        match self {
            IoFailure::CapacityExceeded { attempted, max_capacity } => two_numbers(
                "write of ",
                *attempted,
                " bytes exceeds the max capacity of ",
                *max_capacity,
                " bytes on this Bufferfish",
            ),
            IoFailure::PeekOutOfBounds { requested, max_capacity } => two_numbers(
                "peek of ",
                *requested,
                " bytes exceeds the max capacity of ",
                *max_capacity,
                " bytes on this Bufferfish",
            ),
            IoFailure::UnexpectedEof => String::from_str("failed to fill whole buffer"),
            IoFailure::InvalidUtf8 => String::from_str("invalid utf-8 sequence"),
            IoFailure::TooManyBools => String::from_str(
                "Cannot pack more than 8 booleans into a single byte.",
            ),
            IoFailure::StringTooLong => String::from_str("String length exceeds u16 max value"),
        }
    }
}

impl BufferfishError {
    /// Says in words what went wrong.
    pub fn to_string(&self) -> (text: String)
        ensures
            text@ == error_text(*self),
    {
        proof {
            reveal_strlit("");
        }
        match self {
            BufferfishError::FailedWrite(failure) => {
                let mut text = String::from_str("failed to write to buffer: ");
                text.append(failure.to_string().as_str());
                text
            },
            BufferfishError::InvalidMessageId => String::from_str("invalid message id"),
            BufferfishError::InvalidEnumVariant => String::from_str("invalid enum variant"),
            BufferfishError::InsufficientBytes { available, required } => {
                let text = two_numbers(
                    "insufficient bytes in buffer: available ",
                    *available,
                    ", required ",
                    *required,
                    "",
                );
                assert(text@ =~= error_text(*self));
                text
            },
            BufferfishError::ExcessiveBytes { available, max_allowed } => {
                let text = two_numbers(
                    "excessive bytes in buffer: available ",
                    *available,
                    ", maximum allowed ",
                    *max_allowed,
                    "",
                );
                assert(text@ =~= error_text(*self));
                text
            },
        }
    }
}

} // verus!
