//! The error type shared by every codec and planner of the crate.

use vstd::prelude::*;

verus! {

/// What kind of failure an [`Error`] reports.
#[derive(Clone, Copy, Debug, PartialEq, Eq, Structural)]
pub enum ErrorKind {
    /// Stored bytes, or facts derived from them, are not well formed.
    InvalidData,
    /// A caller handed in values that cannot be encoded or planned.
    InvalidInput,
    /// Fewer bytes are present than the structure needs.
    UnexpectedEof,
    /// A size or charge does not fit the platform counter.
    OutOfMemory,
}

/// The text of an [`Error`], kept as data until it is asked for.
#[derive(Clone, Copy, Debug, PartialEq, Eq)]
pub enum Message {
    /// A fixed text.
    Text(&'static str),
    /// `series label keys are not strictly increasing at row {row}`.
    LabelOrder { row: usize },
    /// `{what} exceeds {limit}`.
    Exceeds { what: &'static str, limit: &'static str },
    /// `{what} is too large`.
    TooLarge { what: &'static str },
    /// `series cold {what} offset does not match encoded bytes`.
    WriterOffset { what: &'static str },
    /// `{what}: expected={expected} actual={actual}`.
    Mismatch { what: &'static str, expected: u64, actual: u64 },
    /// `schema-6 series ref {series_ref} requires out-of-range symbol {symbol_id}`.
    SymbolOutOfRange { series_ref: u32, symbol_id: u32 },
}

/// A failure with its kind and message.
#[derive(Clone, Copy, Debug, PartialEq, Eq)]
pub struct Error {
    pub kind: ErrorKind,
    pub message: Message,
}

/// The decimal digits of `n`, most significant first.
pub open spec fn decimal(n: nat) -> Seq<char>
    decreases n,
{
    if n < 10 {
        seq![(48 + n) as char]
    } else {
        decimal(n / 10).push((48 + n % 10) as char)
    }
}

/// The text that a message stands for.
pub open spec fn message_text(message: Message) -> Seq<char> {
    match message {
        Message::Text(text) => text@,
        Message::LabelOrder { row } => "series label keys are not strictly increasing at row "@
            + decimal(row as nat),
        Message::Exceeds { what, limit } => what@ + " exceeds "@ + limit@,
        Message::TooLarge { what } => what@ + " is too large"@,
        Message::WriterOffset { what } => "series cold "@ + what@
            + " offset does not match encoded bytes"@,
        Message::Mismatch { what, expected, actual } => what@ + ": expected="@ + decimal(
            expected as nat,
        ) + " actual="@ + decimal(actual as nat),
        Message::SymbolOutOfRange { series_ref, symbol_id } => "schema-6 series ref "@ + decimal(
            series_ref as nat,
        ) + " requires out-of-range symbol "@ + decimal(symbol_id as nat),
    }
}

/// An error of kind `InvalidData` with a fixed text.
pub open spec fn data_error(text: &'static str) -> Error {
    Error { kind: ErrorKind::InvalidData, message: Message::Text(text) }
}

/// An error of kind `InvalidInput` with a fixed text.
pub open spec fn input_error(text: &'static str) -> Error {
    Error { kind: ErrorKind::InvalidInput, message: Message::Text(text) }
}

/// An error of kind `UnexpectedEof` with a fixed text.
pub open spec fn eof_error(text: &'static str) -> Error {
    Error { kind: ErrorKind::UnexpectedEof, message: Message::Text(text) }
}

/// An error of kind `OutOfMemory` with a fixed text.
pub open spec fn memory_error(text: &'static str) -> Error {
    Error { kind: ErrorKind::OutOfMemory, message: Message::Text(text) }
}

/// A result over a vector, seen through the vector's view.
pub open spec fn vec_result<T>(result: Result<Vec<T>, Error>) -> Result<Seq<T>, Error> {
    match result {
        Ok(values) => Ok(values@),
        Err(error) => Err(error),
    }
}

pub fn invalid_data(message: &'static str) -> (error: Error)
    ensures
        error == data_error(message),
{
    Error { kind: ErrorKind::InvalidData, message: Message::Text(message) }
}

pub fn invalid_input(message: &'static str) -> (error: Error)
    ensures
        error == input_error(message),
{
    Error { kind: ErrorKind::InvalidInput, message: Message::Text(message) }
}

pub fn unexpected_eof(message: &'static str) -> (error: Error)
    ensures
        error == eof_error(message),
{
    Error { kind: ErrorKind::UnexpectedEof, message: Message::Text(message) }
}

pub fn resource_error(message: &'static str) -> (error: Error)
    ensures
        error == memory_error(message),
{
    Error { kind: ErrorKind::OutOfMemory, message: Message::Text(message) }
}

fn digit(d: u64) -> (text: &'static str)
    requires
        d < 10,
    ensures
        text@ == seq![(48 + d) as char],
{
    proof {
        reveal_strlit("0");
        reveal_strlit("1");
        reveal_strlit("2");
        reveal_strlit("3");
        reveal_strlit("4");
        reveal_strlit("5");
        reveal_strlit("6");
        reveal_strlit("7");
        reveal_strlit("8");
        reveal_strlit("9");
    }
    match d {
        0 => "0",
        1 => "1",
        2 => "2",
        3 => "3",
        4 => "4",
        5 => "5",
        6 => "6",
        7 => "7",
        8 => "8",
        _ => "9",
    }
}

fn push_decimal(text: &mut String, n: u64)
    ensures
        final(text)@ == old(text)@ + decimal(n as nat),
    decreases n,
{
    if n >= 10 {
        push_decimal(text, n / 10);
    }
    text.append(digit(n % 10));
    assert(text@ =~= old(text)@ + decimal(n as nat));
}

impl Error {
    pub fn kind(&self) -> (kind: ErrorKind)
        ensures
            kind == self.kind,
    {
        self.kind
    }

    /// The text of the error.
    pub fn to_string(&self) -> (text: String)
        ensures
            text@ == message_text(self.message),
    {
        let mut text = String::from_str("");
        proof {
            reveal_strlit("");
        }
        match self.message {
            Message::Text(fixed) => {
                text.append(fixed);
            },
            Message::LabelOrder { row } => {
                text.append("series label keys are not strictly increasing at row ");
                push_decimal(&mut text, row as u64);
            },
            Message::Exceeds { what, limit } => {
                text.append(what);
                text.append(" exceeds ");
                text.append(limit);
            },
            Message::TooLarge { what } => {
                text.append(what);
                text.append(" is too large");
            },
            Message::WriterOffset { what } => {
                text.append("series cold ");
                text.append(what);
                text.append(" offset does not match encoded bytes");
            },
            Message::Mismatch { what, expected, actual } => {
                text.append(what);
                text.append(": expected=");
                push_decimal(&mut text, expected);
                text.append(" actual=");
                push_decimal(&mut text, actual);
            },
            Message::SymbolOutOfRange { series_ref, symbol_id } => {
                text.append("schema-6 series ref ");
                push_decimal(&mut text, series_ref as u64);
                text.append(" requires out-of-range symbol ");
                push_decimal(&mut text, symbol_id as u64);
            },
        }
        assert(text@ =~= message_text(self.message));
        text
    }
}

/// The number that digits stand for, the highest first.
pub open spec fn number_of(digits: Seq<char>) -> int
    decreases digits.len(),
{
    if digits.len() == 0 {
        0
    } else {
        10 * number_of(digits.drop_last()) + (digits.last() as int - 48)
    }
}

/// A number is written in digits that stand for it, with no zero in front of another digit.
pub proof fn decimal_law(n: nat)
    ensures
        decimal(n).len() > 0,
        forall|i: int| 0 <= i < decimal(n).len() ==> '0' <= #[trigger] decimal(n)[i] <= '9',
        number_of(decimal(n)) == n,
        decimal(n)[0] == '0' ==> n == 0 && decimal(n).len() == 1,
    decreases n,
{
    if n < 10 {
        assert(decimal(n).drop_last() =~= Seq::empty());
        assert(number_of(Seq::<char>::empty()) == 0);
    } else {
        decimal_law(n / 10);
        assert(decimal(n).drop_last() =~= decimal(n / 10));
        assert(decimal(n)[0] == decimal(n / 10)[0]);
    }
}

} // verus!
