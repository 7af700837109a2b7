//! The ways in which the library fails, and the text an error carries.

use vstd::prelude::*;
use vstd::string::StringExecFns;

verus! {

/// Why a run of digits is not a machine word.
#[derive(Clone, Copy, Debug, PartialEq, Eq)]
pub enum IntErrorKind {
    /// The digits stand for a number above `usize::MAX`.
    PosOverflow,
}

/// A failure, as it reaches the caller: the first one met, unchanged.
#[derive(Clone, Debug, PartialEq, Eq)]
pub enum Error {
    /// A system call failed: its name and the host's error code.
    IoError(&'static str, i32),
    /// The listing did not have the expected shape: the offending text, or a
    /// fixed message.
    InvalidFormat(String),
    /// An address could not be read as a machine word.
    ParseIntError(IntErrorKind),
}

/// What an [`Error`] says, with its texts as sequences of characters.
pub ghost enum Failure {
    Io(Seq<char>, int),
    Format(Seq<char>),
    ParseInt(IntErrorKind),
}

impl View for Error {
    type V = Failure;

    open spec fn view(&self) -> Failure {
        match self {
            Error::IoError(name, code) => Failure::Io(name@, *code as int),
            Error::InvalidFormat(text) => Failure::Format(text@),
            Error::ParseIntError(kind) => Failure::ParseInt(*kind),
        }
    }
}

/// A result with its error seen as a [`Failure`].
pub open spec fn result_view<T>(r: Result<T, Error>) -> Result<T, Failure> {
    match r {
        Ok(value) => Ok(value),
        Err(e) => Err(e@),
    }
}

/// Message of the failure to read a hexadecimal digit.
pub const INVALID_HEX: &'static str = "Invalid hexadecimal number";

/// Message of the failure to find a range with at least one byte in it.
pub const EMPTY_RANGE: &'static str = "Address range is empty or inverted";

/// Message of the failure to find both mappings.
pub const NOT_FOUND: &'static str = "Could not find vdso or vvar mappings";

/// The bytes of a line as text, each byte as the character of the same code.
pub open spec fn as_text(bytes: Seq<u8>) -> Seq<char> {
    bytes.map_values(|b: u8| b as char)
}

/// `String::push`: the character is appended and nothing else changes.
#[verifier::external_body]
fn push_char(text: &mut String, c: char)
    ensures
        final(text)@ == old(text)@.push(c),
{
    text.push(c)
}

/// The text that an error carries for a line: [`as_text`] of its bytes.
pub fn text_of(bytes: &[u8]) -> (text: String)
    ensures
        text@ == as_text(bytes@),
{
    let mut text = String::new();
    let mut i: usize = 0;
    while i < bytes.len()
        invariant
            i <= bytes.len(),
            text@ == as_text(bytes@.take(i as int)),
        decreases bytes.len() - i,
    {
        push_char(&mut text, bytes[i] as char);
        assert(bytes@.take(i + 1) == bytes@.take(i as int).push(bytes@[i as int]));
        i += 1;
    }
    assert(bytes@.take(i as int) == bytes@);
    text
}

/// The character that stands for a digit below ten.
pub open spec fn digit_char(digit: nat) -> char {
    ((0x30 + digit) as u8) as char
}

/// A number in decimal digits, without leading zeros.
pub open spec fn decimal_digits(n: nat) -> Seq<char>
    decreases n,
{
    if n < 10 {
        seq![digit_char(n)]
    } else {
        decimal_digits(n / 10).push(digit_char(n % 10))
    }
}

/// A number in decimal digits, with a minus sign before a negative one.
pub open spec fn decimal(n: int) -> Seq<char> {
    if n < 0 {
        seq!['-'] + decimal_digits((-n) as nat)
    } else {
        decimal_digits(n as nat)
    }
}

impl IntErrorKind {
    /// What went wrong, in words.
    pub open spec fn description_text(self) -> Seq<char> {
        match self {
            IntErrorKind::PosOverflow => "number too large to fit in target type"@,
        }
    }

    /// What went wrong, in words.
    pub fn description(&self) -> (text: &'static str)
        ensures
            text@ == self.description_text(),
    {
        match self {
            IntErrorKind::PosOverflow => "number too large to fit in target type",
        }
    }
}

impl Failure {
    /// The failure in one line of text: its kind, a colon and what it
    /// carries.
    pub open spec fn message(self) -> Seq<char> {
        match self {
            Failure::Io(name, code) => "IoError: "@ + name + " "@ + decimal(code),
            Failure::Format(text) => "InvalidFormat: "@ + text,
            Failure::ParseInt(kind) => "ParseIntError: "@ + kind.description_text(),
        }
    }
}

/// Appends `n` in decimal digits.
fn push_digits(text: &mut String, n: u64)
    ensures
        final(text)@ == old(text)@ + decimal_digits(n as nat),
    decreases n,
{
    if n >= 10 {
        push_digits(text, n / 10);
    }
    push_char(text, ((0x30 + n % 10) as u8) as char);
}

/// Appends `n` in decimal digits, with its sign.
fn push_decimal(text: &mut String, n: i32)
    ensures
        final(text)@ == old(text)@ + decimal(n as int),
{
    let wide: i64 = n as i64;
    if wide < 0 {
        push_char(text, '-');
        push_digits(text, (-wide) as u64);
    } else {
        push_digits(text, wide as u64);
    }
}

impl From<IntErrorKind> for Error {
    fn from(kind: IntErrorKind) -> (e: Error) {
        Error::ParseIntError(kind)
    }
}

impl vstd::std_specs::convert::FromSpecImpl<IntErrorKind> for Error {
    open spec fn obeys_from_spec() -> bool {
        true
    }

    open spec fn from_spec(kind: IntErrorKind) -> Error {
        Error::ParseIntError(kind)
    }
}

impl Error {
    /// A second error that says the same: what `clone` gives, and stated.
    pub fn duplicate(&self) -> (e: Error)
        ensures
            e == *self,
    {
        match self {
            Error::IoError(name, code) => Error::IoError(*name, *code),
            Error::InvalidFormat(text) => Error::InvalidFormat(text.clone()),
            Error::ParseIntError(kind) => Error::ParseIntError(*kind),
        }
    }

    /// The error in one line of text.
    pub fn message(&self) -> (text: String)
        ensures
            text@ == self@.message(),
    {
        match self {
            Error::IoError(name, code) => {
                let mut text = "IoError: ".to_string();
                text.append(name);
                text.append(" ");
                push_decimal(&mut text, *code);
                text
            },
            Error::InvalidFormat(body) => {
                let mut text = "InvalidFormat: ".to_string();
                text.append(body.as_str());
                text
            },
            Error::ParseIntError(kind) => {
                let mut text = "ParseIntError: ".to_string();
                text.append(kind.description());
                text
            },
        }
    }

    /// A format failure with a fixed message.
    pub fn format(message: &'static str) -> (e: Error)
        ensures
            e@ == Failure::Format(message@),
    {
        Error::InvalidFormat(message.to_string())
    }

    /// A format failure that names a line of the listing.
    pub fn malformed(line: &[u8]) -> (e: Error)
        ensures
            e@ == Failure::Format(as_text(line@)),
    {
        Error::InvalidFormat(text_of(line))
    }
}

} // verus!
