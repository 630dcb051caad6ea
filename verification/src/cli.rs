//! The values of command-line options.

use std::num::IntErrorKind;
use std::str::FromStr;
use vstd::prelude::*;

verus! {

/// Why a text is no number.
#[derive(Clone, Copy, Debug, PartialEq, Eq, Structural)]
pub enum NumberError {
    /// The text is empty.
    Empty,
    /// The text holds what is no digit.
    InvalidDigit,
    /// The number is too large.
    PosOverflow,
    /// The number is too small.
    NegOverflow,
    /// Any other reason.
    Other,
}

/// Why the value of an option is refused.
#[derive(Clone, Copy, Debug, PartialEq, Eq, Structural)]
pub enum CliError {
    /// An environment variable is not of the form `NAME=VAL`.
    EnvVarForm,
    /// A file descriptor is not a number.
    FdNotANumber(NumberError),
    /// A file descriptor is one of the standard streams, or negative.
    FdReserved,
}

impl CliError {
    /// The error in words.
    pub fn message(&self) -> (text: &'static str)
        ensures
            text@ == match self {
                CliError::EnvVarForm => "must be of the form `NAME=VAL`"@,
                CliError::FdNotANumber(NumberError::Empty) => "cannot parse integer from empty string"@,
                CliError::FdNotANumber(NumberError::InvalidDigit) => "invalid digit found in string"@,
                CliError::FdNotANumber(NumberError::PosOverflow) => "number too large to fit in target type"@,
                CliError::FdNotANumber(NumberError::NegOverflow) => "number too small to fit in target type"@,
                CliError::FdNotANumber(NumberError::Other) => "cannot parse integer"@,
                CliError::FdReserved => "FD must be >= 3"@,
            },
    {
        match self {
            CliError::EnvVarForm => "must be of the form `NAME=VAL`",
            CliError::FdNotANumber(NumberError::Empty) => "cannot parse integer from empty string",
            CliError::FdNotANumber(NumberError::InvalidDigit) => "invalid digit found in string",
            CliError::FdNotANumber(NumberError::PosOverflow) => {
                "number too large to fit in target type"
            },
            CliError::FdNotANumber(NumberError::NegOverflow) => {
                "number too small to fit in target type"
            },
            CliError::FdNotANumber(NumberError::Other) => "cannot parse integer",
            CliError::FdReserved => "FD must be >= 3",
        }
    }
}

/// The first index at or after `from` that holds an equals sign.
pub open spec fn first_equals(s: Seq<char>, from: int) -> Option<int>
    decreases s.len() - from,
{
    if from < 0 || from >= s.len() {
        None
    } else if s[from] == '=' {
        Some(from)
    } else {
        first_equals(s, from + 1)
    }
}

/// A variable's name and value: what stands before the first equals sign
/// and what stands after it.
pub open spec fn env_var_spec(s: Seq<char>) -> Option<(Seq<char>, Seq<char>)> {
    match first_equals(s, 0) {
        Some(i) => Some((s.subrange(0, i), s.subrange(i + 1, s.len() as int))),
        None => None,
    }
}

/// Splits `NAME=VAL` at its first equals sign.
pub fn parse_env_var(s: &str) -> (r: Result<(String, String), CliError>)
    ensures
        match env_var_spec(s@) {
            Some((name, value)) => r matches Ok(pair) && pair.0@ == name && pair.1@ == value,
            None => r == Err::<(String, String), CliError>(CliError::EnvVarForm),
        },
{
    let n = s.unicode_len();
    let mut i: usize = 0;
    while i < n
        invariant
            i <= n == s@.len(),
            first_equals(s@, 0) == first_equals(s@, i as int),
        decreases n - i,
    {
        if s.get_char(i) == '=' {
            let name = s.substring_char(0, i).to_owned();
            let value = s.substring_char(i + 1, n).to_owned();
            return Ok((name, value));
        }
        i += 1;
    }
    Err(CliError::EnvVarForm)
}

/// The number that `i32::from_str` reads from a text, or why it reads
/// none.
pub uninterp spec fn i32_from_str(s: Seq<char>) -> Result<i32, NumberError>;

/// Reads a number by `i32::from_str`. Trusted: the result is what that
/// function reads, or the kind of its error.
#[verifier::external_body]
fn read_i32(s: &str) -> (r: Result<i32, NumberError>)
    ensures
        r == i32_from_str(s@),
{
    i32::from_str(s).map_err(|e| match e.kind() {
        IntErrorKind::Empty => NumberError::Empty,
        IntErrorKind::InvalidDigit => NumberError::InvalidDigit,
        IntErrorKind::PosOverflow => NumberError::PosOverflow,
        IntErrorKind::NegOverflow => NumberError::NegOverflow,
        _ => NumberError::Other,
    })
}

/// The descriptor that a module may be read from: a number that was
/// read, and that is none of the standard streams.
pub open spec fn module_fd_spec(read: Result<i32, NumberError>) -> Result<i32, CliError> {
    match read {
        Ok(fd) => if fd <= 2 {
            Err(CliError::FdReserved)
        } else {
            Ok(fd)
        },
        Err(e) => Err(CliError::FdNotANumber(e)),
    }
}

/// Accepts what was read of a descriptor: see [`module_fd_spec`].
pub fn module_fd(read: Result<i32, NumberError>) -> (r: Result<i32, CliError>)
    ensures
        r == module_fd_spec(read),
{
    match read {
        Ok(fd) => if fd <= 2 {
            Err(CliError::FdReserved)
        } else {
            Ok(fd)
        },
        Err(e) => Err(CliError::FdNotANumber(e)),
    }
}

/// Reads the descriptor that a module is to be loaded from.
pub fn parse_module_fd(s: &str) -> (r: Result<i32, CliError>)
    ensures
        r == module_fd_spec(i32_from_str(s@)),
{
    module_fd(read_i32(s))
}

} // verus!
