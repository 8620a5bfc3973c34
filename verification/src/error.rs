//! The error type returned by provider registration and event writing.

use vstd::prelude::*;
use vstd::string::StringExecFns;

verus! {

/// The Win32 `ERROR_INVALID_DATA` code.
pub const ERROR_INVALID_DATA: u32 = 13;

/// The Win32 `ERROR_ARITHMETIC_OVERFLOW` code.
pub const ERROR_ARITHMETIC_OVERFLOW: u32 = 534;

/// An error reported while registering a provider or writing an event.
///
/// Every variant maps to a Win32 error code through [`Error::win32_code`], so an error can
/// still be reported through interfaces that expect one.
#[derive(Clone, Copy, Debug, PartialEq, Eq, Hash, Structural)]
#[non_exhaustive]
pub enum Error {
    /// A derived length does not fit in the integer type of the field that carries it.
    LengthOverflow,
    /// An encoded value's length does not match the length declared by another field.
    LengthMismatch,
    /// Array elements sharing a single length field have differing lengths.
    MismatchedArrayLengths,
    /// A string field is missing its NUL terminator.
    MissingNulTerminator,
    /// A fixed-length string field has no room for a NUL terminator.
    EmptyFixedLengthString,
    /// A Windows API call failed with this Win32 error code.
    Windows(u32),
}

/// The Win32 code that corresponds to an error.
pub open spec fn spec_win32_code(e: Error) -> u32 {
    match e {
        Error::LengthOverflow => ERROR_ARITHMETIC_OVERFLOW,
        Error::Windows(code) => code,
        _ => ERROR_INVALID_DATA,
    }
}

/// The message text of an input-validation error.
pub open spec fn validation_message(e: Error) -> Seq<char> {
    match e {
        Error::LengthOverflow => "length does not fit in the declared length type"@,
        Error::LengthMismatch => "value length does not match the declared length field"@,
        Error::MismatchedArrayLengths => "array elements sharing a length field have differing lengths"@,
        Error::MissingNulTerminator => "string is not NUL terminated"@,
        Error::EmptyFixedLengthString => "fixed-length string has no room for a NUL terminator"@,
        Error::Windows(_) => Seq::empty(),
    }
}

#[verifier::external_type_specification]
#[verifier::external_body]
pub struct ExIoError(std::io::Error);

/// Calls `std::io::Error::from_raw_os_error`, the I/O error for an OS error code. Verus sees
/// an `io::Error` as opaque, so nothing is stated of the result.
#[verifier::external_body]
fn io_error_from_code(code: u32) -> std::io::Error {
    std::io::Error::from_raw_os_error(code as i32)
}

/// Calls `ToString::to_string` on an I/O error, which gives the operating system's message for
/// an OS error. That message depends on the machine and its language, so nothing is stated of
/// it.
#[verifier::external_body]
fn io_error_text(e: &std::io::Error) -> String {
    e.to_string()
}

impl Error {
    /// Returns the Win32 error code that corresponds to this error.
    ///
    /// [`Error::LengthOverflow`] maps to `ERROR_ARITHMETIC_OVERFLOW`; the other input
    /// validation failures map to `ERROR_INVALID_DATA`.
    pub fn win32_code(&self) -> (code: u32)
        ensures
            code == spec_win32_code(*self),
    {
        match self {
            Error::LengthOverflow => ERROR_ARITHMETIC_OVERFLOW,
            Error::LengthMismatch
            | Error::MismatchedArrayLengths
            | Error::MissingNulTerminator
            | Error::EmptyFixedLengthString => ERROR_INVALID_DATA,
            Error::Windows(code) => *code,
        }
    }

    /// The error's message: a fixed description for an input-validation error, and the
    /// operating system's message for a Windows error code.
    pub fn message(&self) -> (m: String)
        ensures
            !(*self is Windows) ==> m@ == validation_message(*self),
    {
        match self {
            Error::LengthOverflow => String::from_str("length does not fit in the declared length type"),
            Error::LengthMismatch => String::from_str("value length does not match the declared length field"),
            Error::MismatchedArrayLengths => String::from_str(
                "array elements sharing a length field have differing lengths",
            ),
            Error::MissingNulTerminator => String::from_str("string is not NUL terminated"),
            Error::EmptyFixedLengthString => String::from_str(
                "fixed-length string has no room for a NUL terminator",
            ),
            Error::Windows(code) => io_error_text(&io_error_from_code(*code)),
        }
    }
}

impl From<Error> for std::io::Error {
    /// The OS error whose code is the error's Win32 code.
    fn from(error: Error) -> std::io::Error {
        io_error_from_code(error.win32_code())
    }
}

impl vstd::std_specs::convert::FromSpecImpl<Error> for std::io::Error {
    /// An `io::Error` is opaque here, so no result is described.
    open spec fn obeys_from_spec() -> bool {
        false
    }

    open spec fn from_spec(v: Error) -> std::io::Error {
        arbitrary()
    }
}

/// Converts a Win32 status code returned by an ETW API into a result: zero is success, any
/// other code is [`Error::Windows`] carrying it.
pub fn win32_result(code: u32) -> (res: Result<(), Error>)
    ensures
        code == 0 ==> res == Ok::<(), Error>(()),
        code != 0 ==> res == Err::<(), Error>(Error::Windows(code)),
{
    if code == 0 {
        Ok(())
    } else {
        Err(Error::Windows(code))
    }
}

/// A Windows status error maps back to its own code.
pub proof fn law_windows_error_keeps_its_code(status: u32)
    ensures
        spec_win32_code(Error::Windows(status)) == status,
{
}

} // verus!
