use vstd::prelude::*;

use diesel::result::Error as DbError;
use quick_xml::Error as XmlError;
use r2d2::Error as CheckoutError;
use std::num::ParseIntError;
use std::str::Utf8Error;
use std::string::FromUtf8Error;
use tokio_diesel::AsyncError;

verus! {

#[verifier::external_type_specification]
#[verifier::external_body]
pub struct ExParseIntError(ParseIntError);

#[verifier::external_type_specification]
#[verifier::external_body]
pub struct ExFromUtf8Error(FromUtf8Error);

#[verifier::external_type_specification]
#[verifier::external_body]
pub struct ExUtf8Error(Utf8Error);

#[verifier::external_type_specification]
#[verifier::external_body]
pub struct ExXmlError(XmlError);

#[verifier::external_type_specification]
#[verifier::external_body]
pub struct ExDbError(DbError);

#[verifier::external_type_specification]
#[verifier::external_body]
pub struct ExCheckoutError(CheckoutError);

#[verifier::external_type_specification]
#[verifier::external_body]
pub struct ExAsyncError(AsyncError);

#[verifier::external_type_specification]
#[verifier::external_body]
pub struct ExParseError(strum::ParseError);

/// Failures of the library and of the stores and parsers around it.
#[derive(Debug)]
pub enum Error {
    ParseInt(ParseIntError),
    XmlError(XmlError),
    Utf8Error(FromUtf8Error),
    Utf8StrError(Utf8Error),
    /// A text named no known value.
    ParseError,
    /// The query lacks what the search needs.
    Undefined,
    DbError(DbError),
    Checkout(CheckoutError),
}

/// Relies on `tokio_diesel::AsyncError` having two variants: a failed
/// connection checkout (`Ok`) and a failed query (`Err`).
#[verifier::external_body]
fn async_error_parts(err: AsyncError) -> (r: Result<CheckoutError, DbError>) {
    match err {
        AsyncError::Checkout(co) => Ok(co),
        AsyncError::Error(e) => Err(e),
    }
}

impl From<DbError> for Error {
    fn from(err: DbError) -> (r: Self) {
        Self::DbError(err)
    }
}

impl vstd::std_specs::convert::FromSpecImpl<DbError> for Error {
    open spec fn obeys_from_spec() -> bool {
        true
    }

    open spec fn from_spec(err: DbError) -> Self {
        Error::DbError(err)
    }
}

impl From<FromUtf8Error> for Error {
    fn from(err: FromUtf8Error) -> (r: Self) {
        Self::Utf8Error(err)
    }
}

impl vstd::std_specs::convert::FromSpecImpl<FromUtf8Error> for Error {
    open spec fn obeys_from_spec() -> bool {
        true
    }

    open spec fn from_spec(err: FromUtf8Error) -> Self {
        Error::Utf8Error(err)
    }
}

impl From<strum::ParseError> for Error {
    fn from(_err: strum::ParseError) -> (r: Self) {
        Self::ParseError
    }
}

impl vstd::std_specs::convert::FromSpecImpl<strum::ParseError> for Error {
    open spec fn obeys_from_spec() -> bool {
        true
    }

    open spec fn from_spec(_err: strum::ParseError) -> Self {
        Error::ParseError
    }
}

impl From<ParseIntError> for Error {
    fn from(err: ParseIntError) -> (r: Self) {
        Self::ParseInt(err)
    }
}

impl vstd::std_specs::convert::FromSpecImpl<ParseIntError> for Error {
    open spec fn obeys_from_spec() -> bool {
        true
    }

    open spec fn from_spec(err: ParseIntError) -> Self {
        Error::ParseInt(err)
    }
}

impl From<AsyncError> for Error {
    /// A failed checkout becomes `Checkout`, a failed query `DbError`.
    fn from(err: AsyncError) -> (r: Self) {
        match async_error_parts(err) {
            Ok(co) => Self::Checkout(co),
            Err(e) => Self::DbError(e),
        }
    }
}

impl vstd::std_specs::convert::FromSpecImpl<AsyncError> for Error {
    open spec fn obeys_from_spec() -> bool {
        false
    }

    open spec fn from_spec(_err: AsyncError) -> Self {
        Error::Undefined
    }
}

impl From<Utf8Error> for Error {
    fn from(err: Utf8Error) -> (r: Self) {
        Self::Utf8StrError(err)
    }
}

impl vstd::std_specs::convert::FromSpecImpl<Utf8Error> for Error {
    open spec fn obeys_from_spec() -> bool {
        true
    }

    open spec fn from_spec(err: Utf8Error) -> Self {
        Error::Utf8StrError(err)
    }
}

impl From<XmlError> for Error {
    fn from(err: XmlError) -> (r: Self) {
        Self::XmlError(err)
    }
}

impl vstd::std_specs::convert::FromSpecImpl<XmlError> for Error {
    open spec fn obeys_from_spec() -> bool {
        true
    }

    open spec fn from_spec(err: XmlError) -> Self {
        Error::XmlError(err)
    }
}

impl Error {
    /// A short description of the error.
    pub fn describe(&self) -> (r: &'static str)
        ensures
            r@ == match *self {
                Error::ParseInt(_) => "invalid integer"@,
                Error::XmlError(_) => "malformed xml"@,
                Error::Utf8Error(_) => "invalid utf-8"@,
                Error::Utf8StrError(_) => "invalid utf-8"@,
                Error::ParseError => "unknown value"@,
                Error::Undefined => "undefined query"@,
                Error::DbError(_) => "storage failure"@,
                Error::Checkout(_) => "no storage connection"@,
            },
    {
        match self {
            Error::ParseInt(_) => "invalid integer",
            Error::XmlError(_) => "malformed xml",
            Error::Utf8Error(_) | Error::Utf8StrError(_) => "invalid utf-8",
            Error::ParseError => "unknown value",
            Error::Undefined => "undefined query",
            Error::DbError(_) => "storage failure",
            Error::Checkout(_) => "no storage connection",
        }
    }
}

} // verus!
