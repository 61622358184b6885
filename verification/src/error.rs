//! The error type shared by the display backends and the screen functions.
use crate::text::{concat2, concat3, is_prefix, push_str};
use vstd::prelude::*;

verus! {

/// std's I/O error, carried by `RegmsgError::IoError`; opaque here.
#[verifier::external_type_specification]
#[verifier::external_body]
pub struct ExIoError(std::io::Error);

/// std's integer parse error, converted into `RegmsgError::ParseError`; opaque
/// here.
#[verifier::external_type_specification]
#[verifier::external_body]
pub struct ExParseIntError(std::num::ParseIntError);

/// std's UTF-8 decoding error, converted into
/// `RegmsgError::ConversionError`; opaque here.
#[verifier::external_type_specification]
#[verifier::external_body]
pub struct ExFromUtf8Error(std::string::FromUtf8Error);

/// chrono's date parse error, converted into `RegmsgError::ParseError`;
/// opaque here.
#[verifier::external_type_specification]
#[verifier::external_body]
pub struct ExChronoParseError(chrono::ParseError);

/// toml's serialization error, converted into `RegmsgError::SystemError`;
/// opaque here.
#[verifier::external_type_specification]
#[verifier::external_body]
pub struct ExTomlSerError(toml::ser::Error);

/// toml's parse error, converted into `RegmsgError::SystemError`; opaque
/// here.
#[verifier::external_type_specification]
#[verifier::external_body]
pub struct ExTomlDeError(toml::de::Error);

/// All the errors of the display backends and the screen functions.
#[derive(Debug)]
pub enum RegmsgError {
    /// An error reported by one backend (Wayland, DRM, ...).
    BackendError { backend: String, message: String },
    /// The arguments of a request are not valid.
    InvalidArguments(String),
    /// A system I/O error.
    IoError(std::io::Error),
    /// Data could not be converted.
    ConversionError(String),
    /// Data could not be parsed.
    ParseError(String),
    /// A resource was not found.
    NotFound(String),
    /// Any other system error.
    SystemError(String),
}

/// The result type of the display backends and the screen functions.
pub type Result<T> = core::result::Result<T, RegmsgError>;

/// The text that an error displays, for every variant but `IoError`, whose
/// text ends with what the I/O error itself displays.
pub open spec fn error_text(e: RegmsgError) -> Seq<char> {
    match e {
        RegmsgError::BackendError { backend, message } => "Backend error "@ + backend@ + ": "@
            + message@,
        RegmsgError::InvalidArguments(m) => "Invalid arguments: "@ + m@,
        RegmsgError::IoError(_) => "I/O error: "@,
        RegmsgError::ConversionError(m) => "Conversion error: "@ + m@,
        RegmsgError::ParseError(m) => "Parse error: "@ + m@,
        RegmsgError::NotFound(m) => "Resource not found: "@ + m@,
        RegmsgError::SystemError(m) => "System error: "@ + m@,
    }
}

impl RegmsgError {
    /// The text of the error, the one it is displayed with.
    pub fn message(&self) -> (s: String)
        ensures
            !(self is IoError) ==> s@ == error_text(*self),
            self is IoError ==> is_prefix(error_text(*self), s@),
    {
        match self {
            RegmsgError::BackendError { backend, message } => {
                let mut s = concat3("Backend error ", backend.as_str(), ": ");
                push_str(&mut s, message.as_str());
                s
            },
            RegmsgError::InvalidArguments(m) => concat2("Invalid arguments: ", m.as_str()),
            RegmsgError::IoError(e) => {
                let t = e.to_string();
                let s = concat2("I/O error: ", t.as_str());
                proof {
                    assert(s@.take("I/O error: "@.len() as int) =~= "I/O error: "@);
                }
                s
            },
            RegmsgError::ConversionError(m) => concat2("Conversion error: ", m.as_str()),
            RegmsgError::ParseError(m) => concat2("Parse error: ", m.as_str()),
            RegmsgError::NotFound(m) => concat2("Resource not found: ", m.as_str()),
            RegmsgError::SystemError(m) => concat2("System error: ", m.as_str()),
        }
    }
}

/// What a clone of an error is: the same error, but an I/O error, which
/// cannot be copied, becomes the system error "I/O Error".
pub open spec fn cloned_error(e: RegmsgError, c: RegmsgError) -> bool {
    match e {
        RegmsgError::IoError(_) => c matches RegmsgError::SystemError(m) && m@ == "I/O Error"@,
        RegmsgError::BackendError { backend, message } => c matches RegmsgError::BackendError {
            backend: b2,
            message: m2,
        } && b2@ == backend@ && m2@ == message@,
        RegmsgError::InvalidArguments(m) => c matches RegmsgError::InvalidArguments(m2) && m2@
            == m@,
        RegmsgError::ConversionError(m) => c matches RegmsgError::ConversionError(m2) && m2@
            == m@,
        RegmsgError::ParseError(m) => c matches RegmsgError::ParseError(m2) && m2@ == m@,
        RegmsgError::NotFound(m) => c matches RegmsgError::NotFound(m2) && m2@ == m@,
        RegmsgError::SystemError(m) => c matches RegmsgError::SystemError(m2) && m2@ == m@,
    }
}

impl Clone for RegmsgError {
    fn clone(&self) -> (c: Self)
        ensures
            cloned_error(*self, c),
    {
        match self {
            RegmsgError::BackendError { backend, message } => RegmsgError::BackendError {
                backend: backend.clone(),
                message: message.clone(),
            },
            RegmsgError::InvalidArguments(m) => RegmsgError::InvalidArguments(m.clone()),
            RegmsgError::IoError(_) => RegmsgError::SystemError(String::from_str("I/O Error")),
            RegmsgError::ConversionError(m) => RegmsgError::ConversionError(m.clone()),
            RegmsgError::ParseError(m) => RegmsgError::ParseError(m.clone()),
            RegmsgError::NotFound(m) => RegmsgError::NotFound(m.clone()),
            RegmsgError::SystemError(m) => RegmsgError::SystemError(m.clone()),
        }
    }
}

impl From<std::io::Error> for RegmsgError {
    fn from(error: std::io::Error) -> (r: Self)
        ensures
            r == RegmsgError::IoError(error),
    {
        RegmsgError::IoError(error)
    }
}

impl vstd::std_specs::convert::FromSpecImpl<std::io::Error> for RegmsgError {
    open spec fn obeys_from_spec() -> bool {
        true
    }

    open spec fn from_spec(error: std::io::Error) -> Self {
        RegmsgError::IoError(error)
    }
}

impl From<std::num::ParseIntError> for RegmsgError {
    /// An integer parse error becomes a parse error carrying its text.
    fn from(error: std::num::ParseIntError) -> (r: Self)
        ensures
            r is ParseError,
    {
        RegmsgError::ParseError(error.to_string())
    }
}

impl From<std::string::FromUtf8Error> for RegmsgError {
    /// A UTF-8 decoding error becomes a conversion error carrying its text.
    fn from(error: std::string::FromUtf8Error) -> (r: Self)
        ensures
            r is ConversionError,
    {
        RegmsgError::ConversionError(error.to_string())
    }
}

impl From<chrono::ParseError> for RegmsgError {
    /// A date parse error becomes a parse error carrying its text.
    fn from(error: chrono::ParseError) -> (r: Self)
        ensures
            r is ParseError,
    {
        RegmsgError::ParseError(error.to_string())
    }
}

impl From<toml::ser::Error> for RegmsgError {
    /// A TOML serialization error becomes a system error carrying its text.
    fn from(error: toml::ser::Error) -> (r: Self)
        ensures
            r is SystemError,
    {
        RegmsgError::SystemError(error.to_string())
    }
}

impl From<toml::de::Error> for RegmsgError {
    /// A TOML parse error becomes a system error carrying its text.
    fn from(error: toml::de::Error) -> (r: Self)
        ensures
            r is SystemError,
    {
        RegmsgError::SystemError(error.to_string())
    }
}

impl vstd::std_specs::convert::FromSpecImpl<std::num::ParseIntError> for RegmsgError {
    /// Which text the converted error carries is not stated, only its variant.
    open spec fn obeys_from_spec() -> bool {
        false
    }

    open spec fn from_spec(error: std::num::ParseIntError) -> Self {
        vstd::pervasive::arbitrary()
    }
}

impl vstd::std_specs::convert::FromSpecImpl<std::string::FromUtf8Error> for RegmsgError {
    /// Which text the converted error carries is not stated, only its variant.
    open spec fn obeys_from_spec() -> bool {
        false
    }

    open spec fn from_spec(error: std::string::FromUtf8Error) -> Self {
        vstd::pervasive::arbitrary()
    }
}

impl vstd::std_specs::convert::FromSpecImpl<chrono::ParseError> for RegmsgError {
    /// Which text the converted error carries is not stated, only its variant.
    open spec fn obeys_from_spec() -> bool {
        false
    }

    open spec fn from_spec(error: chrono::ParseError) -> Self {
        vstd::pervasive::arbitrary()
    }
}

impl vstd::std_specs::convert::FromSpecImpl<toml::ser::Error> for RegmsgError {
    /// Which text the converted error carries is not stated, only its variant.
    open spec fn obeys_from_spec() -> bool {
        false
    }

    open spec fn from_spec(error: toml::ser::Error) -> Self {
        vstd::pervasive::arbitrary()
    }
}

impl vstd::std_specs::convert::FromSpecImpl<toml::de::Error> for RegmsgError {
    /// Which text the converted error carries is not stated, only its variant.
    open spec fn obeys_from_spec() -> bool {
        false
    }

    open spec fn from_spec(error: toml::de::Error) -> Self {
        vstd::pervasive::arbitrary()
    }
}

} // verus!
