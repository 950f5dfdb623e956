//! The errors that reading a resource file can give.

use vstd::prelude::*;

verus! {

/// `std::io::Error`, the I/O error of the standard library. Nothing is known of
/// what such a value holds; it is only carried from a stream to the caller.
#[verifier::external_type_specification]
#[verifier::external_body]
pub struct ExIoError(std::io::Error);

/// `std::str::Utf8Error`, the error that `core::str::from_utf8` gives. Nothing
/// is known of what such a value holds; it is only carried to the caller.
#[verifier::external_type_specification]
#[verifier::external_body]
pub struct ExUtf8Error(std::str::Utf8Error);

/// A type that represents errors arising from this crate.
#[derive(Debug)]
pub enum Error {
    /// An I/O error.
    IO(std::io::Error),
    /// A UTF-8 interpretation error.
    Utf8(std::str::Utf8Error),
    /// A resource file began with an invalid or unrecognised signature.
    BadSignature,
    /// A specified resource could not be retrieved.
    ResourceNotFound,
    /// A resource is stored in a form that this crate cannot unpack.
    Unsupported,
}

/// The category of an [`Error`], without the value it carries.
#[derive(Clone, Copy, Debug, PartialEq, Eq, Structural)]
pub enum ErrorKind {
    /// An I/O error.
    IO,
    /// A UTF-8 interpretation error.
    Utf8,
    /// An invalid or unrecognised signature.
    BadSignature,
    /// A resource that the directory does not list.
    ResourceNotFound,
    /// A compressed or compound resource.
    Unsupported,
}

impl Error {
    /// The category of this error.
    pub open spec fn spec_kind(&self) -> ErrorKind {
        match self {
            Error::IO(_) => ErrorKind::IO,
            Error::Utf8(_) => ErrorKind::Utf8,
            Error::BadSignature => ErrorKind::BadSignature,
            Error::ResourceNotFound => ErrorKind::ResourceNotFound,
            Error::Unsupported => ErrorKind::Unsupported,
        }
    }

    /// Returns the category of this error.
    #[verifier::when_used_as_spec(spec_kind)]
    pub fn kind(&self) -> (kind: ErrorKind)
        ensures
            kind == self.spec_kind(),
    {
        match self {
            Error::IO(_) => ErrorKind::IO,
            Error::Utf8(_) => ErrorKind::Utf8,
            Error::BadSignature => ErrorKind::BadSignature,
            Error::ResourceNotFound => ErrorKind::ResourceNotFound,
            Error::Unsupported => ErrorKind::Unsupported,
        }
    }
}

/// Whether `result` is what `expected` describes: the value whose model is
/// given, or an error of the given kind.
pub open spec fn agrees<T: View>(result: Result<T, Error>, expected: Result<T::V, ErrorKind>) -> bool {
    match (result, expected) {
        (Ok(value), Ok(model)) => value@ == model,
        (Err(error), Err(kind)) => error.spec_kind() == kind,
        _ => false,
    }
}

/// Whether `result` is what opening a stream may give where a reliable stream
/// gives `expected`: that, or an I/O error where the stream is not reliable.
pub open spec fn opens_as<T: View>(
    result: Result<T, Error>,
    expected: Result<T::V, ErrorKind>,
    reliable: bool,
) -> bool {
    agrees(result, expected) || (!reliable && result is Err && result->Err_0.spec_kind()
        == ErrorKind::IO)
}

/// Whether `result` is what reading a resource may give where a reliable
/// stream gives `expected`: that, or an I/O error in place of the resource
/// where the stream is not reliable.
pub open spec fn reads_as<T: View>(
    result: Result<T, Error>,
    expected: Result<T::V, ErrorKind>,
    reliable: bool,
) -> bool {
    agrees(result, expected) || (!reliable && expected is Ok && result is Err
        && result->Err_0.spec_kind() == ErrorKind::IO)
}

} // verus!
