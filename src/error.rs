//! Errors of decoding and reading an archive.
use vstd::prelude::*;

verus! {

/// Declares std's `io::Error`, the failure of a byte source, to carry it
/// through unopened.
#[verifier::external_type_specification]
#[verifier::external_body]
pub struct ExIoError(std::io::Error);

/// What went wrong while decoding a header or reading an archive.
#[derive(Debug)]
pub enum TarError {
    /// The header checksum matches neither the unsigned nor the signed sum.
    CheckSum,
    /// A text field is not valid text.
    EncodingError,
    /// The name field holds no name.
    EmptyName,
    /// A numeric field is not valid octal.
    ParseError(core::num::ParseIntError),
    /// The byte source failed.
    IOError(std::io::Error),
    /// The archive ended: a short block or an all-zero block was read.
    FileEnd,
}

/// True when two errors are of the same kind, whatever they carry.
pub open spec fn same_kind(a: &TarError, b: &TarError) -> bool {
    match (a, b) {
        (TarError::CheckSum, TarError::CheckSum) => true,
        (TarError::EncodingError, TarError::EncodingError) => true,
        (TarError::EmptyName, TarError::EmptyName) => true,
        (TarError::ParseError(_), TarError::ParseError(_)) => true,
        (TarError::IOError(_), TarError::IOError(_)) => true,
        (TarError::FileEnd, TarError::FileEnd) => true,
        _ => false,
    }
}

impl PartialEq for TarError {
    fn eq(&self, other: &Self) -> (r: bool)
        ensures
            r == same_kind(self, other),
    {
        match (self, other) {
            (TarError::CheckSum, TarError::CheckSum) => true,
            (TarError::EncodingError, TarError::EncodingError) => true,
            (TarError::EmptyName, TarError::EmptyName) => true,
            (TarError::ParseError(_), TarError::ParseError(_)) => true,
            (TarError::IOError(_), TarError::IOError(_)) => true,
            (TarError::FileEnd, TarError::FileEnd) => true,
            _ => false,
        }
    }
}

impl vstd::std_specs::cmp::PartialEqSpecImpl for TarError {
    open spec fn obeys_eq_spec() -> bool {
        true
    }

    open spec fn eq_spec(&self, other: &TarError) -> bool {
        same_kind(self, other)
    }
}

impl From<core::num::ParseIntError> for TarError {
    fn from(p: core::num::ParseIntError) -> (r: TarError)
        ensures
            r == TarError::ParseError(p),
    {
        TarError::ParseError(p)
    }
}

impl vstd::std_specs::convert::FromSpecImpl<core::num::ParseIntError> for TarError {
    open spec fn obeys_from_spec() -> bool {
        true
    }

    open spec fn from_spec(p: core::num::ParseIntError) -> TarError {
        TarError::ParseError(p)
    }
}

impl From<std::io::Error> for TarError {
    fn from(err: std::io::Error) -> (r: TarError)
        ensures
            r == TarError::IOError(err),
    {
        TarError::IOError(err)
    }
}

impl vstd::std_specs::convert::FromSpecImpl<std::io::Error> for TarError {
    open spec fn obeys_from_spec() -> bool {
        true
    }

    open spec fn from_spec(err: std::io::Error) -> TarError {
        TarError::IOError(err)
    }
}

} // verus!
