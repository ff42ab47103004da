//! Errors of the driver.
use std::io;

use vstd::prelude::*;
use vstd::std_specs::convert::FromSpecImpl;

verus! {

/// [`std::io::Error`], what went wrong in reading or writing.
#[verifier::external_type_specification]
#[verifier::external_body]
pub struct ExIoError(std::io::Error);

/// The driver no longer takes requests.
#[derive(Debug, Clone, Copy, PartialEq, Eq, Structural)]
pub struct DriverDown;

/// Why a request or the driver failed.
#[derive(Debug)]
pub enum Error {
    /// The driver no longer takes requests.
    DriverDown(DriverDown),
    /// Reading, writing or parsing failed.
    Io(io::Error),
}

impl From<DriverDown> for Error {
    fn from(e: DriverDown) -> (error: Error) {
        Error::DriverDown(e)
    }
}

impl FromSpecImpl<DriverDown> for Error {
    open spec fn obeys_from_spec() -> bool {
        true
    }

    open spec fn from_spec(e: DriverDown) -> Error {
        Error::DriverDown(e)
    }
}

impl From<io::Error> for Error {
    fn from(e: io::Error) -> (error: Error) {
        Error::Io(e)
    }
}

impl FromSpecImpl<io::Error> for Error {
    open spec fn obeys_from_spec() -> bool {
        true
    }

    open spec fn from_spec(e: io::Error) -> Error {
        Error::Io(e)
    }
}

} // verus!
