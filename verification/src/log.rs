//! Errors of setting up the log file and logger.

use vstd::prelude::*;

verus! {

/// An I/O error.
#[verifier::external_type_specification]
#[verifier::external_body]
pub struct ExIoError(std::io::Error);

/// The error of installing a second logger.
#[verifier::external_type_specification]
#[verifier::external_body]
pub struct ExSetLoggerError(log::SetLoggerError);

/// The error of parsing a log level.
#[verifier::external_type_specification]
#[verifier::external_body]
pub struct ExParseLevelError(log::ParseLevelError);

/// Failures of the logging set-up.
#[derive(Debug)]
pub enum Error {
    Io(std::io::Error),
    SetLog(log::SetLoggerError),
    ParseLevel(log::ParseLevelError),
}

/// Name of the log file in the data directory.
pub fn log_file_name() -> (r: &'static str)
    ensures
        r@ == "flowsurface-current.log"@,
{
    "flowsurface-current.log"
}

} // verus!
