use vstd::prelude::*;

verus! {

/// The error that the `serialport` crate reports when a port cannot be
/// opened or configured; carried through unchanged.
#[verifier::external_type_specification]
#[verifier::external_body]
pub struct ExSerialError(serialport::Error);

/// An I/O error of the standard library; carried through unchanged.
#[verifier::external_type_specification]
#[verifier::external_body]
pub struct ExIoError(std::io::Error);

/// Custom error type for all OBD-II operations.
///
/// All fallible functions in this library return `Result<T, ObdError>`.
#[derive(Debug)]
pub enum ObdError {
    /// Wraps errors from the `serialport` crate (open failures, I/O errors, etc.)
    Serial(serialport::Error),
    /// An I/O error occurred while reading from or writing to the serial port.
    Io(std::io::Error),
    /// The adapter returned no data within the configured timeout.
    Timeout,
    /// The adapter returned a response that could not be parsed.
    Parse(String),
    /// The adapter returned an error token (e.g. "NO DATA", "ERROR", "UNABLE TO CONNECT").
    AdapterError(String),
    /// The OBD response did not contain enough bytes for the requested PID.
    InsufficientData { expected: usize, got: usize },
    /// The ELM327 initialisation sequence failed.
    InitFailed(String),
}

} // verus!
