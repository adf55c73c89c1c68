//! # obd2_reader
//!
//! A library for talking to ELM327-compatible OBD-II adapters: building the
//! command strings, collecting and cleaning the adapter's replies, parsing
//! their hex bytes and decoding PID values.
//!
//! | Module | Purpose |
//! |--------|---------|
//! | [`command`]    | [`ObdCommand`] struct and well-known PID commands |
//! | [`connection`] | The decisions of a session: reply collection, initialisation, PID range scan |
//! | [`response`]   | Hex response parsing ([`response::parse_hex_bytes`]) |
//! | [`pid`]        | PID decoding functions |
//! | [`error`]      | [`ObdError`] custom error enum |
//! | [`text`]       | Character helpers: whitespace, trimming, words, upper case |
use vstd::prelude::*;

pub mod command;
pub mod connection;
pub mod error;
pub mod pid;
pub mod response;
pub mod text;

/// The OBD command builder struct.
pub use command::ObdCommand;

/// The crate-wide error type.
pub use error::ObdError;

verus! {

} // verus!
