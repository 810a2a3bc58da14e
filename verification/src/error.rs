//! Error surface of the coordination layer.
//!
//! Synchronous failures are `Validation` (bad prepare request) and `NotFound`
//! (unknown or already-claimed stream key, with the fixed message
//! `"Stream {key} is not found"` and the stable wire code 28). Asynchronous
//! execution failures are `Execution`, delivered by closing a stage's streams
//! in an error state.

use vstd::prelude::*;
use vstd::string::StringExecFns;
use crate::keys::{render_spec, StreamKey};

verus! {

/// Stable wire code for an unknown or already-claimed stream key.
pub const NOT_FOUND_STREAM_CODE: u64 = 28;

/// Stable wire code for a rejected prepare request.
pub const VALIDATION_CODE: u64 = 27;

/// Stable wire code for a plan or scatter evaluation failure during streaming.
pub const EXECUTION_CODE: u64 = 26;

#[derive(Clone, Copy, PartialEq, Eq, Structural, Debug)]
pub enum ErrorKind {
    Validation,
    NotFound,
    Execution,
}

/// The numeric wire code of each error kind.
pub open spec fn code_spec(kind: ErrorKind) -> u64 {
    match kind {
        ErrorKind::Validation => VALIDATION_CODE,
        ErrorKind::NotFound => NOT_FOUND_STREAM_CODE,
        ErrorKind::Execution => EXECUTION_CODE,
    }
}

/// The fixed message template of a failed stream lookup.
pub open spec fn not_found_message(rendered_key: Seq<char>) -> Seq<char> {
    "Stream "@ + rendered_key + " is not found"@
}

#[derive(Debug)]
pub struct Error {
    pub kind: ErrorKind,
    pub message: String,
}

impl Clone for Error {
    fn clone(&self) -> (e: Error)
        ensures
            e == *self,
    {
        Error { kind: self.kind, message: self.message.clone() }
    }
}

impl Error {
    pub fn validation(message: String) -> (e: Error)
        ensures
            e.kind == ErrorKind::Validation,
            e.message == message,
    {
        Error { kind: ErrorKind::Validation, message }
    }

    pub fn execution(message: String) -> (e: Error)
        ensures
            e.kind == ErrorKind::Execution,
            e.message == message,
    {
        Error { kind: ErrorKind::Execution, message }
    }

    /// The error returned for an unregistered or already-claimed stream key.
    pub fn not_found_stream(key: &StreamKey) -> (e: Error)
        ensures
            e.kind == ErrorKind::NotFound,
            e.message@ == not_found_message(render_spec(key@)),
    {
        let mut message = String::from_str("Stream ");
        let rendered = key.render();
        message.append(rendered.as_str());
        message.append(" is not found");
        Error { kind: ErrorKind::NotFound, message }
    }

    pub fn code(&self) -> (c: u64)
        ensures
            c == code_spec(self.kind),
    {
        match self.kind {
            ErrorKind::Validation => VALIDATION_CODE,
            ErrorKind::NotFound => NOT_FOUND_STREAM_CODE,
            ErrorKind::Execution => EXECUTION_CODE,
        }
    }

    pub fn message(&self) -> (m: &str)
        ensures
            m@ == self.message@,
    {
        self.message.as_str()
    }
}

} // verus!
