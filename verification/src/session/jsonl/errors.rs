//! What goes wrong with a session file.

use vstd::prelude::*;

use crate::harness_types::{FileError, FileErrorCode};
use crate::session::types::{SessionError, SessionErrorCode, SessionErrorView};
use crate::text::{concat2, concat3, concat5, decimal, decimal_text};

verus! {

/// Whether a line is no JSON or says something that it must not.
#[derive(Clone, Copy, PartialEq, Eq, Structural, Debug)]
pub enum JsonlDecodeErrorKind {
    Syntax,
    Schema,
}

/// What is wrong with a line.
pub struct JsonlDecodeError {
    pub kind: JsonlDecodeErrorKind,
    pub message: String,
}

/// The mathematical value of a [`JsonlDecodeError`].
pub struct DecodeErrorView {
    pub kind: JsonlDecodeErrorKind,
    pub message: Seq<char>,
}

impl View for JsonlDecodeError {
    type V = DecodeErrorView;

    open spec fn view(&self) -> DecodeErrorView {
        DecodeErrorView { kind: self.kind, message: self.message@ }
    }
}

/// A line that says something that it must not.
pub open spec fn schema_error(message: Seq<char>) -> DecodeErrorView {
    DecodeErrorView { kind: JsonlDecodeErrorKind::Schema, message }
}

/// A line that is no JSON.
pub open spec fn syntax_error(message: Seq<char>) -> DecodeErrorView {
    DecodeErrorView { kind: JsonlDecodeErrorKind::Syntax, message }
}

impl JsonlDecodeError {
    /// A line that is no JSON.
    pub fn syntax(message: String) -> (r: Self)
        ensures
            r@ == syntax_error(message@),
    {
        JsonlDecodeError { kind: JsonlDecodeErrorKind::Syntax, message }
    }

    /// A line that says something that it must not.
    pub fn schema(message: String) -> (r: Self)
        ensures
            r@ == schema_error(message@),
    {
        JsonlDecodeError { kind: JsonlDecodeErrorKind::Schema, message }
    }

    /// What is wrong, as a text.
    pub fn display(&self) -> (r: String)
        ensures
            r@ == self@.message,
    {
        self.message.clone()
    }
}

/// The error of a session for a failed file operation.
pub open spec fn file_problem(error: FileError, message: Seq<char>) -> SessionErrorView {
    SessionErrorView {
        code: if error.code == FileErrorCode::NotFound {
            SessionErrorCode::NotFound
        } else {
            SessionErrorCode::Storage
        },
        message: message + ": "@ + error.message@,
    }
}

/// The error of a session for a failed file operation.
pub fn file_err(error: FileError, message: &str) -> (r: SessionError)
    ensures
        r@ == file_problem(error, message@),
{
    let code: SessionErrorCode = if error.code == FileErrorCode::NotFound {
        SessionErrorCode::NotFound
    } else {
        SessionErrorCode::Storage
    };
    SessionError { code, message: concat3(message, ": ", error.message.as_str()) }
}

/// The outcome of a file operation with its error turned into that of a
/// session.
pub fn file_result<T>(result: Result<T, FileError>, message: &str) -> (r: Result<T, SessionError>)
    ensures
        match result {
            Ok(value) => r == Ok::<T, SessionError>(value),
            Err(error) => r matches Err(e) && e@ == file_problem(error, message@),
        },
{
    match result {
        Ok(value) => Ok(value),
        Err(error) => Err(file_err(error, message)),
    }
}

/// The error of a session file with a bad line.
pub open spec fn bad_file(path: Seq<char>, line: nat, cause: DecodeErrorView) -> SessionErrorView {
    SessionErrorView {
        code: SessionErrorCode::InvalidEntry,
        message: "Invalid JSONL v4 session "@ + path + ": line "@ + decimal(line) + " "@
            + cause.message,
    }
}

/// The error of a session file with a bad line.
pub fn invalid_file(path: &str, line: usize, cause: &JsonlDecodeError) -> (r: SessionError)
    ensures
        r@ == bad_file(path@, line as nat, cause@),
{
    let number: String = decimal_text(line as u64);
    let place: String = concat5("Invalid JSONL v4 session ", path, ": line ", number.as_str(), " ");
    SessionError {
        code: SessionErrorCode::InvalidEntry,
        message: concat2(place.as_str(), cause.message.as_str()),
    }
}

} // verus!
