//! Error kinds, exit codes and the version constants carried by every
//! protocol payload.

use vstd::prelude::*;

use crate::search::{contains_sub, contains_sub_exec};

verus! {

/// Schema version of the JSON contract that this library implements.
pub const SCHEMA_VERSION: u32 = 1;

/// Version string of this tool, embedded in every response payload.
pub fn tool_version() -> (v: &'static str)
    ensures
        v@ == "0.1.0"@,
{
    "0.1.0"
}

/// Name of the game whose save format this library parses.
pub fn game_name() -> (g: &'static str)
    ensures
        g@ == "stellaris"@,
{
    "stellaris"
}

/// Error categories; each maps to a fixed process exit code.
pub enum ErrorKind {
    FileNotFound,
    ParseError,
    InvalidArgument,
}

impl ErrorKind {
    /// Exit code of this error kind.
    pub open spec fn spec_exit_code(&self) -> i32 {
        match self {
            ErrorKind::FileNotFound => 1,
            ErrorKind::ParseError => 2,
            ErrorKind::InvalidArgument => 3,
        }
    }

    /// Wire name of this error kind.
    pub open spec fn spec_error_type(&self) -> Seq<char> {
        match self {
            ErrorKind::FileNotFound => "FileNotFound"@,
            ErrorKind::ParseError => "ParseError"@,
            ErrorKind::InvalidArgument => "InvalidArgument"@,
        }
    }

    pub fn exit_code(&self) -> (code: i32)
        ensures
            code == self.spec_exit_code(),
    {
        match self {
            ErrorKind::FileNotFound => 1,
            ErrorKind::ParseError => 2,
            ErrorKind::InvalidArgument => 3,
        }
    }

    pub fn error_type(&self) -> (name: &'static str)
        ensures
            name@ == self.spec_error_type(),
    {
        match self {
            ErrorKind::FileNotFound => "FileNotFound",
            ErrorKind::ParseError => "ParseError",
            ErrorKind::InvalidArgument => "InvalidArgument",
        }
    }
}

/// Kind of a failure, judged from its message: messages that speak of a
/// file that could not be found or opened are file-not-found failures,
/// everything else is treated as a parse failure.
pub open spec fn spec_handle_error(msg: Seq<char>) -> ErrorKind {
    if contains_sub(
        vstd::utf8::encode_utf8(msg),
        vstd::utf8::encode_utf8("No such file or directory"@),
    ) || contains_sub(
        vstd::utf8::encode_utf8(msg),
        vstd::utf8::encode_utf8("Failed to open file"@),
    ) || contains_sub(
        vstd::utf8::encode_utf8(msg),
        vstd::utf8::encode_utf8("cannot find the file"@),
    ) || contains_sub(
        vstd::utf8::encode_utf8(msg),
        vstd::utf8::encode_utf8("The system cannot find"@),
    ) {
        ErrorKind::FileNotFound
    } else {
        ErrorKind::ParseError
    }
}

/// Classify a failure by its message text.
pub fn handle_error(message: &str) -> (k: ErrorKind)
    ensures
        k == spec_handle_error(message@),
{
    let mb = message.as_bytes_vec();
    let p1 = "No such file or directory".as_bytes_vec();
    let p2 = "Failed to open file".as_bytes_vec();
    let p3 = "cannot find the file".as_bytes_vec();
    let p4 = "The system cannot find".as_bytes_vec();
    if contains_sub_exec(&mb, &p1) || contains_sub_exec(&mb, &p2) || contains_sub_exec(&mb, &p3)
        || contains_sub_exec(&mb, &p4) {
        ErrorKind::FileNotFound
    } else {
        ErrorKind::ParseError
    }
}

} // verus!
