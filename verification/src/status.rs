//! Status codes of the native runtime.

use vstd::prelude::*;
use crate::error::MunaError;
use crate::text::{push_signed_decimal, push_str_chars, signed_decimal, string_from_chars};

verus! {

/// Status codes.
#[derive(Debug, Clone, Copy, PartialEq, Eq, Structural)]
pub enum FXNStatus {
    Success,
    ErrorInvalidArgument,
    ErrorInvalidOperation,
    ErrorNotImplemented,
}

/// Value creation flags.
#[derive(Debug, Clone, Copy, PartialEq, Eq, Structural)]
pub enum ValueFlags {
    NoFlags,
    CopyData,
}

/// The numeric code of a status.
pub open spec fn status_code(status: FXNStatus) -> int {
    match status {
        FXNStatus::Success => 0,
        FXNStatus::ErrorInvalidArgument => 1,
        FXNStatus::ErrorInvalidOperation => 2,
        FXNStatus::ErrorNotImplemented => 3,
    }
}

/// The numeric code of a value creation flag.
pub open spec fn flag_code(flag: ValueFlags) -> int {
    match flag {
        ValueFlags::NoFlags => 0,
        ValueFlags::CopyData => 1,
    }
}

/// The description of a status.
pub open spec fn status_text(status: FXNStatus) -> Seq<char> {
    match status {
        FXNStatus::Success => ""@,
        FXNStatus::ErrorInvalidArgument => "invalid argument"@,
        FXNStatus::ErrorInvalidOperation => "invalid operation"@,
        FXNStatus::ErrorNotImplemented => "not implemented"@,
    }
}

impl FXNStatus {
    /// Whether the status reports success.
    pub fn is_ok(self) -> (r: bool)
        ensures
            r == (self == FXNStatus::Success),
    {
        self == Self::Success
    }

    /// The description of the status (empty for success).
    pub fn message(self) -> (r: &'static str)
        ensures
            r@ == status_text(self),
    {
        match self {
            Self::Success => "",
            Self::ErrorInvalidArgument => "invalid argument",
            Self::ErrorInvalidOperation => "invalid operation",
            Self::ErrorNotImplemented => "not implemented",
        }
    }

    /// The numeric code of the status.
    pub fn code(self) -> (r: i32)
        ensures
            r == status_code(self),
    {
        match self {
            Self::Success => 0,
            Self::ErrorInvalidArgument => 1,
            Self::ErrorInvalidOperation => 2,
            Self::ErrorNotImplemented => 3,
        }
    }
}

impl ValueFlags {
    /// The numeric code of the flag.
    pub fn code(self) -> (r: i32)
        ensures
            r == flag_code(self),
    {
        match self {
            Self::NoFlags => 0,
            Self::CopyData => 1,
        }
    }
}

/// The error that a native call with status code `status` reports, in
/// the context `context`; `None` for success.
pub open spec fn status_error_text(status: int, context: Seq<char>) -> Option<Seq<char>> {
    if status == 0 {
        None
    } else if status == 1 {
        Some(context + ": "@ + status_text(FXNStatus::ErrorInvalidArgument))
    } else if status == 2 {
        Some(context + ": "@ + status_text(FXNStatus::ErrorInvalidOperation))
    } else if status == 3 {
        Some(context + ": "@ + status_text(FXNStatus::ErrorNotImplemented))
    } else {
        Some(context + ": unknown status "@ + signed_decimal(status))
    }
}

/// `Ok` for a successful native status; otherwise a native error whose
/// message names the context and the status.
pub fn check_status(status: i32, context: &str) -> (r: Result<(), MunaError>)
    ensures
        match status_error_text(status as int, context@) {
            None => r is Ok,
            Some(text) => r matches Err(MunaError::Native(message)) && message@ == text,
        },
{
    let code = match status {
        0 => return Ok(()),
        1 => FXNStatus::ErrorInvalidArgument,
        2 => FXNStatus::ErrorInvalidOperation,
        3 => FXNStatus::ErrorNotImplemented,
        _ => {
            let mut out: Vec<char> = Vec::new();
            push_str_chars(&mut out, context);
            push_str_chars(&mut out, ": unknown status ");
            push_signed_decimal(&mut out, status as i64);
            return Err(MunaError::Native(string_from_chars(out.as_slice())));
        },
    };
    let mut out: Vec<char> = Vec::new();
    push_str_chars(&mut out, context);
    push_str_chars(&mut out, ": ");
    push_str_chars(&mut out, code.message());
    Err(MunaError::Native(string_from_chars(out.as_slice())))
}

} // verus!
