//! Error kinds, with the numbers that stand for them on the wire.

use vstd::prelude::*;

verus! {

/// Why an operation failed. `Success` only ever appears as the verdict inside
/// a `RespInterest`; no function of this crate returns it as an error.
#[derive(Clone, Copy, Debug, PartialEq, Eq, Structural)]
pub enum ErrorCode {
    Success,
    InvalidData,
    InvalidParam,
    ErrorState,
    Timeout,
    Interrupted,
    UserCanceled,
    NotFound,
    ConnectFailed,
    Unknown,
}

impl ErrorCode {
    /// The number that stands for this kind on the wire.
    pub open spec fn code(self) -> u16 {
        match self {
            ErrorCode::Success => 0,
            ErrorCode::InvalidParam => 2,
            ErrorCode::Timeout => 3,
            ErrorCode::NotFound => 4,
            ErrorCode::ErrorState => 7,
            ErrorCode::Interrupted => 19,
            ErrorCode::InvalidData => 21,
            ErrorCode::ConnectFailed => 40,
            ErrorCode::UserCanceled => 44,
            ErrorCode::Unknown => 255,
        }
    }

    /// The kind a number stands for; a number that stands for none is `Unknown`.
    pub open spec fn of_code(c: u16) -> ErrorCode {
        if c == 0 {
            ErrorCode::Success
        } else if c == 2 {
            ErrorCode::InvalidParam
        } else if c == 3 {
            ErrorCode::Timeout
        } else if c == 4 {
            ErrorCode::NotFound
        } else if c == 7 {
            ErrorCode::ErrorState
        } else if c == 19 {
            ErrorCode::Interrupted
        } else if c == 21 {
            ErrorCode::InvalidData
        } else if c == 40 {
            ErrorCode::ConnectFailed
        } else if c == 44 {
            ErrorCode::UserCanceled
        } else {
            ErrorCode::Unknown
        }
    }

    pub fn into_u16(self) -> (c: u16)
        ensures
            c == self.code(),
    {
        match self {
            ErrorCode::Success => 0,
            ErrorCode::InvalidParam => 2,
            ErrorCode::Timeout => 3,
            ErrorCode::NotFound => 4,
            ErrorCode::ErrorState => 7,
            ErrorCode::Interrupted => 19,
            ErrorCode::InvalidData => 21,
            ErrorCode::ConnectFailed => 40,
            ErrorCode::UserCanceled => 44,
            ErrorCode::Unknown => 255,
        }
    }

    pub fn from_u16(c: u16) -> (e: ErrorCode)
        ensures
            e == Self::of_code(c),
    {
        match c {
            0 => ErrorCode::Success,
            2 => ErrorCode::InvalidParam,
            3 => ErrorCode::Timeout,
            4 => ErrorCode::NotFound,
            7 => ErrorCode::ErrorState,
            19 => ErrorCode::Interrupted,
            21 => ErrorCode::InvalidData,
            40 => ErrorCode::ConnectFailed,
            44 => ErrorCode::UserCanceled,
            _ => ErrorCode::Unknown,
        }
    }

    /// Every kind survives the trip through its number.
    pub proof fn lemma_code_round_trip(e: ErrorCode)
        ensures
            Self::of_code(e.code()) == e,
    {
    }
}

impl View for ErrorCode {
    type V = ErrorCode;

    open spec fn view(&self) -> ErrorCode {
        *self
    }
}

} // verus!
