//! The numeric error-code taxonomy and the crate's failure channels.

use vstd::prelude::*;

verus! {

/// The closed set of error codes a device reports, plus a catch-all for
/// anything outside the documented range.
#[derive(Debug, Clone, Copy, PartialEq, Eq, Hash, Structural)]
pub enum HeosErrorCode {
    UnrecognizedCommand,
    InvalidId,
    WrongNumberOfArguments,
    RequestedDataNotAvailable,
    ResourceCurrentlyNotAvailable,
    InvalidCredentials,
    CommandCouldNitBeExecuted,
    UserNotLoggedIn,
    ParameterOutOfRange,
    UserNotFound,
    InternalError,
    SystemError,
    ProcessingPreviousCommand,
    MediaCantBePlayed,
    OptionNotSupported,
    Unknown,
}

/// Total mapping from a wire code to its kind; every integer outside 1..=15
/// degrades to `Unknown`, never to a failure.
pub open spec fn spec_from_code(n: int) -> HeosErrorCode {
    if n == 1 {
        HeosErrorCode::UnrecognizedCommand
    } else if n == 2 {
        HeosErrorCode::InvalidId
    } else if n == 3 {
        HeosErrorCode::WrongNumberOfArguments
    } else if n == 4 {
        HeosErrorCode::RequestedDataNotAvailable
    } else if n == 5 {
        HeosErrorCode::ResourceCurrentlyNotAvailable
    } else if n == 6 {
        HeosErrorCode::InvalidCredentials
    } else if n == 7 {
        HeosErrorCode::CommandCouldNitBeExecuted
    } else if n == 8 {
        HeosErrorCode::UserNotLoggedIn
    } else if n == 9 {
        HeosErrorCode::ParameterOutOfRange
    } else if n == 10 {
        HeosErrorCode::UserNotFound
    } else if n == 11 {
        HeosErrorCode::InternalError
    } else if n == 12 {
        HeosErrorCode::SystemError
    } else if n == 13 {
        HeosErrorCode::ProcessingPreviousCommand
    } else if n == 14 {
        HeosErrorCode::MediaCantBePlayed
    } else if n == 15 {
        HeosErrorCode::OptionNotSupported
    } else {
        HeosErrorCode::Unknown
    }
}

impl HeosErrorCode {
    /// Decodes a wire error code. Total: unmapped integers yield `Unknown`.
    pub fn from_code(n: i64) -> (r: HeosErrorCode)
        ensures
            r == spec_from_code(n as int),
    {
        if n == 1 {
            HeosErrorCode::UnrecognizedCommand
        } else if n == 2 {
            HeosErrorCode::InvalidId
        } else if n == 3 {
            HeosErrorCode::WrongNumberOfArguments
        } else if n == 4 {
            HeosErrorCode::RequestedDataNotAvailable
        } else if n == 5 {
            HeosErrorCode::ResourceCurrentlyNotAvailable
        } else if n == 6 {
            HeosErrorCode::InvalidCredentials
        } else if n == 7 {
            HeosErrorCode::CommandCouldNitBeExecuted
        } else if n == 8 {
            HeosErrorCode::UserNotLoggedIn
        } else if n == 9 {
            HeosErrorCode::ParameterOutOfRange
        } else if n == 10 {
            HeosErrorCode::UserNotFound
        } else if n == 11 {
            HeosErrorCode::InternalError
        } else if n == 12 {
            HeosErrorCode::SystemError
        } else if n == 13 {
            HeosErrorCode::ProcessingPreviousCommand
        } else if n == 14 {
            HeosErrorCode::MediaCantBePlayed
        } else if n == 15 {
            HeosErrorCode::OptionNotSupported
        } else {
            HeosErrorCode::Unknown
        }
    }
}

/// A device-reported failure: the decoded `eid` code, the free-text
/// description, and (once classified) the originating command or event name.
#[derive(Debug, Clone, PartialEq)]
pub struct ErrorMessage {
    pub eid: HeosErrorCode,
    pub text: String,
    pub context: Option<String>,
}

/// The crate's failure channel: local faults are fatal to the connection,
/// while `InvalidCommand` carries a failure the device itself reported.
#[derive(Debug, Clone, PartialEq)]
pub enum HeosError {
    UnexpectedError(String),
    IoError(String),
    NoDevicesFound,
    InvalidCommand(ErrorMessage),
}

} // verus!
