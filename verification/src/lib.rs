//! Client-side protocol engine for a line-delimited, JSON-framed,
//! query-string-encoded control protocol spoken by networked audio devices.
//!
//! The crate owns the wire format: splitting the byte stream into frames,
//! classifying each frame as a command reply, an event or an error, and
//! normalising the ad-hoc query-string message bodies into structured values.
//! Transport I/O lives outside this crate; the types here consume and produce
//! plain values.

pub mod command;
pub mod connection;
pub mod error;
pub mod frame;
pub mod json;
pub mod response_line;
pub mod text;
pub mod types;

pub use command::{CommandPayload, HeosCommand, PlayerCommand, SystemCommand};
pub use connection::Reassembler;
pub use error::{ErrorMessage, HeosError, HeosErrorCode};
pub use frame::{Frame, HeosHeader, HeosReponse, HeosResultState, Incomplete, ResponseName};
pub use json::{remove_null, JsonValue};
pub use response_line::{qs_to_json, qs_to_params, params_to_json, params_to_qs, EventQueryParams};
pub use types::{
    CommandResponse, CommandResult, ErrorResponse, EventResponse, OnOrOff, PlayState, Repeat,
};

use vstd::prelude::*;

verus! {

pub type HeosResult<T> = Result<T, crate::error::HeosError>;

} // verus!
