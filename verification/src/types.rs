//! The protocol's primitive value encodings and the structured result shapes
//! that the layer above consumes.

use vstd::prelude::*;
use crate::json::JsonValue;
use crate::text::chars_eq_str;

verus! {

pub type PlayerId = i64;

pub type GroupId = i64;

pub type QueueId = i64;

pub type SourceId = i64;

pub type AlbumId = String;

pub type MediaId = String;

pub type ContainerId = String;

pub type Level = u8;

pub type Milliseconds = u64;

/// Three-valued play state, rendered `play` / `pause` / `stop` on the wire.
#[derive(Debug, Clone, Copy, PartialEq, Eq, Structural)]
pub enum PlayState {
    Play,
    Pause,
    Stop,
}

/// Two-valued flag, rendered `on` / `off` on the wire.
#[derive(Debug, Clone, Copy, PartialEq, Eq, Structural)]
pub enum OnOrOff {
    On,
    Off,
}

/// Three-valued repeat mode, rendered by its variant name on the wire.
#[derive(Debug, Clone, Copy, PartialEq, Eq, Structural)]
pub enum Repeat {
    Off,
    OnOne,
    OnAll,
}

#[derive(Debug, Clone, Copy, PartialEq, Eq, Structural)]
pub enum CommandResult {
    Success,
    Fail,
}

impl PlayState {
    pub open spec fn wire_view(self) -> Seq<char> {
        match self {
            PlayState::Play => "play"@,
            PlayState::Pause => "pause"@,
            PlayState::Stop => "stop"@,
        }
    }

    pub fn as_str(&self) -> (r: &'static str)
        ensures
            r@ == self.wire_view(),
    {
        match self {
            PlayState::Play => "play",
            PlayState::Pause => "pause",
            PlayState::Stop => "stop",
        }
    }

    pub fn from_chars(v: &Vec<char>) -> (r: Option<PlayState>)
        ensures
            r == spec_play_state(v@),
    {
        let n = v.len();
        proof {
            assert(v@.subrange(0, n as int) =~= v@);
        }
        if chars_eq_str(v, 0, n, "play") {
            Some(PlayState::Play)
        } else if chars_eq_str(v, 0, n, "pause") {
            Some(PlayState::Pause)
        } else if chars_eq_str(v, 0, n, "stop") {
            Some(PlayState::Stop)
        } else {
            None
        }
    }
}

pub open spec fn spec_play_state(s: Seq<char>) -> Option<PlayState> {
    if s == "play"@ {
        Some(PlayState::Play)
    } else if s == "pause"@ {
        Some(PlayState::Pause)
    } else if s == "stop"@ {
        Some(PlayState::Stop)
    } else {
        None
    }
}

impl OnOrOff {
    pub open spec fn wire_view(self) -> Seq<char> {
        match self {
            OnOrOff::On => "on"@,
            OnOrOff::Off => "off"@,
        }
    }

    pub fn as_str(&self) -> (r: &'static str)
        ensures
            r@ == self.wire_view(),
    {
        match self {
            OnOrOff::On => "on",
            OnOrOff::Off => "off",
        }
    }

    pub fn from_chars(v: &Vec<char>) -> (r: Option<OnOrOff>)
        ensures
            r == spec_on_or_off(v@),
    {
        let n = v.len();
        proof {
            assert(v@.subrange(0, n as int) =~= v@);
        }
        if chars_eq_str(v, 0, n, "on") {
            Some(OnOrOff::On)
        } else if chars_eq_str(v, 0, n, "off") {
            Some(OnOrOff::Off)
        } else {
            None
        }
    }

    /// Parses `on` / `off`; anything else is reported back in the error text.
    pub fn from_str(s: &str) -> (r: Result<OnOrOff, String>)
        ensures
            match spec_on_or_off(s@) {
                Some(v) => r == Ok::<OnOrOff, String>(v),
                None => r matches Err(m) && m@ == "can't convert "@ + s@ + " to OnOff"@,
            },
    {
        if crate::text::str_eq(s, "on") {
            Ok(OnOrOff::On)
        } else if crate::text::str_eq(s, "off") {
            Ok(OnOrOff::Off)
        } else {
            let mut m = String::new();
            m.append("can't convert ");
            m.append(s);
            m.append(" to OnOff");
            proof {
                assert(m@ =~= "can't convert "@ + s@ + " to OnOff"@);
            }
            Err(m)
        }
    }
}

pub open spec fn spec_on_or_off(s: Seq<char>) -> Option<OnOrOff> {
    if s == "on"@ {
        Some(OnOrOff::On)
    } else if s == "off"@ {
        Some(OnOrOff::Off)
    } else {
        None
    }
}

impl Repeat {
    pub open spec fn wire_view(self) -> Seq<char> {
        match self {
            Repeat::Off => "Off"@,
            Repeat::OnOne => "OnOne"@,
            Repeat::OnAll => "OnAll"@,
        }
    }

    pub fn as_str(&self) -> (r: &'static str)
        ensures
            r@ == self.wire_view(),
    {
        match self {
            Repeat::Off => "Off",
            Repeat::OnOne => "OnOne",
            Repeat::OnAll => "OnAll",
        }
    }

    pub fn from_chars(v: &Vec<char>) -> (r: Option<Repeat>)
        ensures
            r == spec_repeat(v@),
    {
        let n = v.len();
        proof {
            assert(v@.subrange(0, n as int) =~= v@);
        }
        if chars_eq_str(v, 0, n, "Off") {
            Some(Repeat::Off)
        } else if chars_eq_str(v, 0, n, "OnOne") {
            Some(Repeat::OnOne)
        } else if chars_eq_str(v, 0, n, "OnAll") {
            Some(Repeat::OnAll)
        } else {
            None
        }
    }
}

pub open spec fn spec_repeat(s: Seq<char>) -> Option<Repeat> {
    if s == "Off"@ {
        Some(Repeat::Off)
    } else if s == "OnOne"@ {
        Some(Repeat::OnOne)
    } else if s == "OnAll"@ {
        Some(Repeat::OnAll)
    } else {
        None
    }
}

/// Terminal success result of a previously issued command. `message` is the
/// decoded query-string body; `payload` and `options` are embedded JSON
/// sub-objects passed through unmodified.
#[derive(Debug, PartialEq)]
pub struct CommandResponse {
    pub command_name: String,
    pub message: JsonValue,
    pub payload: JsonValue,
    pub options: JsonValue,
}

#[derive(Debug, Clone, PartialEq)]
pub struct ErrorResponse {
    pub command_name: String,
    pub message: String,
}

/// Unsolicited push-style notification not tied to any in-flight command.
#[derive(Debug, PartialEq)]
pub struct EventResponse {
    pub event_name: String,
    pub message: JsonValue,
}

} // verus!
