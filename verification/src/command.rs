//! Outgoing command payloads: pure string templating from typed command
//! values. The transport writes `heos://<payload>` followed by the frame
//! delimiter.

use vstd::prelude::*;
use crate::text::{i64_to_string, spec_i64_str, spec_u64_digits, u64_to_string};
use crate::types::{Level, OnOrOff, PlayState, PlayerId};

verus! {

/// The serialized body of one outgoing command, without the scheme prefix.
pub struct CommandPayload(String);

impl View for CommandPayload {
    type V = Seq<char>;

    closed spec fn view(&self) -> Seq<char> {
        self.0@
    }
}

impl CommandPayload {
    /// The full wire form, scheme prefix included.
    pub fn to_wire(&self) -> (r: String)
        ensures
            r@ == "heos://"@ + self@,
    {
        let mut s = String::new();
        s.append("heos://");
        s.append(self.0.as_str());
        proof {
            assert(s@ =~= "heos://"@ + self@);
        }
        s
    }
}

pub enum SystemCommand {
    RegisterForChangeEvents { enable: OnOrOff },
    AccountCheck,
    SignIn { un: String, pw: String },
    SignOut,
    HeartBeat,
    SpeakerReboot,
    PrettifyJson,
}

impl SystemCommand {
    pub open spec fn payload_view(&self) -> Seq<char> {
        match self {
            SystemCommand::RegisterForChangeEvents { enable } => {
                "system/register_for_change_events?enable="@ + enable.wire_view()
            },
            SystemCommand::AccountCheck => "system/account_check"@,
            SystemCommand::SignIn { un, pw } => "system/sign_in?un="@ + un@ + "&pw="@ + pw@,
            SystemCommand::SignOut => "system/sign_out"@,
            SystemCommand::HeartBeat => "system/heart_beat"@,
            SystemCommand::SpeakerReboot => "system/speaker_reboot"@,
            SystemCommand::PrettifyJson => "system/prettify_json"@,
        }
    }

    pub fn payload(&self) -> (r: CommandPayload)
        ensures
            r@ == self.payload_view(),
    {
        match self {
            SystemCommand::RegisterForChangeEvents { enable } => {
                let mut s = String::new();
                s.append("system/register_for_change_events?enable=");
                s.append(enable.as_str());
                proof {
                    assert(s@ =~= self.payload_view());
                }
                CommandPayload(s)
            },
            SystemCommand::AccountCheck => CommandPayload(String::from_str("system/account_check")),
            SystemCommand::SignIn { un, pw } => {
                let mut s = String::new();
                s.append("system/sign_in?un=");
                s.append(un.as_str());
                s.append("&pw=");
                s.append(pw.as_str());
                proof {
                    assert(s@ =~= self.payload_view());
                }
                CommandPayload(s)
            },
            SystemCommand::SignOut => CommandPayload(String::from_str("system/sign_out")),
            SystemCommand::HeartBeat => CommandPayload(String::from_str("system/heart_beat")),
            SystemCommand::SpeakerReboot => CommandPayload(
                String::from_str("system/speaker_reboot"),
            ),
            SystemCommand::PrettifyJson => CommandPayload(
                String::from_str("system/prettify_json"),
            ),
        }
    }
}

pub enum PlayerCommand {
    GetPlayers,
    GetPlayerInfo { pid: PlayerId },
    GetPlayState { pid: PlayerId },
    SetPlayState { pid: PlayerId, state: PlayState },
    GetNowPlayingMedia { pid: PlayerId },
    GetPlayerVolume { pid: PlayerId },
    SetPlayerVolume { pid: PlayerId, level: Level },
}

impl PlayerCommand {
    pub open spec fn payload_view(&self) -> Seq<char> {
        match self {
            PlayerCommand::GetPlayers => "player/get_players"@,
            PlayerCommand::GetPlayerInfo { pid } => "player/get_player?pid="@ + spec_i64_str(
                *pid,
            ),
            PlayerCommand::GetPlayState { pid } => "player/get_play_state?pid="@ + spec_i64_str(
                *pid,
            ),
            PlayerCommand::SetPlayState { pid, state } => "player/get_play_state?pid="@
                + spec_i64_str(*pid) + "&state="@ + state.wire_view(),
            PlayerCommand::GetNowPlayingMedia { pid } => "player/get_now_playing_media?pid="@
                + spec_i64_str(*pid),
            PlayerCommand::GetPlayerVolume { pid } => "player/get_volume?pid="@ + spec_i64_str(
                *pid,
            ),
            PlayerCommand::SetPlayerVolume { pid, level } => "player/set_volume?pid="@
                + spec_i64_str(*pid) + "&level="@ + spec_u64_digits(*level as u64),
        }
    }

    pub fn payload(&self) -> (r: CommandPayload)
        ensures
            r@ == self.payload_view(),
    {
        match self {
            PlayerCommand::GetPlayers => CommandPayload(String::from_str("player/get_players")),
            PlayerCommand::GetPlayerInfo { pid } => {
                let mut s = String::new();
                s.append("player/get_player?pid=");
                let d = i64_to_string(*pid);
                s.append(d.as_str());
                proof {
                    assert(s@ =~= self.payload_view());
                }
                CommandPayload(s)
            },
            PlayerCommand::GetPlayState { pid } => {
                let mut s = String::new();
                s.append("player/get_play_state?pid=");
                let d = i64_to_string(*pid);
                s.append(d.as_str());
                proof {
                    assert(s@ =~= self.payload_view());
                }
                CommandPayload(s)
            },
            PlayerCommand::SetPlayState { pid, state } => {
                let mut s = String::new();
                s.append("player/get_play_state?pid=");
                let d = i64_to_string(*pid);
                s.append(d.as_str());
                s.append("&state=");
                s.append(state.as_str());
                proof {
                    assert(s@ =~= self.payload_view());
                }
                CommandPayload(s)
            },
            PlayerCommand::GetNowPlayingMedia { pid } => {
                let mut s = String::new();
                s.append("player/get_now_playing_media?pid=");
                let d = i64_to_string(*pid);
                s.append(d.as_str());
                proof {
                    assert(s@ =~= self.payload_view());
                }
                CommandPayload(s)
            },
            PlayerCommand::GetPlayerVolume { pid } => {
                let mut s = String::new();
                s.append("player/get_volume?pid=");
                let d = i64_to_string(*pid);
                s.append(d.as_str());
                proof {
                    assert(s@ =~= self.payload_view());
                }
                CommandPayload(s)
            },
            PlayerCommand::SetPlayerVolume { pid, level } => {
                let mut s = String::new();
                s.append("player/set_volume?pid=");
                let d = i64_to_string(*pid);
                s.append(d.as_str());
                s.append("&level=");
                let l = u64_to_string(*level as u64);
                s.append(l.as_str());
                proof {
                    assert(s@ =~= self.payload_view());
                }
                CommandPayload(s)
            },
        }
    }
}

pub enum HeosCommand {
    System(SystemCommand),
    Player(PlayerCommand),
}

impl HeosCommand {
    pub open spec fn payload_view(&self) -> Seq<char> {
        match self {
            HeosCommand::System(c) => c.payload_view(),
            HeosCommand::Player(c) => c.payload_view(),
        }
    }

    pub fn payload(&self) -> (r: CommandPayload)
        ensures
            r@ == self.payload_view(),
    {
        match self {
            HeosCommand::System(c) => c.payload(),
            HeosCommand::Player(c) => c.payload(),
        }
    }
}

} // verus!
