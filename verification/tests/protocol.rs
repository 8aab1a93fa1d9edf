use heos_daemon_rust::{
    qs_to_json, qs_to_params, params_to_json, params_to_qs, remove_null, CommandPayload,
    CommandResponse, ErrorMessage, EventQueryParams, EventResponse, Frame, HeosError,
    HeosErrorCode, JsonValue, OnOrOff, PlayState, PlayerCommand, Reassembler, Repeat,
    SystemCommand,
};

fn txt(s: &str) -> JsonValue {
    JsonValue::Text(s.to_string())
}

fn obj(entries: Vec<(&str, JsonValue)>) -> JsonValue {
    JsonValue::Object(entries.into_iter().map(|(k, v)| (k.to_string(), v)).collect())
}

fn envelope(command: &str, result: Option<&str>, message: Option<&str>) -> JsonValue {
    let mut heos: Vec<(&str, JsonValue)> = vec![("command", txt(command))];
    if let Some(r) = result {
        heos.push(("result", txt(r)));
    }
    if let Some(m) = message {
        heos.push(("message", txt(m)));
    }
    obj(vec![("heos", obj(heos))])
}

#[test]
fn success_reply_with_empty_message() {
    let json = envelope("player/get_players", Some("success"), Some(""));
    let f = heos_daemon_rust::frame::parse_response(json).unwrap();
    assert_eq!(
        f,
        Frame::Response(CommandResponse {
            command_name: "player/get_players".to_string(),
            message: JsonValue::Null,
            payload: JsonValue::Null,
            options: JsonValue::Null,
        })
    );
}

#[test]
fn event_with_structured_message() {
    let json = envelope("event/player_state_changed", None, Some("pid=123&state=play"));
    let f = heos_daemon_rust::frame::parse_response(json).unwrap();
    assert_eq!(
        f,
        Frame::Event(EventResponse {
            event_name: "event/player_state_changed".to_string(),
            message: obj(vec![("pid", JsonValue::Int(123)), ("state", txt("play"))]),
        })
    );
}

#[test]
fn failed_reply_becomes_error_frame() {
    let json = envelope("player/get_play_state", Some("fail"), Some("eid=2&text=Invalid ID"));
    let f = heos_daemon_rust::frame::parse_response(json).unwrap();
    assert_eq!(
        f,
        Frame::Error(ErrorMessage {
            eid: HeosErrorCode::InvalidId,
            text: "Invalid ID".to_string(),
            context: Some("player/get_play_state".to_string()),
        })
    );
}

#[test]
fn command_under_process_acknowledgement() {
    let json = envelope("player/get_players", None, Some("command under process"));
    let f = heos_daemon_rust::frame::parse_response(json).unwrap();
    assert_eq!(f, Frame::UnderProcess("player/get_players".to_string()));
}

#[test]
fn failure_wins_over_event_prefix() {
    let json = envelope("event/oddity", Some("fail"), Some("eid=3&text=boom"));
    let f = heos_daemon_rust::frame::parse_response(json).unwrap();
    assert_eq!(
        f,
        Frame::Error(ErrorMessage {
            eid: HeosErrorCode::WrongNumberOfArguments,
            text: "boom".to_string(),
            context: Some("event/oddity".to_string()),
        })
    );
}

#[test]
fn payload_and_options_pass_through() {
    let json = obj(vec![
        ("heos", obj(vec![("command", txt("player/get_players")), ("result", txt("success"))])),
        ("payload", JsonValue::List(vec![JsonValue::Int(1), JsonValue::Bool(true)])),
        ("options", obj(vec![("k", txt("v"))])),
    ]);
    let f = heos_daemon_rust::frame::parse_response(json).unwrap();
    assert_eq!(
        f,
        Frame::Response(CommandResponse {
            command_name: "player/get_players".to_string(),
            message: JsonValue::Null,
            payload: JsonValue::List(vec![JsonValue::Int(1), JsonValue::Bool(true)]),
            options: obj(vec![("k", txt("v"))]),
        })
    );
}

#[test]
fn missing_command_is_hard_failure() {
    let json = obj(vec![("heos", obj(vec![("result", txt("success"))]))]);
    assert!(heos_daemon_rust::frame::parse_response(json).is_err());
}

#[test]
fn unknown_result_string_is_hard_failure() {
    let json = envelope("player/get_players", Some("maybe"), None);
    assert!(heos_daemon_rust::frame::parse_response(json).is_err());
}

#[test]
fn undecodable_error_body_is_hard_failure() {
    let json = envelope("player/get_players", Some("fail"), Some("text only, no eid"));
    assert!(heos_daemon_rust::frame::parse_response(json).is_err());
}

#[test]
fn error_body_without_text_is_hard_failure() {
    let json = envelope("player/get_players", Some("fail"), Some("eid=2"));
    assert!(heos_daemon_rust::frame::parse_response(json).is_err());
}

#[test]
fn error_codes_cover_documented_range() {
    let expected = [
        (1, HeosErrorCode::UnrecognizedCommand),
        (2, HeosErrorCode::InvalidId),
        (3, HeosErrorCode::WrongNumberOfArguments),
        (4, HeosErrorCode::RequestedDataNotAvailable),
        (5, HeosErrorCode::ResourceCurrentlyNotAvailable),
        (6, HeosErrorCode::InvalidCredentials),
        (7, HeosErrorCode::CommandCouldNitBeExecuted),
        (8, HeosErrorCode::UserNotLoggedIn),
        (9, HeosErrorCode::ParameterOutOfRange),
        (10, HeosErrorCode::UserNotFound),
        (11, HeosErrorCode::InternalError),
        (12, HeosErrorCode::SystemError),
        (13, HeosErrorCode::ProcessingPreviousCommand),
        (14, HeosErrorCode::MediaCantBePlayed),
        (15, HeosErrorCode::OptionNotSupported),
    ];
    for (n, kind) in expected {
        assert_eq!(HeosErrorCode::from_code(n), kind);
    }
    for n in [0i64, -1, 16, 99, 999, i64::MIN, i64::MAX] {
        assert_eq!(HeosErrorCode::from_code(n), HeosErrorCode::Unknown);
    }
}

#[test]
fn empty_body_decodes_to_null() {
    assert_eq!(qs_to_json(""), JsonValue::Null);
}

#[test]
fn recognized_keys_decode_in_schema_order() {
    let v = qs_to_json("state=play&pid=123&level=7");
    assert_eq!(
        v,
        obj(vec![
            ("pid", JsonValue::Int(123)),
            ("level", JsonValue::Int(7)),
            ("state", txt("play")),
        ])
    );
}

#[test]
fn malformed_value_falls_back_to_raw_string() {
    assert_eq!(qs_to_json("pid=abc"), txt("pid=abc"));
    assert_eq!(qs_to_json("no equals sign"), txt("no equals sign"));
    assert_eq!(qs_to_json("level=999"), txt("level=999"));
}

#[test]
fn unknown_keys_are_ignored() {
    assert_eq!(qs_to_json("foo=bar"), obj(vec![]));
}

#[test]
fn spaces_survive_decoding() {
    let v = qs_to_json("text=Invalid ID");
    assert_eq!(v, obj(vec![("text", txt("Invalid ID"))]));
}

#[test]
fn percent_escapes_decode() {
    let v = qs_to_json("un=a%26b%3Dc%20d");
    assert_eq!(v, obj(vec![("un", txt("a&b=c d"))]));
}

#[test]
fn later_duplicate_key_wins() {
    let v = qs_to_json("pid=1&pid=2");
    assert_eq!(v, obj(vec![("pid", JsonValue::Int(2))]));
}

#[test]
fn negative_and_extreme_player_ids_decode() {
    assert_eq!(qs_to_json("pid=-5"), obj(vec![("pid", JsonValue::Int(-5))]));
    assert_eq!(
        qs_to_json("pid=-9223372036854775808"),
        obj(vec![("pid", JsonValue::Int(i64::MIN))])
    );
    assert_eq!(
        qs_to_json("pid=9223372036854775807"),
        obj(vec![("pid", JsonValue::Int(i64::MAX))])
    );
    assert_eq!(qs_to_json("pid=9223372036854775808"), txt("pid=9223372036854775808"));
}

#[test]
fn encode_emits_schema_order_and_escapes() {
    let mut p = EventQueryParams::new();
    p.pid = Some(3);
    p.level = Some(10);
    p.un = Some("a&b c".to_string());
    p.state = Some(PlayState::Play);
    let s = params_to_qs(&p);
    assert_eq!(s, "pid=3&level=10&un=a%26b%20c&state=play");
}

#[test]
fn encode_then_decode_round_trips() {
    let mut p = EventQueryParams::new();
    p.pid = Some(-42);
    p.gid = Some(7);
    p.mute = Some(OnOrOff::On);
    p.shuffle = Some(OnOrOff::Off);
    p.repeat = Some(Repeat::OnAll);
    p.un = Some("user name=with&specials%".to_string());
    p.text = Some("free text".to_string());
    p.eid = Some(12);
    p.cur_pos = Some(65000);
    p.duration = Some(120000);
    p.state = Some(PlayState::Pause);
    let s = params_to_qs(&p);
    let back = qs_to_params(&s).expect("encoded string must decode");
    assert_eq!(back, p);
    let v = qs_to_params(&s).map(params_to_json).unwrap();
    match v {
        JsonValue::Object(entries) => assert_eq!(entries.len(), 11),
        other => panic!("expected an object, got {:?}", other),
    }
}

#[test]
fn remove_null_strips_only_top_level_nulls() {
    let v = obj(vec![("a", JsonValue::Null), ("b", JsonValue::Int(1)), ("c", JsonValue::Null)]);
    assert_eq!(remove_null(v), obj(vec![("b", JsonValue::Int(1))]));
    assert_eq!(remove_null(txt("x")), txt("x"));
    assert_eq!(remove_null(JsonValue::Null), JsonValue::Null);
}

#[test]
fn on_or_off_string_conversions() {
    assert_eq!(OnOrOff::from_str("on"), Ok(OnOrOff::On));
    assert_eq!(OnOrOff::from_str("off"), Ok(OnOrOff::Off));
    assert_eq!(
        OnOrOff::from_str("maybe"),
        Err("can't convert maybe to OnOff".to_string())
    );
    assert_eq!(OnOrOff::On.as_str(), "on");
    assert_eq!(PlayState::Stop.as_str(), "stop");
    assert_eq!(Repeat::OnOne.as_str(), "OnOne");
}

#[test]
fn command_payloads_render_exactly() {
    assert_eq!(
        PlayerCommand::GetPlayers.payload().to_wire(),
        "heos://player/get_players"
    );
    assert_eq!(
        PlayerCommand::GetPlayerVolume { pid: 1128532863 }.payload().to_wire(),
        "heos://player/get_volume?pid=1128532863"
    );
    assert_eq!(
        PlayerCommand::SetPlayerVolume { pid: -2, level: 30 }.payload().to_wire(),
        "heos://player/set_volume?pid=-2&level=30"
    );
    assert_eq!(
        PlayerCommand::SetPlayState { pid: 9, state: PlayState::Pause }.payload().to_wire(),
        "heos://player/get_play_state?pid=9&state=pause"
    );
    assert_eq!(
        SystemCommand::SignIn { un: "u".to_string(), pw: "SECRET-REDACTED".to_string() }
            .payload()
            .to_wire(),
        "heos://system/sign_in?un=u&pw=SECRET-REDACTED"
    );
    assert_eq!(
        SystemCommand::RegisterForChangeEvents { enable: OnOrOff::On }.payload().to_wire(),
        "heos://system/register_for_change_events?enable=on"
    );
    let _named: CommandPayload = SystemCommand::HeartBeat.payload();
}

#[test]
fn get_line_finds_the_first_delimiter() {
    let buf: Vec<u8> = b"abc\r\ndef\r\n".to_vec();
    let (line, next) = heos_daemon_rust::frame::get_line(&buf, 0).unwrap();
    assert_eq!(line, b"abc".to_vec());
    assert_eq!(next, 5);
    let (line2, next2) = heos_daemon_rust::frame::get_line(&buf, next).unwrap();
    assert_eq!(line2, b"def".to_vec());
    assert_eq!(next2, 10);
    assert!(heos_daemon_rust::frame::get_line(&buf, next2).is_err());
    assert!(Frame::check(&buf, 0).unwrap() == 5);
}

#[test]
fn frame_parse_reads_one_frame() {
    let buf: Vec<u8> =
        b"{\"heos\":{\"command\":\"player/get_players\",\"message\":\"command under process\"}}\r\n"
            .to_vec();
    let (f, next) = Frame::parse(&buf, 0).unwrap();
    assert_eq!(f, Frame::UnderProcess("player/get_players".to_string()));
    assert_eq!(next, buf.len());
}

fn drain(r: &mut Reassembler) -> Vec<Frame> {
    let mut out = Vec::new();
    while let Some(f) = r.parse_frame().unwrap() {
        out.push(f);
    }
    out
}

#[test]
fn reassembler_yields_frames_and_keeps_partial_tail() {
    let wire = b"{\"heos\":{\"command\":\"player/get_players\",\"result\":\"success\",\"message\":\"\"}}\r\n{\"heos\":{\"command\":\"event/player_state_changed\",\"message\":\"pid=1&state=stop\"}}\r\n{\"heos\":{\"comm";
    let mut r = Reassembler::new();
    r.feed(wire);
    let frames = drain(&mut r);
    assert_eq!(frames.len(), 2);
    assert!(matches!(frames[0], Frame::Response(_)));
    assert!(matches!(frames[1], Frame::Event(_)));
    // the partial third frame is preserved: finishing it yields the frame
    r.feed(b"and\":\"x\",\"message\":\"command under process\"}}\r\n");
    let frames = drain(&mut r);
    assert_eq!(frames, vec![Frame::UnderProcess("x".to_string())]);
}

#[test]
fn one_byte_chunks_decode_like_one_block() {
    let wire: &[u8] = b"{\"heos\":{\"command\":\"a\",\"message\":\"command under process\"}}\r\n{\"heos\":{\"command\":\"event/e\",\"message\":\"pid=5\"}}\r\n";
    let mut block = Reassembler::new();
    block.feed(wire);
    let mut block_frames = drain(&mut block);
    let mut trickle = Reassembler::new();
    let mut trickle_frames = Vec::new();
    for b in wire {
        trickle.feed(std::slice::from_ref(b));
        trickle_frames.extend(drain(&mut trickle));
    }
    assert_eq!(block_frames.len(), 2);
    assert_eq!(trickle_frames, block_frames.drain(..).collect::<Vec<_>>());
    assert!(block.end_of_stream().is_ok());
    assert!(trickle.end_of_stream().is_ok());
}

#[test]
fn end_of_stream_with_leftover_bytes_is_a_reset() {
    let mut r = Reassembler::new();
    assert!(r.end_of_stream().is_ok());
    r.feed(b"{\"heos\":");
    match r.end_of_stream() {
        Err(HeosError::UnexpectedError(_)) => {}
        other => panic!("expected a connection reset, got {:?}", other),
    }
}

#[test]
fn invalid_json_frame_is_fatal() {
    let mut r = Reassembler::new();
    r.feed(b"this is not json\r\n");
    assert!(r.parse_frame().is_err());
}

#[test]
fn waiting_for_more_bytes_is_not_an_error() {
    let mut r = Reassembler::new();
    r.feed(b"{\"heos\"");
    assert_eq!(r.parse_frame().unwrap(), None);
    assert_eq!(r.parse_frame().unwrap(), None);
}

#[test]
fn explicit_null_result_counts_as_absent() {
    let json = obj(vec![(
        "heos",
        obj(vec![
            ("command", txt("player/get_players")),
            ("result", JsonValue::Null),
            ("message", txt("command under process")),
        ]),
    )]);
    let f = heos_daemon_rust::frame::parse_response(json).unwrap();
    assert_eq!(f, Frame::UnderProcess("player/get_players".to_string()));
}

#[test]
fn object_lookup_finds_first_entry() {
    let entries: Vec<(String, JsonValue)> = vec![
        ("a".to_string(), JsonValue::Int(1)),
        ("b".to_string(), JsonValue::Int(2)),
        ("a".to_string(), JsonValue::Int(3)),
    ];
    assert_eq!(heos_daemon_rust::json::obj_get(&entries, "a"), Some(&JsonValue::Int(1)));
    assert_eq!(heos_daemon_rust::json::obj_get(&entries, "b"), Some(&JsonValue::Int(2)));
    assert_eq!(heos_daemon_rust::json::obj_get(&entries, "c"), None);
}
