//! The frame decoder: JSON envelope validation and the three-way response
//! discrimination (command result / event / error), plus frame-boundary
//! detection over raw bytes.

use vstd::prelude::*;
use crate::error::{ErrorMessage, HeosError, HeosErrorCode, spec_from_code};
use crate::json::{obj_lookup, JsonValue};
use crate::response_line::{qs_json_matches, qs_to_json, qs_to_params, spec_qs_params};
use crate::text::{str_eq, str_starts_with};
use crate::types::{CommandResponse, EventResponse};

verus! {

/// One complete decoded protocol message.
#[derive(Debug, PartialEq)]
pub enum Frame {
    UnderProcess(String),
    Response(CommandResponse),
    Event(EventResponse),
    Error(ErrorMessage),
}

/// The buffer does not yet hold a complete frame.
#[derive(Debug, PartialEq, Eq)]
pub struct Incomplete;

#[derive(Debug, Clone, Copy, PartialEq, Eq, Structural)]
pub enum HeosResultState {
    Success,
    Failure,
}

/// A `heos.command` value, discriminated by the `event` name prefix.
#[derive(Debug, PartialEq)]
pub enum ResponseName {
    CommandName(String),
    EventName(String),
}

impl ResponseName {
    pub open spec fn name_view(&self) -> Seq<char> {
        match self {
            ResponseName::CommandName(n) => n@,
            ResponseName::EventName(n) => n@,
        }
    }

    pub fn name(&self) -> (r: String)
        ensures
            r@ == self.name_view(),
    {
        match self {
            ResponseName::CommandName(n) => n.clone(),
            ResponseName::EventName(n) => n.clone(),
        }
    }
}

/// The validated `heos` header of an envelope.
#[derive(Debug, PartialEq)]
pub struct HeosHeader {
    pub command: ResponseName,
    pub result: Option<HeosResultState>,
    pub message: String,
}

/// A validated envelope: header plus pass-through `payload` / `options`.
#[derive(Debug, PartialEq)]
pub struct HeosReponse {
    pub heos: HeosHeader,
    pub payload: JsonValue,
    pub options: JsonValue,
}

// ---------------------------------------------------------------------------
// envelope model
// ---------------------------------------------------------------------------

/// What the decoder reads out of a well-formed envelope.
pub struct EnvModel {
    pub name: Seq<char>,
    pub is_event: bool,
    pub fail: bool,
    pub message: Seq<char>,
    pub payload: JsonValue,
    pub options: JsonValue,
}

pub open spec fn is_event_name(s: Seq<char>) -> bool {
    s.len() >= "event"@.len() && s.subrange(0, "event"@.len() as int) == "event"@
}

/// `result` must be absent (or null), `"success"` or `"fail"`; anything else
/// is a hard decode failure. The outer `Option` is the failure channel.
pub open spec fn spec_result_flag(o: Option<JsonValue>) -> Option<Option<bool>> {
    match o {
        None => Some(None),
        Some(JsonValue::Null) => Some(None),
        Some(JsonValue::Text(t)) => if t@ == "fail"@ {
            Some(Some(true))
        } else if t@ == "success"@ {
            Some(Some(false))
        } else {
            None
        },
        Some(_) => None,
    }
}

/// `message` must be absent (empty) or a string.
pub open spec fn spec_message_field(o: Option<JsonValue>) -> Option<Seq<char>> {
    match o {
        None => Some(Seq::empty()),
        Some(JsonValue::Text(t)) => Some(t@),
        Some(_) => None,
    }
}

/// An absent `payload` / `options` field is equivalent to an explicit null.
pub open spec fn spec_opt_json(o: Option<JsonValue>) -> JsonValue {
    match o {
        None => JsonValue::Null,
        Some(v) => v,
    }
}

/// Validates an envelope: `{ heos: { command, result?, message? }, payload?,
/// options? }`. `None` is a hard decode failure.
pub open spec fn spec_envelope(v: JsonValue) -> Option<EnvModel> {
    match v {
        JsonValue::Object(top) => match obj_lookup(top@, "heos"@) {
            Some(JsonValue::Object(h)) => match obj_lookup(h@, "command"@) {
                Some(JsonValue::Text(c)) => match spec_result_flag(obj_lookup(h@, "result"@)) {
                    Some(resflag) => match spec_message_field(obj_lookup(h@, "message"@)) {
                        Some(msg) => Some(
                            EnvModel {
                                name: c@,
                                is_event: is_event_name(c@),
                                fail: resflag == Some(true),
                                message: msg,
                                payload: spec_opt_json(obj_lookup(top@, "payload"@)),
                                options: spec_opt_json(obj_lookup(top@, "options"@)),
                            },
                        ),
                        None => None,
                    },
                    None => None,
                },
                _ => None,
            },
            _ => None,
        },
        _ => None,
    }
}

impl HeosReponse {
    /// The envelope model a validated value stands for.
    pub open spec fn env_view(&self) -> EnvModel {
        EnvModel {
            name: self.heos.command.name_view(),
            is_event: self.heos.command is EventName,
            fail: self.heos.result == Some(HeosResultState::Failure),
            message: self.heos.message@,
            payload: self.payload,
            options: self.options,
        }
    }
}

/// The error-message body must decode against the schema and carry both
/// `eid` and `text`.
pub open spec fn spec_error_body(m: Seq<char>) -> Option<(u8, Seq<char>)> {
    match spec_qs_params(m) {
        Some(p) => match (p.eid, p.text) {
            (Some(e), Some(t)) => Some((e, t)),
            _ => None,
        },
        None => None,
    }
}

/// The frame (or hard failure) an envelope decodes to. Discrimination order:
/// a reported failure wins over everything, then the event-name prefix, then
/// the literal `command under process` acknowledgement, then a plain
/// command response with `payload` / `options` passed through.
pub open spec fn decodes_to(json: JsonValue, r: Result<Frame, HeosError>) -> bool {
    match spec_envelope(json) {
        None => r is Err,
        Some(env) => if env.fail {
            match spec_error_body(env.message) {
                None => r is Err,
                Some((eid, text)) => match r {
                    Ok(Frame::Error(em)) => em.eid == spec_from_code(eid as int) && em.text@
                        == text && (em.context matches Some(c) && c@ == env.name),
                    _ => false,
                },
            }
        } else if env.is_event {
            match r {
                Ok(Frame::Event(ev)) => ev.event_name@ == env.name && qs_json_matches(
                    ev.message,
                    env.message,
                ),
                _ => false,
            }
        } else if env.message == "command under process"@ {
            match r {
                Ok(Frame::UnderProcess(n)) => n@ == env.name,
                _ => false,
            }
        } else {
            match r {
                Ok(Frame::Response(cr)) => cr.command_name@ == env.name && qs_json_matches(
                    cr.message,
                    env.message,
                ) && cr.payload == env.payload && cr.options == env.options,
                _ => false,
            }
        },
    }
}

// ---------------------------------------------------------------------------
// envelope decoding
// ---------------------------------------------------------------------------

/// Takes the first entry for each of three distinct keys out of an object,
/// preserving first-match semantics.
fn take_three(
    entries: Vec<(String, JsonValue)>,
    k0: &str,
    k1: &str,
    k2: &str,
) -> (r: (Option<JsonValue>, Option<JsonValue>, Option<JsonValue>))
    requires
        k0@ != k1@,
        k0@ != k2@,
        k1@ != k2@,
    ensures
        r.0 == obj_lookup(entries@, k0@),
        r.1 == obj_lookup(entries@, k1@),
        r.2 == obj_lookup(entries@, k2@),
{
    let ghost orig = entries@;
    let mut es = entries;
    let mut a0: Option<JsonValue> = None;
    let mut a1: Option<JsonValue> = None;
    let mut a2: Option<JsonValue> = None;
    let ghost mut i: int = 0;
    while es.len() > 0
        invariant
            k0@ != k1@,
            k0@ != k2@,
            k1@ != k2@,
            0 <= i <= orig.len(),
            es@ == orig.skip(i),
            a0 is Some ==> obj_lookup(orig, k0@) == a0,
            a0 is None ==> obj_lookup(orig, k0@) == obj_lookup(orig.skip(i), k0@),
            a1 is Some ==> obj_lookup(orig, k1@) == a1,
            a1 is None ==> obj_lookup(orig, k1@) == obj_lookup(orig.skip(i), k1@),
            a2 is Some ==> obj_lookup(orig, k2@) == a2,
            a2 is None ==> obj_lookup(orig, k2@) == obj_lookup(orig.skip(i), k2@),
        decreases es@.len(),
    {
        let (kk, v) = es.remove(0);
        proof {
            assert((kk, v) == orig[i]);
            assert(es@ =~= orig.skip(i + 1));
            assert(orig.skip(i)[0] == orig[i]);
            assert(orig.skip(i).skip(1) =~= orig.skip(i + 1));
            assert(kk == orig[i].0 && v == orig[i].1);
            assert(obj_lookup(orig.skip(i), k0@) == (if orig[i].0@ == k0@ {
                Some(orig[i].1)
            } else {
                obj_lookup(orig.skip(i + 1), k0@)
            }));
            assert(obj_lookup(orig.skip(i), k1@) == (if orig[i].0@ == k1@ {
                Some(orig[i].1)
            } else {
                obj_lookup(orig.skip(i + 1), k1@)
            }));
            assert(obj_lookup(orig.skip(i), k2@) == (if orig[i].0@ == k2@ {
                Some(orig[i].1)
            } else {
                obj_lookup(orig.skip(i + 1), k2@)
            }));
        }
        let m0 = str_eq(kk.as_str(), k0);
        let m1 = str_eq(kk.as_str(), k1);
        let m2 = str_eq(kk.as_str(), k2);
        if a0.is_none() && m0 {
            a0 = Some(v);
        } else if a1.is_none() && m1 {
            a1 = Some(v);
        } else if a2.is_none() && m2 {
            a2 = Some(v);
        }
        proof {
            i = i + 1;
        }
    }
    proof {
        assert(orig.skip(orig.len() as int) =~= Seq::<(String, JsonValue)>::empty());
    }
    (a0, a1, a2)
}

fn decode_fault(what: &str) -> (r: HeosError)
    ensures
        r matches HeosError::UnexpectedError(_),
{
    HeosError::UnexpectedError(what.to_owned())
}

/// Validates the envelope shape; every structural defect is a hard failure.
pub fn parse_envelope(json: JsonValue) -> (r: Result<HeosReponse, HeosError>)
    ensures
        match spec_envelope(json) {
            Some(env) => r matches Ok(hr) && hr.env_view() == env,
            None => r matches Err(e) && e matches HeosError::UnexpectedError(_),
        },
{
    let ghost jv = json;
    proof {
        reveal_strlit("heos");
        reveal_strlit("payload");
        reveal_strlit("options");
        reveal_strlit("command");
        reveal_strlit("result");
        reveal_strlit("message");
        assert("heos"@.len() == 4);
        assert("payload"@.len() == 7);
        assert("options"@.len() == 7);
        assert("payload"@[0] == 'p' && "options"@[0] == 'o');
        assert("payload"@ != "options"@);
        assert("command"@.len() == 7);
        assert("result"@.len() == 6);
        assert("message"@.len() == 7);
        assert("command"@[0] == 'c' && "message"@[0] == 'm');
        assert("command"@ != "message"@);
    }
    let top = match json {
        JsonValue::Object(t) => t,
        _ => {
            return Err(decode_fault("envelope is not an object"));
        },
    };
    let (heos_v, payload_o, options_o) = take_three(top, "heos", "payload", "options");
    let h = match heos_v {
        Some(JsonValue::Object(h)) => h,
        _ => {
            return Err(decode_fault("envelope has no heos object"));
        },
    };
    let (cmd_v, result_v, message_v) = take_three(h, "command", "result", "message");
    let cmd = match cmd_v {
        Some(JsonValue::Text(c)) => c,
        _ => {
            return Err(decode_fault("heos.command is missing or not a string"));
        },
    };
    let result: Option<HeosResultState> = match result_v {
        None => None,
        Some(JsonValue::Null) => None,
        Some(JsonValue::Text(t)) => {
            if str_eq(t.as_str(), "fail") {
                Some(HeosResultState::Failure)
            } else if str_eq(t.as_str(), "success") {
                Some(HeosResultState::Success)
            } else {
                return Err(decode_fault("heos.result is neither success nor fail"));
            }
        },
        Some(_) => {
            return Err(decode_fault("heos.result is not a string"));
        },
    };
    let message: String = match message_v {
        None => String::new(),
        Some(JsonValue::Text(t)) => t,
        Some(_) => {
            return Err(decode_fault("heos.message is not a string"));
        },
    };
    let payload = match payload_o {
        Some(v) => v,
        None => JsonValue::Null,
    };
    let options = match options_o {
        Some(v) => v,
        None => JsonValue::Null,
    };
    let command = if str_starts_with(cmd.as_str(), "event") {
        ResponseName::EventName(cmd)
    } else {
        ResponseName::CommandName(cmd)
    };
    Ok(HeosReponse { heos: HeosHeader { command, result, message }, payload, options })
}

/// Classifies one fully-parsed envelope into a frame. Exactly one variant is
/// produced; a structural defect or an undecodable error body is a hard
/// failure, unlike the codec's own string fallback.
pub fn parse_response(json: JsonValue) -> (r: Result<Frame, HeosError>)
    ensures
        decodes_to(json, r),
        r matches Err(e) ==> e matches HeosError::UnexpectedError(_),
{
    let ghost jv = json;
    let hr = match parse_envelope(json) {
        Ok(hr) => hr,
        Err(e) => {
            return Err(e);
        },
    };
    let ghost env = hr.env_view();
    let HeosReponse { heos: HeosHeader { command, result, message }, payload, options } = hr;
    let fail = match result {
        Some(HeosResultState::Failure) => true,
        _ => false,
    };
    let is_event = match &command {
        ResponseName::EventName(_) => true,
        ResponseName::CommandName(_) => false,
    };
    let name = match command {
        ResponseName::CommandName(n) => n,
        ResponseName::EventName(n) => n,
    };
    if fail {
        match qs_to_params(message.as_str()) {
            None => Err(decode_fault("error body does not fit the schema")),
            Some(p) => {
                let eid = p.eid;
                let text = p.text;
                match (eid, text) {
                    (Some(e), Some(t)) => Ok(
                        Frame::Error(
                            ErrorMessage {
                                eid: HeosErrorCode::from_code(e as i64),
                                text: t,
                                context: Some(name),
                            },
                        ),
                    ),
                    _ => Err(decode_fault("error body carries no eid or text")),
                }
            },
        }
    } else if is_event {
        let msg = qs_to_json(message.as_str());
        Ok(Frame::Event(EventResponse { event_name: name, message: msg }))
    } else if str_eq(message.as_str(), "command under process") {
        Ok(Frame::UnderProcess(name))
    } else {
        let msg = qs_to_json(message.as_str());
        Ok(Frame::Response(CommandResponse { command_name: name, message: msg, payload, options }))
    }
}

// ---------------------------------------------------------------------------
// serde_json behind trusted declarations
// ---------------------------------------------------------------------------

#[verifier::external_type_specification]
#[verifier::external_body]
pub struct ExSerdeValue(serde_json::Value);

/// The structured value that a byte sequence parses to as JSON, if any.
/// JSON parsing depends on the bytes alone, so the result carries a name
/// rather than a transcription of the grammar.
pub uninterp spec fn json_parsed(s: Seq<u8>) -> Option<JsonValue>;

/// Relies on `serde_json::Value`'s six variants: maps the parsed tree onto
/// the library's value, one variant to one variant, fields moved through.
/// Numbers outside the signed 64-bit range are carried as decimal text.
#[verifier::external_body]
fn from_serde_value(v: serde_json::Value) -> JsonValue {
    match v {
        serde_json::Value::Null => JsonValue::Null,
        serde_json::Value::Bool(b) => JsonValue::Bool(b),
        serde_json::Value::Number(n) => match n.as_i64() {
            Some(i) => JsonValue::Int(i),
            None => JsonValue::Text(n.to_string()),
        },
        serde_json::Value::String(s) => JsonValue::Text(s),
        serde_json::Value::Array(a) => JsonValue::List(
            a.into_iter().map(from_serde_value).collect(),
        ),
        serde_json::Value::Object(m) => JsonValue::Object(
            m.into_iter().map(|(k, x)| (k, from_serde_value(x))).collect(),
        ),
    }
}

/// Relies on `serde_json::from_slice`: parses one JSON document from bytes;
/// the result is a function of the bytes alone, named `json_parsed`.
#[verifier::external_body]
pub(crate) fn parse_json(line: &Vec<u8>) -> (r: Option<JsonValue>)
    ensures
        r == json_parsed(line@),
{
    match serde_json::from_slice::<serde_json::Value>(line.as_slice()) {
        Ok(v) => Some(from_serde_value(v)),
        Err(_) => None,
    }
}

// ---------------------------------------------------------------------------
// frame boundaries
// ---------------------------------------------------------------------------

/// First index where the two-byte frame delimiter (carriage return followed
/// by line feed) starts.
pub open spec fn spec_find_delim(s: Seq<u8>) -> Option<int>
    decreases s.len(),
{
    if s.len() < 2 {
        None
    } else if s[0] == 13 && s[1] == 10 {
        Some(0)
    } else {
        match spec_find_delim(s.skip(1)) {
            Some(k) => Some(k + 1),
            None => None,
        }
    }
}

pub proof fn lemma_find_delim_props(s: Seq<u8>)
    ensures
        match spec_find_delim(s) {
            Some(k) => 0 <= k && k + 1 < s.len() && s[k] == 13 && s[k + 1] == 10 && forall|j: int|
                0 <= j < k ==> !((#[trigger] s[j]) == 13 && s[j + 1] == 10),
            None => forall|j: int|
                0 <= j && j + 1 < s.len() ==> !((#[trigger] s[j]) == 13 && s[j + 1] == 10),
        },
    decreases s.len(),
{
    if s.len() < 2 {
    } else if s[0] == 13 && s[1] == 10 {
    } else {
        lemma_find_delim_props(s.skip(1));
        match spec_find_delim(s.skip(1)) {
            Some(k) => {
                assert(s.skip(1)[k] == s[k + 1]);
                assert(s.skip(1)[k + 1] == s[k + 2]);
                assert forall|j: int| 0 <= j < k + 1 implies !((#[trigger] s[j]) == 13 && s[j + 1]
                    == 10) by {
                    if j > 0 {
                        assert(s.skip(1)[j - 1] == s[j]);
                        assert(s.skip(1)[j] == s[j + 1]);
                    }
                }
            },
            None => {
                assert forall|j: int| 0 <= j && j + 1 < s.len() implies !((#[trigger] s[j]) == 13
                    && s[j + 1] == 10) by {
                    if j > 0 {
                        assert(s.skip(1)[j - 1] == s[j]);
                        assert(s.skip(1)[j] == s[j + 1]);
                    }
                }
            },
        }
    }
}

pub proof fn lemma_find_delim_at(s: Seq<u8>, i: int)
    requires
        0 <= i,
        i + 1 < s.len(),
        s[i] == 13,
        s[i + 1] == 10,
        forall|j: int| 0 <= j < i ==> !((#[trigger] s[j]) == 13 && s[j + 1] == 10),
    ensures
        spec_find_delim(s) == Some(i),
    decreases i,
{
    if i == 0 {
    } else {
        assert(!(s[0] == 13 && s[1] == 10));
        assert(s.skip(1)[i - 1] == s[i]);
        assert(s.skip(1)[i] == s[i + 1]);
        assert forall|j: int| 0 <= j < i - 1 implies !((#[trigger] s.skip(1)[j]) == 13 && s.skip(
            1,
        )[j + 1] == 10) by {
            assert(s.skip(1)[j] == s[j + 1]);
            assert(s.skip(1)[j + 1] == s[j + 2]);
        }
        lemma_find_delim_at(s.skip(1), i - 1);
    }
}

/// Copies `src[from..to]` out of the buffer.
pub(crate) fn bytes_range(src: &Vec<u8>, from: usize, to: usize) -> (r: Vec<u8>)
    requires
        from <= to <= src@.len(),
    ensures
        r@ == src@.subrange(from as int, to as int),
{
    let mut r: Vec<u8> = Vec::new();
    let mut i: usize = from;
    while i < to
        invariant
            from <= i <= to <= src@.len(),
            r@ == src@.subrange(from as int, i as int),
        decreases to - i,
    {
        r.push(src[i]);
        proof {
            assert(src@.subrange(from as int, i + 1) =~= src@.subrange(from as int, i as int).push(
                src@[i as int],
            ));
        }
        i += 1;
    }
    r
}

/// One complete frame body: the bytes strictly before the first delimiter
/// at or after `start`, and the position just past the delimiter.
pub fn get_line(src: &Vec<u8>, start: usize) -> (r: Result<(Vec<u8>, usize), Incomplete>)
    requires
        start <= src@.len(),
    ensures
        match r {
            Ok(line_next) => {
                &&& spec_find_delim(src@.skip(start as int)) == Some(
                    line_next.1 - start - 2,
                )
                &&& start + 2 <= line_next.1 <= src@.len()
                &&& line_next.0@ == src@.subrange(start as int, line_next.1 - 2)
            },
            Err(_) => spec_find_delim(src@.skip(start as int)) is None,
        },
{
    let ghost s = src@.skip(start as int);
    let n = src.len();
    let mut i: usize = start;
    while n - i > 1
        invariant
            start <= i <= n,
            n == src@.len(),
            s == src@.skip(start as int),
            forall|j: int| 0 <= j < i - start ==> !((#[trigger] s[j]) == 13 && s[j + 1] == 10),
        decreases n - i,
    {
        proof {
            assert(s[i - start] == src@[i as int]);
            assert(s[i - start + 1] == src@[i + 1]);
        }
        if src[i] == 13 && src[i + 1] == 10 {
            proof {
                lemma_find_delim_at(s, i - start);
            }
            let line = bytes_range(src, start, i);
            proof {
                assert(line@ == src@.subrange(start as int, (i + 2) - 2));
            }
            return Ok((line, i + 2));
        }
        i += 1;
    }
    proof {
        assert forall|j: int| 0 <= j && j + 1 < s.len() implies !((#[trigger] s[j]) == 13 && s[j
            + 1] == 10) by {
            assert(s[j] == src@[start + j]);
            assert(s[j + 1] == src@[start + j + 1]);
        }
        lemma_find_delim_props(s);
    }
    Err(Incomplete)
}

impl Frame {
    /// Reports whether one complete frame starts at `start`, and where the
    /// next frame would begin.
    pub fn check(src: &Vec<u8>, start: usize) -> (r: Result<usize, Incomplete>)
        requires
            start <= src@.len(),
        ensures
            match r {
                Ok(next) => {
                    &&& spec_find_delim(src@.skip(start as int)) == Some(next - start - 2)
                    &&& start + 2 <= next <= src@.len()
                },
                Err(_) => spec_find_delim(src@.skip(start as int)) is None,
            },
    {
        match get_line(src, start) {
            Ok((_, next)) => Ok(next),
            Err(e) => Err(e),
        }
    }

    /// Extracts the frame starting at `start`: the body before the delimiter
    /// is parsed as JSON and classified. An incomplete line is a connection
    /// fault; so is a body that is not valid JSON.
    pub fn parse(src: &Vec<u8>, start: usize) -> (r: Result<(Frame, usize), HeosError>)
        requires
            start <= src@.len(),
        ensures
            match spec_find_delim(src@.skip(start as int)) {
                None => r matches Err(e) && e matches HeosError::UnexpectedError(_),
                Some(k) => match json_parsed(src@.subrange(start as int, start + k)) {
                    None => r matches Err(e) && e matches HeosError::UnexpectedError(_),
                    Some(v) => match r {
                        Ok(fr_next) => fr_next.1 == start + k + 2 && decodes_to(
                            v,
                            Ok(fr_next.0),
                        ),
                        Err(e) => decodes_to(v, Err(e)),
                    },
                },
            },
    {
        let (line, next) = match get_line(src, start) {
            Ok(x) => x,
            Err(_) => {
                return Err(decode_fault("connection reset by peer while reading line"));
            },
        };
        let v = match parse_json(&line) {
            Some(v) => v,
            None => {
                return Err(decode_fault("failed to parse response as json"));
            },
        };
        match parse_response(v) {
            Ok(f) => Ok((f, next)),
            Err(e) => Err(e),
        }
    }
}

} // verus!
