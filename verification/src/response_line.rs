//! The query-string codec: translation between the protocol's ad-hoc
//! `key=value&key=value` message bodies and structured values.
//!
//! Decoding never fails: a body that does not fit the recognized schema
//! degrades to an opaque string value rather than aborting frame decoding.

use vstd::prelude::*;
use crate::json::JsonValue;
use crate::text::{
    all_digits, chars_eq_str, chars_to_string, digit_char, digit_val, i64_to_string,
    is_digit_char, lemma_digits_val_nonneg, parse_i64_range, parse_u64_range, parse_u8_range,
    spec_digits_val, spec_i64_str, spec_parse_i64, spec_parse_u64, spec_parse_u8,
    spec_u64_digits, str_to_chars, u64_to_string,
};
use crate::types::{
    Milliseconds, OnOrOff, PlayState, Repeat, spec_on_or_off, spec_play_state, spec_repeat,
};

verus! {

// ---------------------------------------------------------------------------
// percent escapes
// ---------------------------------------------------------------------------

pub open spec fn hex_digit_val(c: char) -> int {
    if 48 <= c as u32 <= 57 {
        c as u32 - 48
    } else if 97 <= c as u32 <= 102 {
        c as u32 - 87
    } else if 65 <= c as u32 <= 70 {
        c as u32 - 55
    } else {
        -1
    }
}

/// Resolves `%XX` escapes (seven-bit range only); a malformed or out-of-range
/// escape makes the whole text undecodable.
pub open spec fn spec_unescape(s: Seq<char>) -> Option<Seq<char>>
    decreases s.len(),
{
    if s.len() == 0 {
        Some(Seq::empty())
    } else if s[0] == '%' {
        if s.len() >= 3 && hex_digit_val(s[1]) >= 0 && hex_digit_val(s[2]) >= 0 && hex_digit_val(
            s[1],
        ) * 16 + hex_digit_val(s[2]) < 128 {
            match spec_unescape(s.skip(3)) {
                Some(t) => Some(
                    seq![((hex_digit_val(s[1]) * 16 + hex_digit_val(s[2])) as u8) as char] + t,
                ),
                None => None,
            }
        } else {
            None
        }
    } else {
        match spec_unescape(s.skip(1)) {
            Some(t) => Some(seq![s[0]] + t),
            None => None,
        }
    }
}

fn hex_val(c: char) -> (r: i8)
    ensures
        r as int == hex_digit_val(c),
{
    let u = c as u32;
    if 48 <= u && u <= 57 {
        (u - 48) as i8
    } else if 97 <= u && u <= 102 {
        (u - 87) as i8
    } else if 65 <= u && u <= 70 {
        (u - 55) as i8
    } else {
        -1
    }
}

/// Resolves the `%XX` escapes in `v[from..to]`.
pub fn unescape_range(v: &Vec<char>, from: usize, to: usize) -> (r: Option<Vec<char>>)
    requires
        from <= to <= v@.len(),
    ensures
        match r {
            Some(out) => spec_unescape(v@.subrange(from as int, to as int)) == Some(out@),
            None => spec_unescape(v@.subrange(from as int, to as int)) is None,
        },
{
    let ghost s = v@.subrange(from as int, to as int);
    let mut out: Vec<char> = Vec::new();
    let mut i: usize = from;
    proof {
        assert(s.skip(0) =~= s);
    }
    while i < to
        invariant
            from <= i <= to <= v@.len(),
            s == v@.subrange(from as int, to as int),
            match spec_unescape(s.skip(i - from)) {
                Some(t) => spec_unescape(s) == Some(out@ + t),
                None => spec_unescape(s) is None,
            },
        decreases to - i,
    {
        let ghost rest = s.skip(i - from);
        proof {
            assert(rest.len() == to - i);
            assert(rest[0] == v@[i as int]);
        }
        let c = v[i];
        if c == '%' {
            if to - i < 3 {
                // fewer than two characters follow the escape
                proof {
                    assert(spec_unescape(rest) is None);
                }
                return None;
            }
            proof {
                assert(rest[1] == v@[i + 1]);
                assert(rest[2] == v@[i + 2]);
            }
            let h1 = hex_val(v[i + 1]);
            let h2 = hex_val(v[i + 2]);
            if h1 < 0 || h2 < 0 {
                proof {
                    assert(spec_unescape(rest) is None);
                }
                return None;
            }
            let b: i16 = (h1 as i16) * 16 + (h2 as i16);
            if b >= 128 {
                proof {
                    assert(spec_unescape(rest) is None);
                }
                return None;
            }
            let d = (b as u8) as char;
            out.push(d);
            proof {
                assert(rest.skip(3) =~= s.skip(i - from + 3));
                assert(seq![d] + spec_unescape(rest.skip(3)).unwrap() == spec_unescape(
                    rest,
                ).unwrap() || spec_unescape(rest.skip(3)) is None);
                if spec_unescape(s.skip(i - from + 3)) is Some {
                    let t = spec_unescape(s.skip(i - from + 3)).unwrap();
                    assert(spec_unescape(rest) == Some(seq![d] + t));
                    assert(out@ + t =~= (out@.drop_last() + (seq![d] + t)));
                }
            }
            i += 3;
        } else {
            out.push(c);
            proof {
                assert(rest.skip(1) =~= s.skip(i - from + 1));
                if spec_unescape(s.skip(i - from + 1)) is Some {
                    let t = spec_unescape(s.skip(i - from + 1)).unwrap();
                    assert(spec_unescape(rest) == Some(seq![c] + t));
                    assert(out@ + t =~= (out@.drop_last() + (seq![c] + t)));
                }
            }
            i += 1;
        }
    }
    proof {
        assert(s.skip(to - from) =~= Seq::<char>::empty());
        assert(out@ + Seq::<char>::empty() =~= out@);
    }
    Some(out)
}

/// The escape applied before a value is sent: spaces and the three
/// structural characters are percent-encoded, everything else passes through.
pub open spec fn esc_char(c: char) -> Seq<char> {
    if c == ' ' {
        seq!['%', '2', '0']
    } else if c == '%' {
        seq!['%', '2', '5']
    } else if c == '&' {
        seq!['%', '2', '6']
    } else if c == '=' {
        seq!['%', '3', 'D']
    } else {
        seq![c]
    }
}

pub open spec fn spec_escape(s: Seq<char>) -> Seq<char>
    decreases s.len(),
{
    if s.len() == 0 {
        Seq::empty()
    } else {
        spec_escape(s.drop_last()) + esc_char(s.last())
    }
}

/// Percent-encodes a value for the wire.
pub fn escape(s: &str) -> (r: String)
    ensures
        r@ == spec_escape(s@),
{
    let n = s.unicode_len();
    let mut out = String::new();
    let mut i: usize = 0;
    while i < n
        invariant
            n == s@.len(),
            i <= n,
            out@ == spec_escape(s@.take(i as int)),
        decreases n - i,
    {
        let c = s.get_char(i);
        proof {
            assert(s@.take(i + 1).drop_last() =~= s@.take(i as int));
            assert(s@.take(i + 1).last() == s@[i as int]);
        }
        if c == ' ' {
            out.append("%20");
            proof {
                reveal_strlit("%20");
                assert("%20"@ =~= esc_char(c));
            }
        } else if c == '%' {
            out.append("%25");
            proof {
                reveal_strlit("%25");
                assert("%25"@ =~= esc_char(c));
            }
        } else if c == '&' {
            out.append("%26");
            proof {
                reveal_strlit("%26");
                assert("%26"@ =~= esc_char(c));
            }
        } else if c == '=' {
            out.append("%3D");
            proof {
                reveal_strlit("%3D");
                assert("%3D"@ =~= esc_char(c));
            }
        } else {
            let piece = s.substring_char(i, i + 1);
            out.append(piece);
            proof {
                assert(piece@ =~= esc_char(c));
            }
        }
        i += 1;
    }
    proof {
        assert(s@.take(n as int) =~= s@);
    }
    out
}

// ---------------------------------------------------------------------------
// the recognized schema
// ---------------------------------------------------------------------------

/// Every parameter the protocol's query-string bodies may carry. Absent keys
/// stay `None` and are omitted from the structured output.
#[derive(Debug, PartialEq)]
pub struct EventQueryParams {
    pub pid: Option<i64>,
    pub gid: Option<i64>,
    pub level: Option<u8>,
    pub mute: Option<OnOrOff>,
    pub shuffle: Option<OnOrOff>,
    pub repeat: Option<Repeat>,
    pub un: Option<String>,
    pub text: Option<String>,
    pub eid: Option<u8>,
    pub cur_pos: Option<Milliseconds>,
    pub duration: Option<Milliseconds>,
    pub state: Option<PlayState>,
}

/// The mathematical model of `EventQueryParams`.
pub struct QsParams {
    pub pid: Option<i64>,
    pub gid: Option<i64>,
    pub level: Option<u8>,
    pub mute: Option<OnOrOff>,
    pub shuffle: Option<OnOrOff>,
    pub repeat: Option<Repeat>,
    pub un: Option<Seq<char>>,
    pub text: Option<Seq<char>>,
    pub eid: Option<u8>,
    pub cur_pos: Option<u64>,
    pub duration: Option<u64>,
    pub state: Option<PlayState>,
}

impl QsParams {
    pub open spec fn init() -> QsParams {
        QsParams {
            pid: None,
            gid: None,
            level: None,
            mute: None,
            shuffle: None,
            repeat: None,
            un: None,
            text: None,
            eid: None,
            cur_pos: None,
            duration: None,
            state: None,
        }
    }
}

impl View for EventQueryParams {
    type V = QsParams;

    open spec fn view(&self) -> QsParams {
        QsParams {
            pid: self.pid,
            gid: self.gid,
            level: self.level,
            mute: self.mute,
            shuffle: self.shuffle,
            repeat: self.repeat,
            un: match self.un {
                Some(s) => Some(s@),
                None => None,
            },
            text: match self.text {
                Some(s) => Some(s@),
                None => None,
            },
            eid: self.eid,
            cur_pos: self.cur_pos,
            duration: self.duration,
            state: self.state,
        }
    }
}

impl EventQueryParams {
    /// All keys absent.
    pub fn new() -> (r: EventQueryParams)
        ensures
            r@ == QsParams::init(),
    {
        EventQueryParams {
            pid: None,
            gid: None,
            level: None,
            mute: None,
            shuffle: None,
            repeat: None,
            un: None,
            text: None,
            eid: None,
            cur_pos: None,
            duration: None,
            state: None,
        }
    }
}

/// Applies one decoded `key=value` pair. A recognized key whose value does
/// not parse makes the pair malformed; an unrecognized key is ignored.
pub open spec fn spec_set_field(p: QsParams, k: Seq<char>, v: Seq<char>) -> Option<QsParams> {
    if k == "pid"@ {
        match spec_parse_i64(v) {
            Some(n) => Some(QsParams { pid: Some(n), ..p }),
            None => None,
        }
    } else if k == "gid"@ {
        match spec_parse_i64(v) {
            Some(n) => Some(QsParams { gid: Some(n), ..p }),
            None => None,
        }
    } else if k == "level"@ {
        match spec_parse_u8(v) {
            Some(n) => Some(QsParams { level: Some(n), ..p }),
            None => None,
        }
    } else if k == "mute"@ {
        match spec_on_or_off(v) {
            Some(x) => Some(QsParams { mute: Some(x), ..p }),
            None => None,
        }
    } else if k == "shuffle"@ {
        match spec_on_or_off(v) {
            Some(x) => Some(QsParams { shuffle: Some(x), ..p }),
            None => None,
        }
    } else if k == "repeat"@ {
        match spec_repeat(v) {
            Some(x) => Some(QsParams { repeat: Some(x), ..p }),
            None => None,
        }
    } else if k == "un"@ {
        Some(QsParams { un: Some(v), ..p })
    } else if k == "text"@ {
        Some(QsParams { text: Some(v), ..p })
    } else if k == "eid"@ {
        match spec_parse_u8(v) {
            Some(n) => Some(QsParams { eid: Some(n), ..p }),
            None => None,
        }
    } else if k == "cur_pos"@ {
        match spec_parse_u64(v) {
            Some(n) => if n <= i64::MAX as u64 {
                Some(QsParams { cur_pos: Some(n), ..p })
            } else {
                None
            },
            None => None,
        }
    } else if k == "duration"@ {
        match spec_parse_u64(v) {
            Some(n) => if n <= i64::MAX as u64 {
                Some(QsParams { duration: Some(n), ..p })
            } else {
                None
            },
            None => None,
        }
    } else if k == "state"@ {
        match spec_play_state(v) {
            Some(x) => Some(QsParams { state: Some(x), ..p }),
            None => None,
        }
    } else {
        Some(p)
    }
}

/// First occurrence of a character.
pub open spec fn spec_find(s: Seq<char>, c: char) -> Option<int>
    decreases s.len(),
{
    if s.len() == 0 {
        None
    } else if s[0] == c {
        Some(0)
    } else {
        match spec_find(s.skip(1), c) {
            Some(k) => Some(k + 1),
            None => None,
        }
    }
}

pub proof fn lemma_find_props(s: Seq<char>, c: char)
    ensures
        match spec_find(s, c) {
            Some(k) => 0 <= k < s.len() && s[k] == c && forall|j: int| 0 <= j < k ==> s[j] != c,
            None => forall|j: int| 0 <= j < s.len() ==> s[j] != c,
        },
    decreases s.len(),
{
    if s.len() > 0 && s[0] != c {
        lemma_find_props(s.skip(1), c);
        match spec_find(s.skip(1), c) {
            Some(k) => {
                assert(s.skip(1)[k] == s[k + 1]);
                assert forall|j: int| 0 <= j < k + 1 implies s[j] != c by {
                    if j > 0 {
                        assert(s.skip(1)[j - 1] == s[j]);
                    }
                }
            },
            None => {
                assert forall|j: int| 0 <= j < s.len() implies s[j] != c by {
                    if j > 0 {
                        assert(s.skip(1)[j - 1] == s[j]);
                    }
                }
            },
        }
    }
}

pub proof fn lemma_find_char_some(s: Seq<char>, c: char, k: int)
    requires
        0 <= k < s.len(),
        s[k] == c,
        forall|j: int| 0 <= j < k ==> s[j] != c,
    ensures
        spec_find(s, c) == Some(k),
    decreases k,
{
    if k == 0 {
    } else {
        assert(s[0] != c);
        lemma_find_char_some(s.skip(1), c, k - 1);
    }
}

pub proof fn lemma_find_char_none(s: Seq<char>, c: char)
    requires
        forall|j: int| 0 <= j < s.len() ==> s[j] != c,
    ensures
        spec_find(s, c) is None,
    decreases s.len(),
{
    if s.len() > 0 {
        lemma_find_char_none(s.skip(1), c);
    }
}

/// First occurrence of `c` in `v[from..to]`.
pub fn find_char_range(v: &Vec<char>, from: usize, to: usize, c: char) -> (r: Option<usize>)
    requires
        from <= to <= v@.len(),
    ensures
        match r {
            Some(k) => from <= k < to && spec_find(v@.subrange(from as int, to as int), c)
                == Some(k - from),
            None => spec_find(v@.subrange(from as int, to as int), c) is None,
        },
{
    let ghost s = v@.subrange(from as int, to as int);
    let mut i: usize = from;
    while i < to
        invariant
            from <= i <= to <= v@.len(),
            s == v@.subrange(from as int, to as int),
            forall|j: int| 0 <= j < i - from ==> s[j] != c,
        decreases to - i,
    {
        if v[i] == c {
            proof {
                lemma_find_char_some(s, c, i - from);
            }
            return Some(i);
        }
        i += 1;
    }
    proof {
        lemma_find_char_none(s, c);
    }
    None
}

/// One segment between `&` separators: it must contain `=`, both halves must
/// unescape, and the pair must satisfy the schema.
pub open spec fn spec_apply_seg(seg: Seq<char>, p: QsParams) -> Option<QsParams> {
    match spec_find(seg, '=') {
        None => None,
        Some(e) => match (spec_unescape(seg.take(e)), spec_unescape(seg.skip(e + 1))) {
            (Some(k), Some(v)) => spec_set_field(p, k, v),
            _ => None,
        },
    }
}

/// Splits on `&` and applies each pair left to right; a later duplicate key
/// overrides an earlier one.
pub open spec fn spec_parse_params(s: Seq<char>, p: QsParams) -> Option<QsParams>
    decreases s.len(),
    via spec_parse_params_decreases
{
    match spec_find(s, '&') {
        None => spec_apply_seg(s, p),
        Some(k) => match spec_apply_seg(s.take(k), p) {
            None => None,
            Some(p2) => spec_parse_params(s.skip(k + 1), p2),
        },
    }
}

#[via_fn]
proof fn spec_parse_params_decreases(s: Seq<char>, p: QsParams) {
    lemma_find_props(s, '&');
}

/// The whole body against the schema, starting from all-absent parameters.
pub open spec fn spec_qs_params(s: Seq<char>) -> Option<QsParams> {
    spec_parse_params(s, QsParams::init())
}

fn set_field(p: EventQueryParams, key: &Vec<char>, val: Vec<char>) -> (r: Option<
    EventQueryParams,
>)
    ensures
        match r {
            Some(q) => spec_set_field(p@, key@, val@) == Some(q@),
            None => spec_set_field(p@, key@, val@) is None,
        },
{
    let nk = key.len();
    let nv = val.len();
    proof {
        assert(key@.subrange(0, nk as int) =~= key@);
        assert(val@.subrange(0, nv as int) =~= val@);
    }
    if chars_eq_str(key, 0, nk, "pid") {
        match parse_i64_range(&val, 0, nv) {
            Some(n) => Some(EventQueryParams { pid: Some(n), ..p }),
            None => None,
        }
    } else if chars_eq_str(key, 0, nk, "gid") {
        match parse_i64_range(&val, 0, nv) {
            Some(n) => Some(EventQueryParams { gid: Some(n), ..p }),
            None => None,
        }
    } else if chars_eq_str(key, 0, nk, "level") {
        match parse_u8_range(&val, 0, nv) {
            Some(n) => Some(EventQueryParams { level: Some(n), ..p }),
            None => None,
        }
    } else if chars_eq_str(key, 0, nk, "mute") {
        match OnOrOff::from_chars(&val) {
            Some(x) => Some(EventQueryParams { mute: Some(x), ..p }),
            None => None,
        }
    } else if chars_eq_str(key, 0, nk, "shuffle") {
        match OnOrOff::from_chars(&val) {
            Some(x) => Some(EventQueryParams { shuffle: Some(x), ..p }),
            None => None,
        }
    } else if chars_eq_str(key, 0, nk, "repeat") {
        match Repeat::from_chars(&val) {
            Some(x) => Some(EventQueryParams { repeat: Some(x), ..p }),
            None => None,
        }
    } else if chars_eq_str(key, 0, nk, "un") {
        let s = chars_to_string(&val);
        Some(EventQueryParams { un: Some(s), ..p })
    } else if chars_eq_str(key, 0, nk, "text") {
        let s = chars_to_string(&val);
        Some(EventQueryParams { text: Some(s), ..p })
    } else if chars_eq_str(key, 0, nk, "eid") {
        match parse_u8_range(&val, 0, nv) {
            Some(n) => Some(EventQueryParams { eid: Some(n), ..p }),
            None => None,
        }
    } else if chars_eq_str(key, 0, nk, "cur_pos") {
        match parse_u64_range(&val, 0, nv) {
            Some(n) => if n <= 0x7fff_ffff_ffff_ffffu64 {
                Some(EventQueryParams { cur_pos: Some(n), ..p })
            } else {
                None
            },
            None => None,
        }
    } else if chars_eq_str(key, 0, nk, "duration") {
        match parse_u64_range(&val, 0, nv) {
            Some(n) => if n <= 0x7fff_ffff_ffff_ffffu64 {
                Some(EventQueryParams { duration: Some(n), ..p })
            } else {
                None
            },
            None => None,
        }
    } else if chars_eq_str(key, 0, nk, "state") {
        match PlayState::from_chars(&val) {
            Some(x) => Some(EventQueryParams { state: Some(x), ..p }),
            None => None,
        }
    } else {
        Some(p)
    }
}

fn apply_seg(v: &Vec<char>, from: usize, to: usize, p: EventQueryParams) -> (r: Option<
    EventQueryParams,
>)
    requires
        from <= to <= v@.len(),
    ensures
        match r {
            Some(q) => spec_apply_seg(v@.subrange(from as int, to as int), p@) == Some(q@),
            None => spec_apply_seg(v@.subrange(from as int, to as int), p@) is None,
        },
{
    let ghost seg = v@.subrange(from as int, to as int);
    match find_char_range(v, from, to, '=') {
        None => None,
        Some(e) => {
            proof {
                assert(seg.take(e - from) =~= v@.subrange(from as int, e as int));
                assert(seg.skip(e - from + 1) =~= v@.subrange(e + 1, to as int));
            }
            let key = match unescape_range(v, from, e) {
                Some(k) => k,
                None => {
                    return None;
                },
            };
            let val = match unescape_range(v, e + 1, to) {
                Some(x) => x,
                None => {
                    return None;
                },
            };
            set_field(p, &key, val)
        },
    }
}

/// Parses a body against the recognized schema; `None` means the body is
/// malformed and the caller must fall back to the opaque-string result.
pub fn qs_to_params(message: &str) -> (r: Option<EventQueryParams>)
    ensures
        match r {
            Some(p) => spec_qs_params(message@) == Some(p@),
            None => spec_qs_params(message@) is None,
        },
{
    let chars = str_to_chars(message);
    let n = chars.len();
    let mut p = EventQueryParams::new();
    let mut pos: usize = 0;
    proof {
        assert(chars@.skip(0) =~= chars@);
    }
    loop
        invariant
            pos <= n,
            n == chars@.len(),
            chars@ == message@,
            spec_parse_params(chars@.skip(pos as int), p@) == spec_qs_params(message@),
        decreases n - pos,
    {
        let ghost rest = chars@.skip(pos as int);
        match find_char_range(&chars, pos, n, '&') {
            None => {
                proof {
                    assert(rest =~= chars@.subrange(pos as int, n as int));
                }
                return match apply_seg(&chars, pos, n, p) {
                    Some(q) => Some(q),
                    None => None,
                };
            },
            Some(k) => {
                proof {
                    assert(rest =~= chars@.subrange(pos as int, n as int));
                    assert(rest.take(k - pos) =~= chars@.subrange(pos as int, k as int));
                }
                match apply_seg(&chars, pos, k, p) {
                    None => {
                        return None;
                    },
                    Some(q) => {
                        proof {
                            assert(rest.skip(k - pos + 1) =~= chars@.skip(k + 1));
                        }
                        p = q;
                        pos = k + 1;
                    },
                }
            },
        }
    }
}

// ---------------------------------------------------------------------------
// structured output
// ---------------------------------------------------------------------------

/// Model of one field value in the decoded object.
pub enum QsFieldV {
    FInt(i64),
    FStr(Seq<char>),
}

pub open spec fn ents_i64(key: Seq<char>, o: Option<i64>) -> Seq<(Seq<char>, QsFieldV)> {
    match o {
        Some(n) => seq![(key, QsFieldV::FInt(n))],
        None => seq![],
    }
}

pub open spec fn ents_u8(key: Seq<char>, o: Option<u8>) -> Seq<(Seq<char>, QsFieldV)> {
    match o {
        Some(n) => seq![(key, QsFieldV::FInt(n as i64))],
        None => seq![],
    }
}

pub open spec fn ents_u64(key: Seq<char>, o: Option<u64>) -> Seq<(Seq<char>, QsFieldV)> {
    match o {
        Some(n) => seq![(key, QsFieldV::FInt(n as i64))],
        None => seq![],
    }
}

pub open spec fn ents_str(key: Seq<char>, o: Option<Seq<char>>) -> Seq<(Seq<char>, QsFieldV)> {
    match o {
        Some(t) => seq![(key, QsFieldV::FStr(t))],
        None => seq![],
    }
}

pub open spec fn ents_onoff(key: Seq<char>, o: Option<OnOrOff>) -> Seq<(Seq<char>, QsFieldV)> {
    match o {
        Some(x) => seq![(key, QsFieldV::FStr(x.wire_view()))],
        None => seq![],
    }
}

pub open spec fn ents_repeat(key: Seq<char>, o: Option<Repeat>) -> Seq<(Seq<char>, QsFieldV)> {
    match o {
        Some(x) => seq![(key, QsFieldV::FStr(x.wire_view()))],
        None => seq![],
    }
}

pub open spec fn ents_state(key: Seq<char>, o: Option<PlayState>) -> Seq<(Seq<char>, QsFieldV)> {
    match o {
        Some(x) => seq![(key, QsFieldV::FStr(x.wire_view()))],
        None => seq![],
    }
}

/// The entries of the structured object for a set of parameters, in schema
/// order, absent fields omitted.
pub open spec fn spec_params_entries(p: QsParams) -> Seq<(Seq<char>, QsFieldV)> {
    ents_i64("pid"@, p.pid) + ents_i64("gid"@, p.gid) + ents_u8("level"@, p.level) + ents_onoff(
        "mute"@,
        p.mute,
    ) + ents_onoff("shuffle"@, p.shuffle) + ents_repeat("repeat"@, p.repeat) + ents_str(
        "un"@,
        p.un,
    ) + ents_str("text"@, p.text) + ents_u8("eid"@, p.eid) + ents_u64("cur_pos"@, p.cur_pos)
        + ents_u64("duration"@, p.duration) + ents_state("state"@, p.state)
}

pub open spec fn field_matches(v: JsonValue, f: QsFieldV) -> bool {
    match f {
        QsFieldV::FInt(n) => v == JsonValue::Int(n),
        QsFieldV::FStr(s) => match v {
            JsonValue::Text(t) => t@ == s,
            _ => false,
        },
    }
}

pub open spec fn entries_match(
    es: Seq<(String, JsonValue)>,
    ms: Seq<(Seq<char>, QsFieldV)>,
) -> bool {
    es.len() == ms.len() && forall|j: int|
        0 <= j < es.len() ==> (#[trigger] es[j]).0@ == ms[j].0 && field_matches(es[j].1, ms[j].1)
}

/// The decoded object for a set of parameters.
pub open spec fn obj_matches_params(r: JsonValue, p: QsParams) -> bool {
    match r {
        JsonValue::Object(es) => entries_match(es@, spec_params_entries(p)),
        _ => false,
    }
}

proof fn lemma_entries_match_push(
    es: Seq<(String, JsonValue)>,
    ms: Seq<(Seq<char>, QsFieldV)>,
    e: (String, JsonValue),
    m: (Seq<char>, QsFieldV),
)
    requires
        entries_match(es, ms),
        e.0@ == m.0,
        field_matches(e.1, m.1),
    ensures
        entries_match(es.push(e), ms.push(m)),
{
    assert forall|j: int| 0 <= j < es.push(e).len() implies (#[trigger] es.push(e)[j]).0@
        == ms.push(m)[j].0 && field_matches(es.push(e)[j].1, ms.push(m)[j].1) by {
        if j < es.len() {
            assert(es.push(e)[j] == es[j]);
            assert(ms.push(m)[j] == ms[j]);
        } else {
            assert(es.push(e)[j] == e);
            assert(ms.push(m)[j] == m);
        }
    }
}


fn add_i64_field(
    out: &mut Vec<(String, JsonValue)>,
    key: &'static str,
    o: Option<i64>,
    Ghost(ms): Ghost<Seq<(Seq<char>, QsFieldV)>>,
)
    requires
        entries_match(old(out)@, ms),
    ensures
        entries_match(final(out)@, ms + ents_i64(key@, o)),
{
    if let Some(n) = o {
        let e = (key.to_owned(), JsonValue::Int(n));
        proof {
            lemma_entries_match_push(out@, ms, e, (key@, QsFieldV::FInt(n)));
            assert(ms + ents_i64(key@, o) =~= ms.push((key@, QsFieldV::FInt(n))));
        }
        out.push(e);
    } else {
        proof {
            assert(ms + ents_i64(key@, o) =~= ms);
        }
    }
}

fn add_u8_field(
    out: &mut Vec<(String, JsonValue)>,
    key: &'static str,
    o: Option<u8>,
    Ghost(ms): Ghost<Seq<(Seq<char>, QsFieldV)>>,
)
    requires
        entries_match(old(out)@, ms),
    ensures
        entries_match(final(out)@, ms + ents_u8(key@, o)),
{
    if let Some(n) = o {
        let e = (key.to_owned(), JsonValue::Int(n as i64));
        proof {
            lemma_entries_match_push(out@, ms, e, (key@, QsFieldV::FInt(n as i64)));
            assert(ms + ents_u8(key@, o) =~= ms.push((key@, QsFieldV::FInt(n as i64))));
        }
        out.push(e);
    } else {
        proof {
            assert(ms + ents_u8(key@, o) =~= ms);
        }
    }
}

fn add_u64_field(
    out: &mut Vec<(String, JsonValue)>,
    key: &'static str,
    o: Option<u64>,
    Ghost(ms): Ghost<Seq<(Seq<char>, QsFieldV)>>,
)
    requires
        entries_match(old(out)@, ms),
    ensures
        entries_match(final(out)@, ms + ents_u64(key@, o)),
{
    if let Some(n) = o {
        let e = (key.to_owned(), JsonValue::Int(n as i64));
        proof {
            lemma_entries_match_push(out@, ms, e, (key@, QsFieldV::FInt(n as i64)));
            assert(ms + ents_u64(key@, o) =~= ms.push((key@, QsFieldV::FInt(n as i64))));
        }
        out.push(e);
    } else {
        proof {
            assert(ms + ents_u64(key@, o) =~= ms);
        }
    }
}

fn add_str_field(
    out: &mut Vec<(String, JsonValue)>,
    key: &'static str,
    o: Option<String>,
    Ghost(ms): Ghost<Seq<(Seq<char>, QsFieldV)>>,
)
    requires
        entries_match(old(out)@, ms),
    ensures
        entries_match(
            final(out)@,
            ms + ents_str(
                key@,
                match o {
                    Some(u) => Some(u@),
                    None => None,
                },
            ),
        ),
{
    let ghost ov: Option<Seq<char>> = match &o {
        Some(u) => Some(u@),
        None => None,
    };
    if let Some(u) = o {
        let ghost uv = u@;
        let e = (key.to_owned(), JsonValue::Text(u));
        proof {
            lemma_entries_match_push(out@, ms, e, (key@, QsFieldV::FStr(uv)));
            assert(ms + ents_str(key@, ov) =~= ms.push((key@, QsFieldV::FStr(uv))));
        }
        out.push(e);
    } else {
        proof {
            assert(ms + ents_str(key@, ov) =~= ms);
        }
    }
}

fn add_onoff_field(
    out: &mut Vec<(String, JsonValue)>,
    key: &'static str,
    o: Option<OnOrOff>,
    Ghost(ms): Ghost<Seq<(Seq<char>, QsFieldV)>>,
)
    requires
        entries_match(old(out)@, ms),
    ensures
        entries_match(final(out)@, ms + ents_onoff(key@, o)),
{
    if let Some(x) = o {
        let e = (key.to_owned(), JsonValue::Text(x.as_str().to_owned()));
        proof {
            lemma_entries_match_push(out@, ms, e, (key@, QsFieldV::FStr(x.wire_view())));
            assert(ms + ents_onoff(key@, o) =~= ms.push((key@, QsFieldV::FStr(x.wire_view()))));
        }
        out.push(e);
    } else {
        proof {
            assert(ms + ents_onoff(key@, o) =~= ms);
        }
    }
}

fn add_repeat_field(
    out: &mut Vec<(String, JsonValue)>,
    key: &'static str,
    o: Option<Repeat>,
    Ghost(ms): Ghost<Seq<(Seq<char>, QsFieldV)>>,
)
    requires
        entries_match(old(out)@, ms),
    ensures
        entries_match(final(out)@, ms + ents_repeat(key@, o)),
{
    if let Some(x) = o {
        let e = (key.to_owned(), JsonValue::Text(x.as_str().to_owned()));
        proof {
            lemma_entries_match_push(out@, ms, e, (key@, QsFieldV::FStr(x.wire_view())));
            assert(ms + ents_repeat(key@, o) =~= ms.push((key@, QsFieldV::FStr(x.wire_view()))));
        }
        out.push(e);
    } else {
        proof {
            assert(ms + ents_repeat(key@, o) =~= ms);
        }
    }
}

fn add_state_field(
    out: &mut Vec<(String, JsonValue)>,
    key: &'static str,
    o: Option<PlayState>,
    Ghost(ms): Ghost<Seq<(Seq<char>, QsFieldV)>>,
)
    requires
        entries_match(old(out)@, ms),
    ensures
        entries_match(final(out)@, ms + ents_state(key@, o)),
{
    if let Some(x) = o {
        let e = (key.to_owned(), JsonValue::Text(x.as_str().to_owned()));
        proof {
            lemma_entries_match_push(out@, ms, e, (key@, QsFieldV::FStr(x.wire_view())));
            assert(ms + ents_state(key@, o) =~= ms.push((key@, QsFieldV::FStr(x.wire_view()))));
        }
        out.push(e);
    } else {
        proof {
            assert(ms + ents_state(key@, o) =~= ms);
        }
    }
}

/// Builds the structured object for the parameters, absent fields omitted.
pub fn params_to_json(p: EventQueryParams) -> (r: JsonValue)
    ensures
        obj_matches_params(r, p@),
{
    let ghost pv = p@;
    let EventQueryParams {
        pid,
        gid,
        level,
        mute,
        shuffle,
        repeat,
        un,
        text,
        eid,
        cur_pos,
        duration,
        state,
    } = p;
    let mut out: Vec<(String, JsonValue)> = Vec::new();
    let ghost mut ms: Seq<(Seq<char>, QsFieldV)> = Seq::empty();
    proof {
        assert(entries_match(out@, ms));
    }

    add_i64_field(&mut out, "pid", pid, Ghost(ms));
    proof {
        ms = ms + ents_i64("pid"@, pv.pid);
    }
    add_i64_field(&mut out, "gid", gid, Ghost(ms));
    proof {
        ms = ms + ents_i64("gid"@, pv.gid);
    }
    add_u8_field(&mut out, "level", level, Ghost(ms));
    proof {
        ms = ms + ents_u8("level"@, pv.level);
    }
    add_onoff_field(&mut out, "mute", mute, Ghost(ms));
    proof {
        ms = ms + ents_onoff("mute"@, pv.mute);
    }
    add_onoff_field(&mut out, "shuffle", shuffle, Ghost(ms));
    proof {
        ms = ms + ents_onoff("shuffle"@, pv.shuffle);
    }
    add_repeat_field(&mut out, "repeat", repeat, Ghost(ms));
    proof {
        ms = ms + ents_repeat("repeat"@, pv.repeat);
    }
    add_str_field(&mut out, "un", un, Ghost(ms));
    proof {
        ms = ms + ents_str("un"@, pv.un);
    }
    add_str_field(&mut out, "text", text, Ghost(ms));
    proof {
        ms = ms + ents_str("text"@, pv.text);
    }
    add_u8_field(&mut out, "eid", eid, Ghost(ms));
    proof {
        ms = ms + ents_u8("eid"@, pv.eid);
    }
    add_u64_field(&mut out, "cur_pos", cur_pos, Ghost(ms));
    proof {
        ms = ms + ents_u64("cur_pos"@, pv.cur_pos);
    }
    add_u64_field(&mut out, "duration", duration, Ghost(ms));
    proof {
        ms = ms + ents_u64("duration"@, pv.duration);
    }
    add_state_field(&mut out, "state", state, Ghost(ms));
    proof {
        ms = ms + ents_state("state"@, pv.state);
    }
    proof {
        assert(ms == spec_params_entries(pv));
    }
    JsonValue::Object(out)
}

/// What `qs_to_json` promises of its result for a given body.
pub open spec fn qs_json_matches(r: JsonValue, s: Seq<char>) -> bool {
    if s.len() == 0 {
        r == JsonValue::Null
    } else {
        match spec_qs_params(s) {
            Some(p) => obj_matches_params(r, p),
            None => match r {
                JsonValue::Text(t) => t@ == s,
                _ => false,
            },
        }
    }
}

/// Turns a query-string message body into a structured value. An empty body
/// is null; a body the schema rejects comes back as the raw string.
pub fn qs_to_json(message: &str) -> (r: JsonValue)
    ensures
        qs_json_matches(r, message@),
{
    if message.unicode_len() == 0 {
        return JsonValue::Null;
    }
    match qs_to_params(message) {
        Some(p) => params_to_json(p),
        None => JsonValue::Text(message.to_owned()),
    }
}

// ---------------------------------------------------------------------------
// encoding
// ---------------------------------------------------------------------------

/// One `key=value` segment.
pub open spec fn seg_of(key: Seq<char>, val: Seq<char>) -> Seq<char> {
    key + seq!['='] + val
}

pub open spec fn segs_i64(key: Seq<char>, o: Option<i64>) -> Seq<Seq<char>> {
    match o {
        Some(n) => seq![seg_of(key, spec_i64_str(n))],
        None => seq![],
    }
}

pub open spec fn segs_u8(key: Seq<char>, o: Option<u8>) -> Seq<Seq<char>> {
    match o {
        Some(n) => seq![seg_of(key, spec_u64_digits(n as u64))],
        None => seq![],
    }
}

pub open spec fn segs_u64(key: Seq<char>, o: Option<u64>) -> Seq<Seq<char>> {
    match o {
        Some(n) => seq![seg_of(key, spec_u64_digits(n))],
        None => seq![],
    }
}

pub open spec fn segs_str(key: Seq<char>, o: Option<Seq<char>>) -> Seq<Seq<char>> {
    match o {
        Some(t) => seq![seg_of(key, spec_escape(t))],
        None => seq![],
    }
}

pub open spec fn segs_onoff(key: Seq<char>, o: Option<OnOrOff>) -> Seq<Seq<char>> {
    match o {
        Some(x) => seq![seg_of(key, x.wire_view())],
        None => seq![],
    }
}

pub open spec fn segs_repeat(key: Seq<char>, o: Option<Repeat>) -> Seq<Seq<char>> {
    match o {
        Some(x) => seq![seg_of(key, x.wire_view())],
        None => seq![],
    }
}

pub open spec fn segs_state(key: Seq<char>, o: Option<PlayState>) -> Seq<Seq<char>> {
    match o {
        Some(x) => seq![seg_of(key, x.wire_view())],
        None => seq![],
    }
}

/// The segments a set of parameters encodes to, in schema order.
pub open spec fn spec_param_segs(p: QsParams) -> Seq<Seq<char>> {
    segs_i64("pid"@, p.pid) + segs_i64("gid"@, p.gid) + segs_u8("level"@, p.level) + segs_onoff(
        "mute"@,
        p.mute,
    ) + segs_onoff("shuffle"@, p.shuffle) + segs_repeat("repeat"@, p.repeat) + segs_str(
        "un"@,
        p.un,
    ) + segs_str("text"@, p.text) + segs_u8("eid"@, p.eid) + segs_u64("cur_pos"@, p.cur_pos)
        + segs_u64("duration"@, p.duration) + segs_state("state"@, p.state)
}

/// Joins segments with `&`.
pub open spec fn spec_join(ss: Seq<Seq<char>>) -> Seq<char>
    decreases ss.len(),
{
    if ss.len() == 0 {
        Seq::empty()
    } else if ss.len() == 1 {
        ss[0]
    } else {
        ss[0] + seq!['&'] + spec_join(ss.skip(1))
    }
}

/// The query string a set of parameters encodes to.
pub open spec fn spec_encode_params(p: QsParams) -> Seq<char> {
    spec_join(spec_param_segs(p))
}

pub proof fn lemma_join_push(ss: Seq<Seq<char>>, s: Seq<char>)
    ensures
        spec_join(ss.push(s)) == if ss.len() == 0 {
            s
        } else {
            spec_join(ss) + seq!['&'] + s
        },
    decreases ss.len(),
{
    if ss.len() == 0 {
        assert(ss.push(s)[0] == s);
    } else if ss.len() == 1 {
        assert(ss.push(s)[0] == ss[0]);
        assert(ss.push(s).skip(1) =~= ss.skip(1).push(s));
        lemma_join_push(ss.skip(1), s);
        assert(spec_join(ss.skip(1).push(s)) == s);
    } else {
        assert(ss.push(s)[0] == ss[0]);
        assert(ss.push(s).skip(1) =~= ss.skip(1).push(s));
        lemma_join_push(ss.skip(1), s);
        assert(ss[0] + seq!['&'] + (spec_join(ss.skip(1)) + seq!['&'] + s) =~= (ss[0] + seq!['&']
            + spec_join(ss.skip(1))) + seq!['&'] + s);
    }
}


fn emit_sep_key(out: &mut String, first: bool, key: &'static str, Ghost(ss): Ghost<Seq<Seq<char>>>)
    requires
        old(out)@ == spec_join(ss),
        first == (ss.len() == 0),
    ensures
        final(out)@ == (if ss.len() == 0 {
            key@
        } else {
            spec_join(ss) + seq!['&'] + key@
        }) + seq!['='],
{
    if !first {
        out.append("&");
    }
    out.append(key);
    out.append("=");
    proof {
        reveal_strlit("&");
        reveal_strlit("=");
        if ss.len() == 0 {
            assert(out@ =~= key@ + seq!['=']);
        } else {
            assert(out@ =~= (spec_join(ss) + seq!['&'] + key@) + seq!['=']);
        }
    }
}

fn emit_val(
    out: &mut String,
    val: &str,
    key: &'static str,
    Ghost(ss): Ghost<Seq<Seq<char>>>,
)
    requires
        old(out)@ == (if ss.len() == 0 {
            key@
        } else {
            spec_join(ss) + seq!['&'] + key@
        }) + seq!['='],
    ensures
        final(out)@ == spec_join(ss.push(seg_of(key@, val@))),
{
    out.append(val);
    proof {
        lemma_join_push(ss, seg_of(key@, val@));
        if ss.len() == 0 {
            assert(out@ =~= seg_of(key@, val@));
        } else {
            assert(out@ =~= spec_join(ss) + seq!['&'] + seg_of(key@, val@));
        }
    }
}

fn emit_i64(out: &mut String, first: &mut bool, key: &'static str, o: Option<i64>, Ghost(ss): Ghost<Seq<Seq<char>>>)
    requires
        old(out)@ == spec_join(ss),
        *old(first) == (ss.len() == 0),
    ensures
        final(out)@ == spec_join(ss + segs_i64(key@, o)),
        *final(first) == ((ss + segs_i64(key@, o)).len() == 0),
{
    if let Some(n) = o {
        emit_sep_key(out, *first, key, Ghost(ss));
        let val = crate::text::i64_to_string(n);
        emit_val(out, val.as_str(), key, Ghost(ss));
        *first = false;
        proof {
            assert(ss + segs_i64(key@, o) =~= ss.push(seg_of(key@, spec_i64_str(n))));
        }
    } else {
        proof {
            assert(ss + segs_i64(key@, o) =~= ss);
        }
    }
}

fn emit_u8(out: &mut String, first: &mut bool, key: &'static str, o: Option<u8>, Ghost(ss): Ghost<Seq<Seq<char>>>)
    requires
        old(out)@ == spec_join(ss),
        *old(first) == (ss.len() == 0),
    ensures
        final(out)@ == spec_join(ss + segs_u8(key@, o)),
        *final(first) == ((ss + segs_u8(key@, o)).len() == 0),
{
    if let Some(n) = o {
        emit_sep_key(out, *first, key, Ghost(ss));
        let val = u64_to_string(n as u64);
        emit_val(out, val.as_str(), key, Ghost(ss));
        *first = false;
        proof {
            assert(ss + segs_u8(key@, o) =~= ss.push(seg_of(key@, spec_u64_digits(n as u64))));
        }
    } else {
        proof {
            assert(ss + segs_u8(key@, o) =~= ss);
        }
    }
}

fn emit_u64(out: &mut String, first: &mut bool, key: &'static str, o: Option<u64>, Ghost(ss): Ghost<Seq<Seq<char>>>)
    requires
        old(out)@ == spec_join(ss),
        *old(first) == (ss.len() == 0),
    ensures
        final(out)@ == spec_join(ss + segs_u64(key@, o)),
        *final(first) == ((ss + segs_u64(key@, o)).len() == 0),
{
    if let Some(n) = o {
        emit_sep_key(out, *first, key, Ghost(ss));
        let val = u64_to_string(n);
        emit_val(out, val.as_str(), key, Ghost(ss));
        *first = false;
        proof {
            assert(ss + segs_u64(key@, o) =~= ss.push(seg_of(key@, spec_u64_digits(n))));
        }
    } else {
        proof {
            assert(ss + segs_u64(key@, o) =~= ss);
        }
    }
}

fn emit_str(out: &mut String, first: &mut bool, key: &'static str, o: &Option<String>, Ghost(ss): Ghost<Seq<Seq<char>>>)
    requires
        old(out)@ == spec_join(ss),
        *old(first) == (ss.len() == 0),
    ensures
        final(out)@ == spec_join(
            ss + segs_str(
                key@,
                match o {
                    Some(u) => Some(u@),
                    None => None,
                },
            ),
        ),
        *final(first) == ((ss + segs_str(
            key@,
            match o {
                Some(u) => Some(u@),
                None => None,
            },
        )).len() == 0),
{
    let ghost ov: Option<Seq<char>> = match o {
        Some(u) => Some(u@),
        None => None,
    };
    if let Some(u) = o {
        emit_sep_key(out, *first, key, Ghost(ss));
        let val = escape(u.as_str());
        emit_val(out, val.as_str(), key, Ghost(ss));
        *first = false;
        proof {
            assert(ss + segs_str(key@, ov) =~= ss.push(seg_of(key@, spec_escape(u@))));
        }
    } else {
        proof {
            assert(ss + segs_str(key@, ov) =~= ss);
        }
    }
}

fn emit_onoff(out: &mut String, first: &mut bool, key: &'static str, o: Option<OnOrOff>, Ghost(ss): Ghost<Seq<Seq<char>>>)
    requires
        old(out)@ == spec_join(ss),
        *old(first) == (ss.len() == 0),
    ensures
        final(out)@ == spec_join(ss + segs_onoff(key@, o)),
        *final(first) == ((ss + segs_onoff(key@, o)).len() == 0),
{
    if let Some(x) = o {
        emit_sep_key(out, *first, key, Ghost(ss));
        emit_val(out, x.as_str(), key, Ghost(ss));
        *first = false;
        proof {
            assert(ss + segs_onoff(key@, o) =~= ss.push(seg_of(key@, x.wire_view())));
        }
    } else {
        proof {
            assert(ss + segs_onoff(key@, o) =~= ss);
        }
    }
}

fn emit_repeat(out: &mut String, first: &mut bool, key: &'static str, o: Option<Repeat>, Ghost(ss): Ghost<Seq<Seq<char>>>)
    requires
        old(out)@ == spec_join(ss),
        *old(first) == (ss.len() == 0),
    ensures
        final(out)@ == spec_join(ss + segs_repeat(key@, o)),
        *final(first) == ((ss + segs_repeat(key@, o)).len() == 0),
{
    if let Some(x) = o {
        emit_sep_key(out, *first, key, Ghost(ss));
        emit_val(out, x.as_str(), key, Ghost(ss));
        *first = false;
        proof {
            assert(ss + segs_repeat(key@, o) =~= ss.push(seg_of(key@, x.wire_view())));
        }
    } else {
        proof {
            assert(ss + segs_repeat(key@, o) =~= ss);
        }
    }
}

fn emit_state(out: &mut String, first: &mut bool, key: &'static str, o: Option<PlayState>, Ghost(ss): Ghost<Seq<Seq<char>>>)
    requires
        old(out)@ == spec_join(ss),
        *old(first) == (ss.len() == 0),
    ensures
        final(out)@ == spec_join(ss + segs_state(key@, o)),
        *final(first) == ((ss + segs_state(key@, o)).len() == 0),
{
    if let Some(x) = o {
        emit_sep_key(out, *first, key, Ghost(ss));
        emit_val(out, x.as_str(), key, Ghost(ss));
        *first = false;
        proof {
            assert(ss + segs_state(key@, o) =~= ss.push(seg_of(key@, x.wire_view())));
        }
    } else {
        proof {
            assert(ss + segs_state(key@, o) =~= ss);
        }
    }
}

/// Encodes parameters back to a query string, present fields in schema order.
pub fn params_to_qs(p: &EventQueryParams) -> (r: String)
    ensures
        r@ == spec_encode_params(p@),
{
    let mut out = String::new();
    let mut first: bool = true;
    let ghost mut ss: Seq<Seq<char>> = Seq::empty();

    emit_i64(&mut out, &mut first, "pid", p.pid, Ghost(ss));
    proof {
        ss = ss + segs_i64("pid"@, p@.pid);
    }
    emit_i64(&mut out, &mut first, "gid", p.gid, Ghost(ss));
    proof {
        ss = ss + segs_i64("gid"@, p@.gid);
    }
    emit_u8(&mut out, &mut first, "level", p.level, Ghost(ss));
    proof {
        ss = ss + segs_u8("level"@, p@.level);
    }
    emit_onoff(&mut out, &mut first, "mute", p.mute, Ghost(ss));
    proof {
        ss = ss + segs_onoff("mute"@, p@.mute);
    }
    emit_onoff(&mut out, &mut first, "shuffle", p.shuffle, Ghost(ss));
    proof {
        ss = ss + segs_onoff("shuffle"@, p@.shuffle);
    }
    emit_repeat(&mut out, &mut first, "repeat", p.repeat, Ghost(ss));
    proof {
        ss = ss + segs_repeat("repeat"@, p@.repeat);
    }
    emit_str(&mut out, &mut first, "un", &p.un, Ghost(ss));
    proof {
        ss = ss + segs_str("un"@, p@.un);
    }
    emit_str(&mut out, &mut first, "text", &p.text, Ghost(ss));
    proof {
        ss = ss + segs_str("text"@, p@.text);
    }
    emit_u8(&mut out, &mut first, "eid", p.eid, Ghost(ss));
    proof {
        ss = ss + segs_u8("eid"@, p@.eid);
    }
    emit_u64(&mut out, &mut first, "cur_pos", p.cur_pos, Ghost(ss));
    proof {
        ss = ss + segs_u64("cur_pos"@, p@.cur_pos);
    }
    emit_u64(&mut out, &mut first, "duration", p.duration, Ghost(ss));
    proof {
        ss = ss + segs_u64("duration"@, p@.duration);
    }
    emit_state(&mut out, &mut first, "state", p.state, Ghost(ss));
    proof {
        ss = ss + segs_state("state"@, p@.state);
        assert(ss == spec_param_segs(p@));
    }
    out
}

// ---------------------------------------------------------------------------
// the round-trip law
// ---------------------------------------------------------------------------

/// Applying a list of segments left to right.
pub open spec fn spec_chain(ss: Seq<Seq<char>>, p: QsParams) -> Option<QsParams>
    decreases ss.len(),
{
    if ss.len() == 0 {
        Some(p)
    } else {
        match spec_apply_seg(ss[0], p) {
            None => None,
            Some(q) => spec_chain(ss.skip(1), q),
        }
    }
}

proof fn lemma_chain_append(a: Seq<Seq<char>>, b: Seq<Seq<char>>, q: QsParams)
    ensures
        spec_chain(a + b, q) == match spec_chain(a, q) {
            None => None,
            Some(p2) => spec_chain(b, p2),
        },
    decreases a.len(),
{
    if a.len() == 0 {
        assert(a + b =~= b);
    } else {
        assert((a + b)[0] == a[0]);
        assert((a + b).skip(1) =~= a.skip(1) + b);
        match spec_apply_seg(a[0], q) {
            None => {},
            Some(p2) => {
                lemma_chain_append(a.skip(1), b, p2);
            },
        }
    }
}

/// Splitting a joined list at the separators recovers the segments, provided
/// no segment contains the separator.
proof fn lemma_parse_join(ss: Seq<Seq<char>>, p: QsParams)
    requires
        ss.len() >= 1,
        forall|j: int, i: int|
            0 <= j < ss.len() && 0 <= i < ss[j].len() ==> (#[trigger] ss[j][i]) != '&',
    ensures
        spec_parse_params(spec_join(ss), p) == spec_chain(ss, p),
    decreases ss.len(),
{
    if ss.len() == 1 {
        assert(spec_join(ss) == ss[0]);
        assert(forall|i: int| 0 <= i < ss[0].len() ==> (#[trigger] ss[0][i]) != '&');
        lemma_find_char_none(ss[0], '&');
        match spec_apply_seg(ss[0], p) {
            None => {},
            Some(q) => {
                assert(spec_chain(ss.skip(1), q) == Some(q));
            },
        }
    } else {
        let s0 = ss[0];
        let rest = seq!['&'] + spec_join(ss.skip(1));
        assert(spec_join(ss) == s0 + rest);
        assert(forall|i: int| 0 <= i < s0.len() ==> (#[trigger] s0[i]) != '&');
        assert(rest[0] == '&');
        lemma_find_char_some(rest, '&', 0);
        lemma_find_concat(s0, rest, '&');
        assert(spec_find(s0 + rest, '&') == Some(s0.len() as int));
        assert((s0 + rest).take(s0.len() as int) =~= s0);
        assert((s0 + rest).skip(s0.len() as int + 1) =~= spec_join(ss.skip(1)));
        match spec_apply_seg(s0, p) {
            None => {},
            Some(q) => {
                assert forall|j: int, i: int|
                    0 <= j < ss.skip(1).len() && 0 <= i < ss.skip(1)[j].len() implies (
                #[trigger] ss.skip(1)[j][i]) != '&' by {
                    assert(ss.skip(1)[j] == ss[j + 1]);
                }
                lemma_parse_join(ss.skip(1), q);
            },
        }
    }
}

proof fn lemma_find_concat(a: Seq<char>, b: Seq<char>, c: char)
    requires
        forall|i: int| 0 <= i < a.len() ==> (#[trigger] a[i]) != c,
    ensures
        spec_find(a + b, c) == match spec_find(b, c) {
            Some(k) => Some(a.len() + k),
            None => None,
        },
{
    lemma_find_props(b, c);
    match spec_find(b, c) {
        Some(k) => {
            assert((a + b)[a.len() + k] == b[k]);
            assert forall|j: int| 0 <= j < a.len() + k implies (#[trigger] (a + b)[j]) != c by {
                if j < a.len() {
                    assert((a + b)[j] == a[j]);
                } else {
                    assert((a + b)[j] == b[j - a.len()]);
                }
            }
            lemma_find_char_some(a + b, c, a.len() + k);
        },
        None => {
            assert forall|j: int| 0 <= j < (a + b).len() implies (#[trigger] (a + b)[j]) != c by {
                if j < a.len() {
                    assert((a + b)[j] == a[j]);
                } else {
                    assert((a + b)[j] == b[j - a.len()]);
                }
            }
            lemma_find_char_none(a + b, c);
        },
    }
}

proof fn lemma_unescape_no_pct(s: Seq<char>)
    requires
        forall|i: int| 0 <= i < s.len() ==> (#[trigger] s[i]) != '%',
    ensures
        spec_unescape(s) == Some(s),
    decreases s.len(),
{
    if s.len() == 0 {
        assert(s =~= Seq::<char>::empty());
    } else {
        assert forall|i: int| 0 <= i < s.skip(1).len() implies (#[trigger] s.skip(1)[i]) != '%' by {
            assert(s.skip(1)[i] == s[i + 1]);
        }
        lemma_unescape_no_pct(s.skip(1));
        assert(seq![s[0]] + s.skip(1) =~= s);
    }
}

proof fn lemma_escape_head(s: Seq<char>)
    requires
        s.len() > 0,
    ensures
        spec_escape(s) == esc_char(s[0]) + spec_escape(s.skip(1)),
    decreases s.len(),
{
    if s.len() == 1 {
        assert(s.drop_last() =~= Seq::<char>::empty());
        assert(s.skip(1) =~= Seq::<char>::empty());
        assert(spec_escape(Seq::<char>::empty()) == Seq::<char>::empty());
        assert(spec_escape(s) == Seq::<char>::empty() + esc_char(s.last()));
        assert(Seq::<char>::empty() + esc_char(s[0]) =~= esc_char(s[0]) + Seq::<char>::empty());
    } else {
        let t = s.drop_last();
        lemma_escape_head(t);
        assert(t[0] == s[0]);
        assert(t.skip(1) =~= s.skip(1).drop_last());
        assert(s.skip(1).len() > 0);
        assert(spec_escape(s.skip(1)) == spec_escape(s.skip(1).drop_last()) + esc_char(
            s.skip(1).last(),
        ));
        assert(s.skip(1).last() == s.last());
        assert((esc_char(s[0]) + spec_escape(t.skip(1))) + esc_char(s.last()) =~= esc_char(s[0]) + (
        spec_escape(t.skip(1)) + esc_char(s.last())));
    }
}

proof fn lemma_unescape_escape(s: Seq<char>)
    ensures
        spec_unescape(spec_escape(s)) == Some(s),
    decreases s.len(),
{
    if s.len() == 0 {
    } else {
        lemma_escape_head(s);
        lemma_unescape_escape(s.skip(1));
        let c = s[0];
        let e = spec_escape(s);
        let rest = spec_escape(s.skip(1));
        if c == ' ' || c == '%' || c == '&' || c == '=' {
            assert(e == esc_char(c) + rest);
            assert(e.len() >= 3);
            assert(e[0] == '%');
            assert(e[1] == esc_char(c)[1]);
            assert(e[2] == esc_char(c)[2]);
            assert(e.skip(3) =~= rest);
            if c == ' ' {
                assert(hex_digit_val(e[1]) == 2 && hex_digit_val(e[2]) == 0);
                assert(((32) as u8) as char == ' ');
            } else if c == '%' {
                assert(hex_digit_val(e[1]) == 2 && hex_digit_val(e[2]) == 5);
                assert(((37) as u8) as char == '%');
            } else if c == '&' {
                assert(hex_digit_val(e[1]) == 2 && hex_digit_val(e[2]) == 6);
                assert(((38) as u8) as char == '&');
            } else {
                assert(hex_digit_val(e[1]) == 3 && hex_digit_val(e[2]) == 13);
                assert(((61) as u8) as char == '=');
            }
            assert(seq![c] + s.skip(1) =~= s);
        } else {
            assert(e == seq![c] + rest);
            assert(e[0] == c);
            assert(e[0] != '%');
            assert(e.skip(1) =~= rest);
            assert(seq![c] + s.skip(1) =~= s);
        }
    }
}

proof fn lemma_digits_of_u64(n: u64)
    ensures
        spec_u64_digits(n).len() > 0,
        all_digits(spec_u64_digits(n)),
        spec_digits_val(spec_u64_digits(n)) == n,
    decreases n,
{
    if n < 10 {
        let d = spec_u64_digits(n);
        assert(d.drop_last() =~= Seq::<char>::empty());
        assert(spec_digits_val(Seq::<char>::empty()) == 0);
        assert(d.last() == digit_char(n as int));
        assert(is_digit_char(digit_char(n as int)));
        assert(digit_val(digit_char(n as int)) == n);
        assert(spec_digits_val(d) == n);
        assert forall|i: int| 0 <= i < d.len() implies is_digit_char(#[trigger] d[i]) by {
            assert(d[i] == digit_char(n as int));
        }
    } else {
        lemma_digits_of_u64(n / 10);
        let d = spec_u64_digits(n);
        let h = spec_u64_digits(n / 10);
        assert(d == h + seq![digit_char((n % 10) as int)]);
        assert(d.drop_last() =~= h);
        assert(d.last() == digit_char((n % 10) as int));
        assert(digit_val(digit_char((n % 10) as int)) == n % 10);
        assert(spec_digits_val(d) == spec_digits_val(h) * 10 + n % 10);
        assert((n as int / 10) * 10 + n as int % 10 == n as int) by (nonlinear_arith);
        assert forall|i: int| 0 <= i < d.len() implies is_digit_char(#[trigger] d[i]) by {
            if i < h.len() {
                assert(d[i] == h[i]);
            }
        }
    }
}

proof fn lemma_parse_of_u64_digits(n: u64)
    ensures
        spec_parse_u64(spec_u64_digits(n)) == Some(n),
        forall|i: int|
            0 <= i < spec_u64_digits(n).len() ==> (#[trigger] spec_u64_digits(n)[i]) != '%'
                && spec_u64_digits(n)[i] != '&' && spec_u64_digits(n)[i] != '=',
{
    lemma_digits_of_u64(n);
    lemma_digits_val_nonneg(spec_u64_digits(n));
    assert forall|i: int|
        0 <= i < spec_u64_digits(n).len() implies (#[trigger] spec_u64_digits(n)[i]) != '%'
        && spec_u64_digits(n)[i] != '&' && spec_u64_digits(n)[i] != '=' by {
        assert(is_digit_char(spec_u64_digits(n)[i]));
    }
}

proof fn lemma_parse_of_i64_str(n: i64)
    ensures
        spec_parse_i64(spec_i64_str(n)) == Some(n),
        forall|i: int|
            0 <= i < spec_i64_str(n).len() ==> (#[trigger] spec_i64_str(n)[i]) != '%'
                && spec_i64_str(n)[i] != '&' && spec_i64_str(n)[i] != '=',
{
    if n >= 0 {
        lemma_parse_of_u64_digits(n as u64);
        let s = spec_i64_str(n);
        assert(is_digit_char(s[0]));
        assert(s[0] != '-');
    } else {
        let m: u64 = (-(n as int)) as u64;
        lemma_parse_of_u64_digits(m);
        lemma_digits_of_u64(m);
        let s = spec_i64_str(n);
        let d = spec_u64_digits(m);
        assert(s == seq!['-'] + d);
        assert(s[0] == '-');
        assert(s.skip(1) =~= d);
        assert(m <= 0x8000_0000_0000_0000);
        assert(spec_digits_val(d) == m);
        assert((-spec_digits_val(d)) as i64 == n);
        assert forall|i: int|
            0 <= i < s.len() implies (#[trigger] s[i]) != '%' && s[i] != '&' && s[i] != '=' by {
            if i > 0 {
                assert(s[i] == d[i - 1]);
            }
        }
    }
}

/// The mechanics of one segment: with a clean key and an unescapable value,
/// applying `key=value` is exactly a schema update.
proof fn lemma_apply_seg_parts(key: Seq<char>, val: Seq<char>, dec: Seq<char>, q: QsParams)
    requires
        forall|i: int| 0 <= i < key.len() ==> (#[trigger] key[i]) != '=' && key[i] != '%',
        spec_unescape(val) == Some(dec),
    ensures
        spec_apply_seg(key + seq!['='] + val, q) == spec_set_field(q, key, dec),
{
    let seg = key + seq!['='] + val;
    let rest = seq!['='] + val;
    assert(seg =~= key + rest);
    assert(rest[0] == '=');
    lemma_find_char_some(rest, '=', 0);
    lemma_find_concat(key, rest, '=');
    assert(spec_find(seg, '=') == Some(key.len() as int));
    assert(seg.take(key.len() as int) =~= key);
    assert(seg.skip(key.len() as int + 1) =~= val);
    lemma_unescape_no_pct(key);
}

/// Every present field round-trips: at least one field must be present,
/// since an empty encoding decodes to null rather than to an empty object.
pub open spec fn some_field_present(p: QsParams) -> bool {
    ||| p.pid is Some
    ||| p.gid is Some
    ||| p.level is Some
    ||| p.mute is Some
    ||| p.shuffle is Some
    ||| p.repeat is Some
    ||| p.un is Some
    ||| p.text is Some
    ||| p.eid is Some
    ||| p.cur_pos is Some
    ||| p.duration is Some
    ||| p.state is Some
}

proof fn lemma_key_chars()
    ensures
        forall|i: int| 0 <= i < "pid"@.len() ==> (#[trigger] "pid"@[i]) != '=' && "pid"@[i] != '%' && "pid"@[i] != '&',
        forall|i: int| 0 <= i < "gid"@.len() ==> (#[trigger] "gid"@[i]) != '=' && "gid"@[i] != '%' && "gid"@[i] != '&',
        forall|i: int| 0 <= i < "level"@.len() ==> (#[trigger] "level"@[i]) != '=' && "level"@[i] != '%' && "level"@[i] != '&',
        forall|i: int| 0 <= i < "mute"@.len() ==> (#[trigger] "mute"@[i]) != '=' && "mute"@[i] != '%' && "mute"@[i] != '&',
        forall|i: int| 0 <= i < "shuffle"@.len() ==> (#[trigger] "shuffle"@[i]) != '=' && "shuffle"@[i] != '%' && "shuffle"@[i] != '&',
        forall|i: int| 0 <= i < "repeat"@.len() ==> (#[trigger] "repeat"@[i]) != '=' && "repeat"@[i] != '%' && "repeat"@[i] != '&',
        forall|i: int| 0 <= i < "un"@.len() ==> (#[trigger] "un"@[i]) != '=' && "un"@[i] != '%' && "un"@[i] != '&',
        forall|i: int| 0 <= i < "text"@.len() ==> (#[trigger] "text"@[i]) != '=' && "text"@[i] != '%' && "text"@[i] != '&',
        forall|i: int| 0 <= i < "eid"@.len() ==> (#[trigger] "eid"@[i]) != '=' && "eid"@[i] != '%' && "eid"@[i] != '&',
        forall|i: int| 0 <= i < "cur_pos"@.len() ==> (#[trigger] "cur_pos"@[i]) != '=' && "cur_pos"@[i] != '%' && "cur_pos"@[i] != '&',
        forall|i: int| 0 <= i < "duration"@.len() ==> (#[trigger] "duration"@[i]) != '=' && "duration"@[i] != '%' && "duration"@[i] != '&',
        forall|i: int| 0 <= i < "state"@.len() ==> (#[trigger] "state"@[i]) != '=' && "state"@[i] != '%' && "state"@[i] != '&',
        "pid"@ != "gid"@,
        "pid"@ != "level"@,
        "pid"@ != "mute"@,
        "pid"@ != "shuffle"@,
        "pid"@ != "repeat"@,
        "pid"@ != "un"@,
        "pid"@ != "text"@,
        "pid"@ != "eid"@,
        "pid"@ != "cur_pos"@,
        "pid"@ != "duration"@,
        "pid"@ != "state"@,
        "gid"@ != "level"@,
        "gid"@ != "mute"@,
        "gid"@ != "shuffle"@,
        "gid"@ != "repeat"@,
        "gid"@ != "un"@,
        "gid"@ != "text"@,
        "gid"@ != "eid"@,
        "gid"@ != "cur_pos"@,
        "gid"@ != "duration"@,
        "gid"@ != "state"@,
        "level"@ != "mute"@,
        "level"@ != "shuffle"@,
        "level"@ != "repeat"@,
        "level"@ != "un"@,
        "level"@ != "text"@,
        "level"@ != "eid"@,
        "level"@ != "cur_pos"@,
        "level"@ != "duration"@,
        "level"@ != "state"@,
        "mute"@ != "shuffle"@,
        "mute"@ != "repeat"@,
        "mute"@ != "un"@,
        "mute"@ != "text"@,
        "mute"@ != "eid"@,
        "mute"@ != "cur_pos"@,
        "mute"@ != "duration"@,
        "mute"@ != "state"@,
        "shuffle"@ != "repeat"@,
        "shuffle"@ != "un"@,
        "shuffle"@ != "text"@,
        "shuffle"@ != "eid"@,
        "shuffle"@ != "cur_pos"@,
        "shuffle"@ != "duration"@,
        "shuffle"@ != "state"@,
        "repeat"@ != "un"@,
        "repeat"@ != "text"@,
        "repeat"@ != "eid"@,
        "repeat"@ != "cur_pos"@,
        "repeat"@ != "duration"@,
        "repeat"@ != "state"@,
        "un"@ != "text"@,
        "un"@ != "eid"@,
        "un"@ != "cur_pos"@,
        "un"@ != "duration"@,
        "un"@ != "state"@,
        "text"@ != "eid"@,
        "text"@ != "cur_pos"@,
        "text"@ != "duration"@,
        "text"@ != "state"@,
        "eid"@ != "cur_pos"@,
        "eid"@ != "duration"@,
        "eid"@ != "state"@,
        "cur_pos"@ != "duration"@,
        "cur_pos"@ != "state"@,
        "duration"@ != "state"@,
{
    reveal_strlit("pid");
    reveal_strlit("gid");
    reveal_strlit("level");
    reveal_strlit("mute");
    reveal_strlit("shuffle");
    reveal_strlit("repeat");
    reveal_strlit("un");
    reveal_strlit("text");
    reveal_strlit("eid");
    reveal_strlit("cur_pos");
    reveal_strlit("duration");
    reveal_strlit("state");
    assert("pid"@.len() == 3 && "gid"@.len() == 3 && "level"@.len() == 5 && "mute"@.len() == 4);
    assert("shuffle"@.len() == 7 && "repeat"@.len() == 6 && "un"@.len() == 2 && "text"@.len() == 4);
    assert("eid"@.len() == 3 && "cur_pos"@.len() == 7 && "duration"@.len() == 8);
    assert("state"@.len() == 5);
    assert("pid"@[0] == 'p' && "gid"@[0] == 'g' && "eid"@[0] == 'e');
    assert("mute"@[0] == 'm' && "text"@[0] == 't');
    assert("level"@[0] == 'l' && "state"@[0] == 's');
    assert("shuffle"@[0] == 's' && "cur_pos"@[0] == 'c');
}

proof fn lemma_onoff_facts(x: OnOrOff)
    ensures
        spec_on_or_off(x.wire_view()) == Some(x),
        forall|i: int|
            0 <= i < x.wire_view().len() ==> (#[trigger] x.wire_view()[i]) != '%'
                && x.wire_view()[i] != '&',
{
    reveal_strlit("on");
    reveal_strlit("off");
    assert("on"@.len() == 2 && "off"@.len() == 3);
}

proof fn lemma_repeat_facts(x: Repeat)
    ensures
        spec_repeat(x.wire_view()) == Some(x),
        forall|i: int|
            0 <= i < x.wire_view().len() ==> (#[trigger] x.wire_view()[i]) != '%'
                && x.wire_view()[i] != '&',
{
    reveal_strlit("Off");
    reveal_strlit("OnOne");
    reveal_strlit("OnAll");
    assert("Off"@.len() == 3 && "OnOne"@.len() == 5 && "OnAll"@.len() == 5);
    assert("OnOne"@[2] == 'O' && "OnAll"@[2] == 'A');
    assert("OnOne"@ != "OnAll"@);
}

proof fn lemma_state_facts(x: PlayState)
    ensures
        spec_play_state(x.wire_view()) == Some(x),
        forall|i: int|
            0 <= i < x.wire_view().len() ==> (#[trigger] x.wire_view()[i]) != '%'
                && x.wire_view()[i] != '&',
{
    reveal_strlit("play");
    reveal_strlit("pause");
    reveal_strlit("stop");
    assert("play"@.len() == 4 && "pause"@.len() == 5 && "stop"@.len() == 4);
    assert("play"@[0] == 'p' && "stop"@[0] == 's');
    assert("play"@ != "stop"@);
}

proof fn lemma_escape_no_amp(s: Seq<char>)
    ensures
        forall|i: int| 0 <= i < spec_escape(s).len() ==> (#[trigger] spec_escape(s)[i]) != '&',
    decreases s.len(),
{
    if s.len() > 0 {
        lemma_escape_no_amp(s.drop_last());
        let e = spec_escape(s);
        let h = spec_escape(s.drop_last());
        let tail = esc_char(s.last());
        assert forall|i: int| 0 <= i < e.len() implies (#[trigger] e[i]) != '&' by {
            if i < h.len() {
                assert(e[i] == h[i]);
            } else {
                assert(e[i] == tail[i - h.len()]);
            }
        }
    }
}

/// No segment a field encodes to contains the separator.
pub open spec fn no_amp_segs(ss: Seq<Seq<char>>) -> bool {
    forall|j: int, i: int|
        0 <= j < ss.len() && 0 <= i < ss[j].len() ==> (#[trigger] ss[j][i]) != '&'
}

proof fn lemma_no_amp_concat(a: Seq<Seq<char>>, b: Seq<Seq<char>>)
    requires
        no_amp_segs(a),
        no_amp_segs(b),
    ensures
        no_amp_segs(a + b),
{
    assert forall|j: int, i: int|
        0 <= j < (a + b).len() && 0 <= i < (a + b)[j].len() implies (#[trigger] (a + b)[j][i])
        != '&' by {
        if j < a.len() {
            assert((a + b)[j] == a[j]);
        } else {
            assert((a + b)[j] == b[j - a.len()]);
        }
    }
}

proof fn lemma_seg_no_amp(key: Seq<char>, val: Seq<char>)
    requires
        forall|i: int| 0 <= i < key.len() ==> (#[trigger] key[i]) != '&',
        forall|i: int| 0 <= i < val.len() ==> (#[trigger] val[i]) != '&',
    ensures
        no_amp_segs(seq![seg_of(key, val)]),
{
    let seg = seg_of(key, val);
    assert forall|j: int, i: int|
        0 <= j < seq![seg].len() && 0 <= i < seq![seg][j].len() implies (
    #[trigger] seq![seg][j][i]) != '&' by {
        assert(seq![seg][j] == seg);
        if i < key.len() {
            assert(seg[i] == key[i]);
        } else if i == key.len() {
            assert(seg[i] == '=');
        } else {
            assert(seg[i] == val[i - key.len() - 1]);
        }
    }
}

proof fn lemma_chain_pid(o: Option<i64>, q: QsParams)
    requires
        q.pid is None,
    ensures
        spec_chain(segs_i64("pid"@, o), q) == Some(QsParams { pid: o, ..q }),
        no_amp_segs(segs_i64("pid"@, o)),
{
    lemma_key_chars();
    match o {
        None => {
            assert(segs_i64("pid"@, o).len() == 0);
            assert(no_amp_segs(segs_i64("pid"@, o)));
            assert(QsParams { pid: o, ..q } == q);
        },
        Some(n) => {
            let val = spec_i64_str(n);
            let dec = val;
            lemma_parse_of_i64_str(n);
            lemma_unescape_no_pct(val);
            lemma_apply_seg_parts("pid"@, val, dec, q);
            assert(spec_set_field(q, "pid"@, dec) == Some(QsParams { pid: Some(n), ..q }));
            let ss = segs_i64("pid"@, o);
            assert(ss[0] == seg_of("pid"@, val));
            assert(ss.skip(1) =~= Seq::<Seq<char>>::empty());
            assert(spec_chain(ss.skip(1), QsParams { pid: Some(n), ..q }) == Some(
                QsParams { pid: Some(n), ..q },
            ));
            lemma_seg_no_amp("pid"@, val);
            assert(ss =~= seq![seg_of("pid"@, val)]);
        },
    }
}

proof fn lemma_chain_gid(o: Option<i64>, q: QsParams)
    requires
        q.gid is None,
    ensures
        spec_chain(segs_i64("gid"@, o), q) == Some(QsParams { gid: o, ..q }),
        no_amp_segs(segs_i64("gid"@, o)),
{
    lemma_key_chars();
    match o {
        None => {
            assert(segs_i64("gid"@, o).len() == 0);
            assert(no_amp_segs(segs_i64("gid"@, o)));
            assert(QsParams { gid: o, ..q } == q);
        },
        Some(n) => {
            let val = spec_i64_str(n);
            let dec = val;
            lemma_parse_of_i64_str(n);
            lemma_unescape_no_pct(val);
            lemma_apply_seg_parts("gid"@, val, dec, q);
            assert(spec_set_field(q, "gid"@, dec) == Some(QsParams { gid: Some(n), ..q }));
            let ss = segs_i64("gid"@, o);
            assert(ss[0] == seg_of("gid"@, val));
            assert(ss.skip(1) =~= Seq::<Seq<char>>::empty());
            assert(spec_chain(ss.skip(1), QsParams { gid: Some(n), ..q }) == Some(
                QsParams { gid: Some(n), ..q },
            ));
            lemma_seg_no_amp("gid"@, val);
            assert(ss =~= seq![seg_of("gid"@, val)]);
        },
    }
}

proof fn lemma_chain_level(o: Option<u8>, q: QsParams)
    requires
        q.level is None,
    ensures
        spec_chain(segs_u8("level"@, o), q) == Some(QsParams { level: o, ..q }),
        no_amp_segs(segs_u8("level"@, o)),
{
    lemma_key_chars();
    match o {
        None => {
            assert(segs_u8("level"@, o).len() == 0);
            assert(no_amp_segs(segs_u8("level"@, o)));
            assert(QsParams { level: o, ..q } == q);
        },
        Some(n) => {
            let val = spec_u64_digits(n as u64);
            let dec = val;
            lemma_parse_of_u64_digits(n as u64);
            lemma_digits_of_u64(n as u64);
            lemma_unescape_no_pct(val);
            lemma_apply_seg_parts("level"@, val, dec, q);
            assert(spec_set_field(q, "level"@, dec) == Some(QsParams { level: Some(n), ..q }));
            let ss = segs_u8("level"@, o);
            assert(ss[0] == seg_of("level"@, val));
            assert(ss.skip(1) =~= Seq::<Seq<char>>::empty());
            assert(spec_chain(ss.skip(1), QsParams { level: Some(n), ..q }) == Some(
                QsParams { level: Some(n), ..q },
            ));
            lemma_seg_no_amp("level"@, val);
            assert(ss =~= seq![seg_of("level"@, val)]);
        },
    }
}

proof fn lemma_chain_mute(o: Option<OnOrOff>, q: QsParams)
    requires
        q.mute is None,
    ensures
        spec_chain(segs_onoff("mute"@, o), q) == Some(QsParams { mute: o, ..q }),
        no_amp_segs(segs_onoff("mute"@, o)),
{
    lemma_key_chars();
    match o {
        None => {
            assert(segs_onoff("mute"@, o).len() == 0);
            assert(no_amp_segs(segs_onoff("mute"@, o)));
            assert(QsParams { mute: o, ..q } == q);
        },
        Some(n) => {
            let val = n.wire_view();
            let dec = val;
            lemma_onoff_facts(n);
            lemma_unescape_no_pct(val);
            lemma_apply_seg_parts("mute"@, val, dec, q);
            assert(spec_set_field(q, "mute"@, dec) == Some(QsParams { mute: Some(n), ..q }));
            let ss = segs_onoff("mute"@, o);
            assert(ss[0] == seg_of("mute"@, val));
            assert(ss.skip(1) =~= Seq::<Seq<char>>::empty());
            assert(spec_chain(ss.skip(1), QsParams { mute: Some(n), ..q }) == Some(
                QsParams { mute: Some(n), ..q },
            ));
            lemma_seg_no_amp("mute"@, val);
            assert(ss =~= seq![seg_of("mute"@, val)]);
        },
    }
}

proof fn lemma_chain_shuffle(o: Option<OnOrOff>, q: QsParams)
    requires
        q.shuffle is None,
    ensures
        spec_chain(segs_onoff("shuffle"@, o), q) == Some(QsParams { shuffle: o, ..q }),
        no_amp_segs(segs_onoff("shuffle"@, o)),
{
    lemma_key_chars();
    match o {
        None => {
            assert(segs_onoff("shuffle"@, o).len() == 0);
            assert(no_amp_segs(segs_onoff("shuffle"@, o)));
            assert(QsParams { shuffle: o, ..q } == q);
        },
        Some(n) => {
            let val = n.wire_view();
            let dec = val;
            lemma_onoff_facts(n);
            lemma_unescape_no_pct(val);
            lemma_apply_seg_parts("shuffle"@, val, dec, q);
            assert(spec_set_field(q, "shuffle"@, dec) == Some(QsParams { shuffle: Some(n), ..q }));
            let ss = segs_onoff("shuffle"@, o);
            assert(ss[0] == seg_of("shuffle"@, val));
            assert(ss.skip(1) =~= Seq::<Seq<char>>::empty());
            assert(spec_chain(ss.skip(1), QsParams { shuffle: Some(n), ..q }) == Some(
                QsParams { shuffle: Some(n), ..q },
            ));
            lemma_seg_no_amp("shuffle"@, val);
            assert(ss =~= seq![seg_of("shuffle"@, val)]);
        },
    }
}

proof fn lemma_chain_repeat(o: Option<Repeat>, q: QsParams)
    requires
        q.repeat is None,
    ensures
        spec_chain(segs_repeat("repeat"@, o), q) == Some(QsParams { repeat: o, ..q }),
        no_amp_segs(segs_repeat("repeat"@, o)),
{
    lemma_key_chars();
    match o {
        None => {
            assert(segs_repeat("repeat"@, o).len() == 0);
            assert(no_amp_segs(segs_repeat("repeat"@, o)));
            assert(QsParams { repeat: o, ..q } == q);
        },
        Some(n) => {
            let val = n.wire_view();
            let dec = val;
            lemma_repeat_facts(n);
            lemma_unescape_no_pct(val);
            lemma_apply_seg_parts("repeat"@, val, dec, q);
            assert(spec_set_field(q, "repeat"@, dec) == Some(QsParams { repeat: Some(n), ..q }));
            let ss = segs_repeat("repeat"@, o);
            assert(ss[0] == seg_of("repeat"@, val));
            assert(ss.skip(1) =~= Seq::<Seq<char>>::empty());
            assert(spec_chain(ss.skip(1), QsParams { repeat: Some(n), ..q }) == Some(
                QsParams { repeat: Some(n), ..q },
            ));
            lemma_seg_no_amp("repeat"@, val);
            assert(ss =~= seq![seg_of("repeat"@, val)]);
        },
    }
}

proof fn lemma_chain_un(o: Option<Seq<char>>, q: QsParams)
    requires
        q.un is None,
    ensures
        spec_chain(segs_str("un"@, o), q) == Some(QsParams { un: o, ..q }),
        no_amp_segs(segs_str("un"@, o)),
{
    lemma_key_chars();
    match o {
        None => {
            assert(segs_str("un"@, o).len() == 0);
            assert(no_amp_segs(segs_str("un"@, o)));
            assert(QsParams { un: o, ..q } == q);
        },
        Some(n) => {
            let val = spec_escape(n);
            let dec = n;
            lemma_unescape_escape(n);
            lemma_escape_no_amp(n);
            lemma_apply_seg_parts("un"@, val, dec, q);
            assert(spec_set_field(q, "un"@, dec) == Some(QsParams { un: Some(n), ..q }));
            let ss = segs_str("un"@, o);
            assert(ss[0] == seg_of("un"@, val));
            assert(ss.skip(1) =~= Seq::<Seq<char>>::empty());
            assert(spec_chain(ss.skip(1), QsParams { un: Some(n), ..q }) == Some(
                QsParams { un: Some(n), ..q },
            ));
            lemma_seg_no_amp("un"@, val);
            assert(ss =~= seq![seg_of("un"@, val)]);
        },
    }
}

proof fn lemma_chain_text(o: Option<Seq<char>>, q: QsParams)
    requires
        q.text is None,
    ensures
        spec_chain(segs_str("text"@, o), q) == Some(QsParams { text: o, ..q }),
        no_amp_segs(segs_str("text"@, o)),
{
    lemma_key_chars();
    match o {
        None => {
            assert(segs_str("text"@, o).len() == 0);
            assert(no_amp_segs(segs_str("text"@, o)));
            assert(QsParams { text: o, ..q } == q);
        },
        Some(n) => {
            let val = spec_escape(n);
            let dec = n;
            lemma_unescape_escape(n);
            lemma_escape_no_amp(n);
            lemma_apply_seg_parts("text"@, val, dec, q);
            assert(spec_set_field(q, "text"@, dec) == Some(QsParams { text: Some(n), ..q }));
            let ss = segs_str("text"@, o);
            assert(ss[0] == seg_of("text"@, val));
            assert(ss.skip(1) =~= Seq::<Seq<char>>::empty());
            assert(spec_chain(ss.skip(1), QsParams { text: Some(n), ..q }) == Some(
                QsParams { text: Some(n), ..q },
            ));
            lemma_seg_no_amp("text"@, val);
            assert(ss =~= seq![seg_of("text"@, val)]);
        },
    }
}

proof fn lemma_chain_eid(o: Option<u8>, q: QsParams)
    requires
        q.eid is None,
    ensures
        spec_chain(segs_u8("eid"@, o), q) == Some(QsParams { eid: o, ..q }),
        no_amp_segs(segs_u8("eid"@, o)),
{
    lemma_key_chars();
    match o {
        None => {
            assert(segs_u8("eid"@, o).len() == 0);
            assert(no_amp_segs(segs_u8("eid"@, o)));
            assert(QsParams { eid: o, ..q } == q);
        },
        Some(n) => {
            let val = spec_u64_digits(n as u64);
            let dec = val;
            lemma_parse_of_u64_digits(n as u64);
            lemma_digits_of_u64(n as u64);
            lemma_unescape_no_pct(val);
            lemma_apply_seg_parts("eid"@, val, dec, q);
            assert(spec_set_field(q, "eid"@, dec) == Some(QsParams { eid: Some(n), ..q }));
            let ss = segs_u8("eid"@, o);
            assert(ss[0] == seg_of("eid"@, val));
            assert(ss.skip(1) =~= Seq::<Seq<char>>::empty());
            assert(spec_chain(ss.skip(1), QsParams { eid: Some(n), ..q }) == Some(
                QsParams { eid: Some(n), ..q },
            ));
            lemma_seg_no_amp("eid"@, val);
            assert(ss =~= seq![seg_of("eid"@, val)]);
        },
    }
}

proof fn lemma_chain_cur_pos(o: Option<u64>, q: QsParams)
    requires
        q.cur_pos is None,
        o matches Some(n) ==> n <= i64::MAX as u64,
    ensures
        spec_chain(segs_u64("cur_pos"@, o), q) == Some(QsParams { cur_pos: o, ..q }),
        no_amp_segs(segs_u64("cur_pos"@, o)),
{
    lemma_key_chars();
    match o {
        None => {
            assert(segs_u64("cur_pos"@, o).len() == 0);
            assert(no_amp_segs(segs_u64("cur_pos"@, o)));
            assert(QsParams { cur_pos: o, ..q } == q);
        },
        Some(n) => {
            let val = spec_u64_digits(n);
            let dec = val;
            lemma_parse_of_u64_digits(n);
            lemma_digits_of_u64(n);
            lemma_unescape_no_pct(val);
            lemma_apply_seg_parts("cur_pos"@, val, dec, q);
            assert(spec_set_field(q, "cur_pos"@, dec) == Some(QsParams { cur_pos: Some(n), ..q }));
            let ss = segs_u64("cur_pos"@, o);
            assert(ss[0] == seg_of("cur_pos"@, val));
            assert(ss.skip(1) =~= Seq::<Seq<char>>::empty());
            assert(spec_chain(ss.skip(1), QsParams { cur_pos: Some(n), ..q }) == Some(
                QsParams { cur_pos: Some(n), ..q },
            ));
            lemma_seg_no_amp("cur_pos"@, val);
            assert(ss =~= seq![seg_of("cur_pos"@, val)]);
        },
    }
}

proof fn lemma_chain_duration(o: Option<u64>, q: QsParams)
    requires
        q.duration is None,
        o matches Some(n) ==> n <= i64::MAX as u64,
    ensures
        spec_chain(segs_u64("duration"@, o), q) == Some(QsParams { duration: o, ..q }),
        no_amp_segs(segs_u64("duration"@, o)),
{
    lemma_key_chars();
    match o {
        None => {
            assert(segs_u64("duration"@, o).len() == 0);
            assert(no_amp_segs(segs_u64("duration"@, o)));
            assert(QsParams { duration: o, ..q } == q);
        },
        Some(n) => {
            let val = spec_u64_digits(n);
            let dec = val;
            lemma_parse_of_u64_digits(n);
            lemma_digits_of_u64(n);
            lemma_unescape_no_pct(val);
            lemma_apply_seg_parts("duration"@, val, dec, q);
            assert(spec_set_field(q, "duration"@, dec) == Some(QsParams { duration: Some(n), ..q }));
            let ss = segs_u64("duration"@, o);
            assert(ss[0] == seg_of("duration"@, val));
            assert(ss.skip(1) =~= Seq::<Seq<char>>::empty());
            assert(spec_chain(ss.skip(1), QsParams { duration: Some(n), ..q }) == Some(
                QsParams { duration: Some(n), ..q },
            ));
            lemma_seg_no_amp("duration"@, val);
            assert(ss =~= seq![seg_of("duration"@, val)]);
        },
    }
}

proof fn lemma_chain_state(o: Option<PlayState>, q: QsParams)
    requires
        q.state is None,
    ensures
        spec_chain(segs_state("state"@, o), q) == Some(QsParams { state: o, ..q }),
        no_amp_segs(segs_state("state"@, o)),
{
    lemma_key_chars();
    match o {
        None => {
            assert(segs_state("state"@, o).len() == 0);
            assert(no_amp_segs(segs_state("state"@, o)));
            assert(QsParams { state: o, ..q } == q);
        },
        Some(n) => {
            let val = n.wire_view();
            let dec = val;
            lemma_state_facts(n);
            lemma_unescape_no_pct(val);
            lemma_apply_seg_parts("state"@, val, dec, q);
            assert(spec_set_field(q, "state"@, dec) == Some(QsParams { state: Some(n), ..q }));
            let ss = segs_state("state"@, o);
            assert(ss[0] == seg_of("state"@, val));
            assert(ss.skip(1) =~= Seq::<Seq<char>>::empty());
            assert(spec_chain(ss.skip(1), QsParams { state: Some(n), ..q }) == Some(
                QsParams { state: Some(n), ..q },
            ));
            lemma_seg_no_amp("state"@, val);
            assert(ss =~= seq![seg_of("state"@, val)]);
        },
    }
}

/// Round trip: encoding a set of parameters and decoding the result yields
/// the same parameters, every absent field still absent. An all-absent value
/// is excluded: it encodes to the empty string, which decodes to null. A
/// position or duration beyond the signed 64-bit range is excluded: the
/// schema cannot represent it.
#[verifier::rlimit(100)]
#[verifier::spinoff_prover]
pub proof fn lemma_qs_round_trip(p: QsParams)
    requires
        some_field_present(p),
        p.cur_pos matches Some(n) ==> n <= i64::MAX as u64,
        p.duration matches Some(n) ==> n <= i64::MAX as u64,
    ensures
        spec_qs_params(spec_encode_params(p)) == Some(p),
        spec_encode_params(p).len() > 0,
{
    lemma_key_chars();
    let s1 = segs_i64("pid"@, p.pid);
    let s2 = segs_i64("gid"@, p.gid);
    let s3 = segs_u8("level"@, p.level);
    let s4 = segs_onoff("mute"@, p.mute);
    let s5 = segs_onoff("shuffle"@, p.shuffle);
    let s6 = segs_repeat("repeat"@, p.repeat);
    let s7 = segs_str("un"@, p.un);
    let s8 = segs_str("text"@, p.text);
    let s9 = segs_u8("eid"@, p.eid);
    let s10 = segs_u64("cur_pos"@, p.cur_pos);
    let s11 = segs_u64("duration"@, p.duration);
    let s12 = segs_state("state"@, p.state);
    let q0 = QsParams::init();
    lemma_chain_pid(p.pid, q0);
    let q1 = QsParams { pid: p.pid, ..q0 };
    lemma_chain_gid(p.gid, q1);
    let q2 = QsParams { gid: p.gid, ..q1 };
    lemma_chain_level(p.level, q2);
    let q3 = QsParams { level: p.level, ..q2 };
    lemma_chain_mute(p.mute, q3);
    let q4 = QsParams { mute: p.mute, ..q3 };
    lemma_chain_shuffle(p.shuffle, q4);
    let q5 = QsParams { shuffle: p.shuffle, ..q4 };
    lemma_chain_repeat(p.repeat, q5);
    let q6 = QsParams { repeat: p.repeat, ..q5 };
    lemma_chain_un(p.un, q6);
    let q7 = QsParams { un: p.un, ..q6 };
    lemma_chain_text(p.text, q7);
    let q8 = QsParams { text: p.text, ..q7 };
    lemma_chain_eid(p.eid, q8);
    let q9 = QsParams { eid: p.eid, ..q8 };
    lemma_chain_cur_pos(p.cur_pos, q9);
    let q10 = QsParams { cur_pos: p.cur_pos, ..q9 };
    lemma_chain_duration(p.duration, q10);
    let q11 = QsParams { duration: p.duration, ..q10 };
    lemma_chain_state(p.state, q11);
    let q12 = QsParams { state: p.state, ..q11 };
    assert(q12 == p);
    let l1 = s1;
    let l2 = l1 + s2;
    let l3 = l2 + s3;
    let l4 = l3 + s4;
    let l5 = l4 + s5;
    let l6 = l5 + s6;
    let l7 = l6 + s7;
    let l8 = l7 + s8;
    let l9 = l8 + s9;
    let l10 = l9 + s10;
    let l11 = l10 + s11;
    let l12 = l11 + s12;
    lemma_chain_append(l1, s2, q0);
    lemma_chain_append(l2, s3, q0);
    lemma_chain_append(l3, s4, q0);
    lemma_chain_append(l4, s5, q0);
    lemma_chain_append(l5, s6, q0);
    lemma_chain_append(l6, s7, q0);
    lemma_chain_append(l7, s8, q0);
    lemma_chain_append(l8, s9, q0);
    lemma_chain_append(l9, s10, q0);
    lemma_chain_append(l10, s11, q0);
    lemma_chain_append(l11, s12, q0);
    lemma_no_amp_concat(l1, s2);
    lemma_no_amp_concat(l2, s3);
    lemma_no_amp_concat(l3, s4);
    lemma_no_amp_concat(l4, s5);
    lemma_no_amp_concat(l5, s6);
    lemma_no_amp_concat(l6, s7);
    lemma_no_amp_concat(l7, s8);
    lemma_no_amp_concat(l8, s9);
    lemma_no_amp_concat(l9, s10);
    lemma_no_amp_concat(l10, s11);
    lemma_no_amp_concat(l11, s12);
    let ss = spec_param_segs(p);
    assert(ss == l12);
    assert(spec_chain(ss, q0) == Some(p));
    assert(ss.len() >= 1) by {
        if !(p.pid is Some) {
            assert(l1.len() == 0);
        }
    }
    lemma_parse_join(ss, q0);
    if ss.len() == 1 {
        assert(spec_join(ss) == ss[0]);
    } else {
        assert(spec_join(ss) == ss[0] + seq!['&'] + spec_join(ss.skip(1)));
    }
}

} // verus!
