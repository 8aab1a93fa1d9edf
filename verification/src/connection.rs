//! The stream reassembler: a growable byte buffer fed by the transport,
//! drained one decoded frame at a time, preserving trailing partial data.
//!
//! The actual socket lives outside the crate; it hands received bytes to
//! `feed` and reports end-of-stream to `end_of_stream`.

use vstd::prelude::*;
use crate::error::HeosError;
use crate::frame::{
    decodes_to, json_parsed, lemma_find_delim_props, parse_json, parse_response, spec_find_delim,
    Frame,
};

verus! {

/// The frame bodies a byte sequence splits into, in order: each body is the
/// bytes strictly before a delimiter, and scanning resumes after it.
pub open spec fn frame_bodies(s: Seq<u8>) -> Seq<Seq<u8>>
    decreases s.len(),
    via frame_bodies_decreases
{
    match spec_find_delim(s) {
        None => Seq::empty(),
        Some(k) => seq![s.take(k)] + frame_bodies(s.skip(k + 2)),
    }
}

#[via_fn]
proof fn frame_bodies_decreases(s: Seq<u8>) {
    lemma_find_delim_props(s);
}

/// What remains after the last complete frame: at most one partial frame.
pub open spec fn leftover(s: Seq<u8>) -> Seq<u8>
    decreases s.len(),
    via leftover_decreases
{
    match spec_find_delim(s) {
        None => s,
        Some(k) => leftover(s.skip(k + 2)),
    }
}

#[via_fn]
proof fn leftover_decreases(s: Seq<u8>) {
    lemma_find_delim_props(s);
}

/// A delimiter found in a prefix is still the first one after an append.
pub proof fn lemma_find_delim_prefix(s: Seq<u8>, t: Seq<u8>)
    requires
        spec_find_delim(s) is Some,
    ensures
        spec_find_delim(s + t) == spec_find_delim(s),
{
    lemma_find_delim_props(s);
    let k = spec_find_delim(s)->Some_0;
    assert((s + t)[k] == s[k]);
    assert((s + t)[k + 1] == s[k + 1]);
    assert forall|j: int| 0 <= j < k implies !((#[trigger] (s + t)[j]) == 13 && (s + t)[j + 1]
        == 10) by {
        assert((s + t)[j] == s[j]);
        assert((s + t)[j + 1] == s[j + 1]);
    }
    crate::frame::lemma_find_delim_at(s + t, k);
}

/// Chunking independence: however the stream is cut, feeding a further chunk
/// continues exactly where the previous bytes left off. The bodies drained
/// from `s + t` are those drained from `s` followed by those drained from
/// `leftover(s) + t`, and the partial tails agree. Applied inductively over
/// a chunk list, the frames decoded from one contiguous block equal those
/// decoded from the same bytes delivered one byte at a time, since each body
/// then decodes through the same functions of the body alone.
pub proof fn lemma_chunked_extraction(s: Seq<u8>, t: Seq<u8>)
    ensures
        frame_bodies(s + t) == frame_bodies(s) + frame_bodies(leftover(s) + t),
        leftover(s + t) == leftover(leftover(s) + t),
    decreases s.len(),
{
    lemma_find_delim_props(s);
    match spec_find_delim(s) {
        None => {
            assert(leftover(s) == s);
            assert(frame_bodies(s + t) =~= Seq::<Seq<u8>>::empty() + frame_bodies(
                leftover(s) + t,
            ));
        },
        Some(k) => {
            lemma_find_delim_prefix(s, t);
            let rest = s.skip(k + 2);
            assert((s + t).take(k) =~= s.take(k));
            assert((s + t).skip(k + 2) =~= rest + t);
            lemma_chunked_extraction(rest, t);
            assert(frame_bodies(s + t) == seq![s.take(k)] + (frame_bodies(rest) + frame_bodies(
                leftover(rest) + t,
            )));
            assert(seq![s.take(k)] + (frame_bodies(rest) + frame_bodies(leftover(rest) + t)) =~= (
            seq![s.take(k)] + frame_bodies(rest)) + frame_bodies(leftover(rest) + t));
        },
    }
}

/// One reassembly buffer, bound to one transport connection. `scanned` is
/// the resumability watermark: no delimiter starts before it, so repeated
/// partial-data calls never re-scan rejected bytes.
pub struct Reassembler {
    buffer: Vec<u8>,
    scanned: usize,
}

impl View for Reassembler {
    type V = Seq<u8>;

    closed spec fn view(&self) -> Seq<u8> {
        self.buffer@
    }
}

impl Reassembler {
    pub closed spec fn wf(&self) -> bool {
        &&& (self.scanned == 0 || self.scanned + 1 <= self.buffer@.len())
        &&& forall|j: int|
            0 <= j < self.scanned ==> !((#[trigger] self.buffer@[j]) == 13 && self.buffer@[j + 1]
                == 10)
    }

    pub fn new() -> (r: Reassembler)
        ensures
            r@ == Seq::<u8>::empty(),
            r.wf(),
    {
        Reassembler { buffer: Vec::new(), scanned: 0 }
    }

    /// Appends newly arrived transport bytes; no decoding happens here.
    pub fn feed(&mut self, bytes: &[u8])
        requires
            old(self).wf(),
        ensures
            final(self).wf(),
            final(self)@ == old(self)@ + bytes@,
    {
        let n = bytes.len();
        let mut i: usize = 0;
        proof {
            assert(self.buffer@ =~= old(self).buffer@ + bytes@.take(0));
        }
        while i < n
            invariant
                i <= n,
                n == bytes@.len(),
                self.buffer@ == old(self).buffer@ + bytes@.take(i as int),
                self.scanned == old(self).scanned,
                old(self).wf(),
            decreases n - i,
        {
            let b = bytes[i];
            self.buffer.push(b);
            proof {
                assert(old(self).buffer@ + bytes@.take(i + 1) =~= (old(self).buffer@ + bytes@.take(
                    i as int,
                )).push(bytes@[i as int]));
            }
            i += 1;
        }
        proof {
            assert(bytes@.take(n as int) =~= bytes@);
            assert forall|j: int| 0 <= j < self.scanned implies !((#[trigger] self.buffer@[j])
                == 13 && self.buffer@[j + 1] == 10) by {
                assert(self.buffer@[j] == old(self).buffer@[j]);
                assert(self.buffer@[j + 1] == old(self).buffer@[j + 1]);
            }
        }
    }

    /// Extracts the first complete frame if the buffer holds one; otherwise
    /// reports that more bytes are needed, leaving the buffer untouched. The
    /// consumed region (body plus delimiter) is discarded on success; a
    /// decode failure is fatal to the connection and consumes nothing.
    pub fn parse_frame(&mut self) -> (r: Result<Option<Frame>, HeosError>)
        requires
            old(self).wf(),
        ensures
            final(self).wf(),
            match spec_find_delim(old(self)@) {
                None => r == Ok::<Option<Frame>, HeosError>(None) && final(self)@ == old(self)@,
                Some(k) => match json_parsed(old(self)@.take(k)) {
                    None => (r matches Err(e) && e matches HeosError::UnexpectedError(_))
                        && final(self)@ == old(self)@,
                    Some(v) => match r {
                        Ok(Some(f)) => decodes_to(v, Ok(f)) && final(self)@ == old(self)@.skip(k + 2),
                        Err(e) => decodes_to(v, Err(e)) && final(self)@ == old(self)@,
                        Ok(None) => false,
                    },
                },
            },
    {
        let ghost buf = self.buffer@;
        let n = self.buffer.len();
        let mut i: usize = self.scanned;
        while n - i > 1
            invariant
                i <= n,
                n == self.buffer@.len(),
                self == old(self),
                old(self).wf(),
                buf == self.buffer@,
                forall|j: int|
                    0 <= j < i ==> !((#[trigger] buf[j]) == 13 && buf[j + 1] == 10),
            decreases n - i,
        {
            if self.buffer[i] == 13 && self.buffer[i + 1] == 10 {
                proof {
                    crate::frame::lemma_find_delim_at(buf, i as int);
                }
                let body = crate::frame::bytes_range(&self.buffer, 0, i);
                proof {
                    assert(body@ =~= buf.take(i as int));
                }
                let v = match parse_json(&body) {
                    Some(v) => v,
                    None => {
                        return Err(HeosError::UnexpectedError(
                            "failed to parse response as json".to_owned(),
                        ));
                    },
                };
                match parse_response(v) {
                    Ok(f) => {
                        let rest = crate::frame::bytes_range(&self.buffer, i + 2, n);
                        proof {
                            assert(rest@ =~= buf.skip(i + 2));
                        }
                        self.buffer = rest;
                        self.scanned = 0;
                        return Ok(Some(f));
                    },
                    Err(e) => {
                        return Err(e);
                    },
                }
            }
            i += 1;
        }
        proof {
            assert forall|j: int| 0 <= j && j + 1 < buf.len() implies !((#[trigger] buf[j]) == 13
                && buf[j + 1] == 10) by {}
            lemma_find_delim_props(buf);
        }
        if n > 0 {
            self.scanned = n - 1;
        } else {
            self.scanned = 0;
        }
        Ok(None)
    }

    /// End-of-stream classification: an orderly close with an empty buffer
    /// is clean; unconsumed bytes mean the peer quit mid-frame.
    pub fn end_of_stream(&self) -> (r: Result<(), HeosError>)
        ensures
            r is Ok <==> self@.len() == 0,
            r matches Err(e) ==> e matches HeosError::UnexpectedError(_),
    {
        if self.buffer.len() == 0 {
            Ok(())
        } else {
            Err(HeosError::UnexpectedError("connection reset by peer".to_owned()))
        }
    }
}

} // verus!
