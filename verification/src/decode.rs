//! Decoding one raw frame into a typed event: UTF-8 decode, trim, the
//! `data:` prefix check, and the JSON payload parse. Any failure drops the
//! frame; the stream goes on.

use vstd::prelude::*;
use crate::event::AgentEvent;
use crate::event::EventModel;
use crate::json::sp_decode_payload;
use crate::json::parse_payload;
use crate::json::event_of_members;
use crate::text::utf8_to_string;
use crate::text::chars_of;
use crate::text::trim_chars;
use crate::text::trim_spaces;

verus! {

/// The event a raw frame describes, if any: the frame must be valid UTF-8,
/// start (after trimming) with `data:`, and carry a well-formed payload.
pub open spec fn sp_decode_frame(bytes: Seq<u8>) -> Option<EventModel> {
    if !vstd::utf8::valid_utf8(bytes) {
        None
    } else {
        let t = trim_spaces(vstd::utf8::decode_utf8(bytes));
        if t.len() >= 5 && t.subrange(0, 5) == "data:"@ {
            sp_decode_payload(t.skip(5))
        } else {
            None
        }
    }
}

/// Decodes one frame, or drops it.
pub fn decode_event(frame: &[u8]) -> (r: Option<AgentEvent>)
    ensures
        match r {
            Some(e) => sp_decode_frame(frame@) == Some(e.model()),
            None => sp_decode_frame(frame@) is None,
        },
{
    let s = match utf8_to_string(frame) {
        Some(s) => s,
        None => return None,
    };
    let cs = chars_of(s.as_str());
    let t = trim_chars(cs.as_slice());
    if t.len() < 5 {
        proof {
            reveal_strlit("data:");
        }
        return None;
    }
    proof {
        reveal_strlit("data:");
    }
    if !(t[0] == 'd' && t[1] == 'a' && t[2] == 't' && t[3] == 'a' && t[4] == ':') {
        proof {
            if t@.subrange(0, 5) == "data:"@ {
                assert(t@[0] == "data:"@[0]);
                assert(t@[1] == "data:"@[1]);
                assert(t@[2] == "data:"@[2]);
                assert(t@[3] == "data:"@[3]);
                assert(t@[4] == "data:"@[4]);
            }
        }
        return None;
    }
    proof {
        assert(t@.subrange(0, 5) =~= "data:"@);
    }
    let n = t.len();
    let payload = vstd::slice::slice_to_vec(&t.as_slice()[5..n]);
    proof {
        assert(payload@ =~= t@.skip(5));
    }
    let ms = match parse_payload(&payload) {
        Some(ms) => ms,
        None => return None,
    };
    event_of_members(&ms)
}

/// The events of a sequence of frames, malformed frames dropped.
pub open spec fn decode_frames(fs: Seq<Seq<u8>>) -> Seq<EventModel>
    decreases fs.len(),
{
    if fs.len() == 0 {
        Seq::empty()
    } else {
        match sp_decode_frame(fs[0]) {
            Some(e) => seq![e] + decode_frames(fs.skip(1)),
            None => decode_frames(fs.skip(1)),
        }
    }
}

/// Decoding distributes over concatenation of frame sequences.
pub proof fn lemma_decode_frames_concat(x: Seq<Seq<u8>>, y: Seq<Seq<u8>>)
    ensures
        decode_frames(x + y) == decode_frames(x) + decode_frames(y),
    decreases x.len(),
{
    if x.len() == 0 {
        assert(x + y =~= y);
        assert(decode_frames(x) + decode_frames(y) =~= decode_frames(y));
    } else {
        lemma_decode_frames_concat(x.skip(1), y);
        assert((x + y).skip(1) =~= x.skip(1) + y);
        assert((x + y)[0] == x[0]);
        match sp_decode_frame(x[0]) {
            Some(e) => {
                assert(seq![e] + decode_frames(x.skip(1) + y) =~= (seq![e] + decode_frames(
                    x.skip(1),
                )) + decode_frames(y));
            },
            None => {},
        }
    }
}

/// Chunk-boundary independence, at the event level: however the same total
/// byte sequence is split into chunks, the decoded events come out the
/// same, in the same order.
pub proof fn lemma_event_chunk_independence(c1: Seq<Seq<u8>>, c2: Seq<Seq<u8>>)
    requires
        crate::frame::concat_chunks(c1) == crate::frame::concat_chunks(c2),
    ensures
        decode_frames(crate::frame::feed_all(Seq::empty(), c1).0) == decode_frames(
            crate::frame::feed_all(Seq::empty(), c2).0,
        ),
{
    crate::frame::lemma_chunk_boundary_independence(c1, c2);
}

/// A malformed frame is dropped without affecting the events decoded from
/// the well-formed frames around it.
pub proof fn lemma_malformed_frame_dropped(a: Seq<Seq<u8>>, bad: Seq<u8>, b: Seq<Seq<u8>>)
    requires
        sp_decode_frame(bad) is None,
    ensures
        decode_frames(a + seq![bad] + b) == decode_frames(a + b),
{
    lemma_decode_frames_concat(a + seq![bad], b);
    lemma_decode_frames_concat(a, seq![bad]);
    lemma_decode_frames_concat(a, b);
    assert(seq![bad].len() == 1);
    assert(seq![bad][0] == bad);
    assert(seq![bad].skip(1) =~= Seq::<Seq<u8>>::empty());
    assert(decode_frames(Seq::<Seq<u8>>::empty()) =~= Seq::<EventModel>::empty());
    assert(decode_frames(seq![bad]) =~= Seq::<EventModel>::empty());
    assert(decode_frames(a) + decode_frames(seq![bad]) =~= decode_frames(a));
}

} // verus!
