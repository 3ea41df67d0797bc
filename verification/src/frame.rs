//! Frame assembly: turning an arbitrarily chunked byte stream into discrete
//! frames delimited by a blank line (two consecutive newline bytes), under a
//! hard bound on buffered bytes.

use vstd::prelude::*;

verus! {

/// Cap on buffered-but-unconsumed bytes for one in-flight stream (10 MiB).
/// Exceeding it is fatal for the whole stream, not just one frame.
pub const MAX_FRAME_SIZE: usize = 10 * 1024 * 1024;

/// The newline byte; a frame boundary is two of these in a row.
pub const NL: u8 = 10;

/// True when a frame boundary (two consecutive newline bytes) stands at
/// position `i` of `s`.
pub open spec fn boundary_at(s: Seq<u8>, i: int) -> bool {
    0 <= i && i + 1 < s.len() && s[i] == NL && s[i + 1] == NL
}

/// Index of the first frame boundary at or after `i`, if any.
pub open spec fn find_boundary_from(s: Seq<u8>, i: int) -> Option<int>
    decreases s.len() - i,
{
    if i < 0 || i + 1 >= s.len() {
        None
    } else if boundary_at(s, i) {
        Some(i)
    } else {
        find_boundary_from(s, i + 1)
    }
}

/// Index of the first frame boundary of `s`, if any.
pub open spec fn find_boundary(s: Seq<u8>) -> Option<int> {
    find_boundary_from(s, 0)
}

pub proof fn lemma_find_boundary_from(s: Seq<u8>, i: int)
    requires
        0 <= i,
    ensures
        match find_boundary_from(s, i) {
            Some(b) => i <= b && boundary_at(s, b) && (forall|j: int|
                i <= j < b ==> !boundary_at(s, j)),
            None => forall|j: int| i <= j ==> !boundary_at(s, j),
        },
    decreases s.len() - i,
{
    if i + 1 >= s.len() {
    } else if boundary_at(s, i) {
    } else {
        lemma_find_boundary_from(s, i + 1);
    }
}

pub proof fn lemma_find_boundary(s: Seq<u8>)
    ensures
        match find_boundary(s) {
            Some(b) => 0 <= b && boundary_at(s, b) && (forall|j: int|
                0 <= j < b ==> !boundary_at(s, j)),
            None => forall|j: int| !boundary_at(s, j),
        },
{
    lemma_find_boundary_from(s, 0);
    if find_boundary(s) is None {
        assert forall|j: int| !boundary_at(s, j) by {
            if j < 0 {
            } else {
                assert(!boundary_at(s, j));
            }
        }
    }
}

/// Splits a byte sequence into the complete frames it contains (each frame is
/// the bytes strictly before a boundary, with the boundary consumed) and the
/// leftover bytes after the last boundary.
pub open spec fn assemble(s: Seq<u8>) -> (Seq<Seq<u8>>, Seq<u8>)
    decreases s.len() via assemble_decreases
{
    match find_boundary(s) {
        None => (Seq::empty(), s),
        Some(i) => {
            let tail = assemble(s.subrange(i + 2, s.len() as int));
            (seq![s.subrange(0, i)] + tail.0, tail.1)
        },
    }
}

#[via_fn]
proof fn assemble_decreases(s: Seq<u8>) {
    lemma_find_boundary(s);
}

/// The frames of `s`.
pub open spec fn frames_of(s: Seq<u8>) -> Seq<Seq<u8>> {
    assemble(s).0
}

/// The leftover bytes of `s` after its last complete frame.
pub open spec fn leftover_of(s: Seq<u8>) -> Seq<u8> {
    assemble(s).1
}

/// Fatal condition: the stream buffered more bytes than the cap allows.
#[derive(Debug)]
pub struct FramingError;

impl FramingError {
    /// The message the stream operation fails with on overflow.
    pub fn message(&self) -> (s: String)
        ensures
            s@ == "Response exceeded safety limit"@,
    {
        String::from_str("Response exceeded safety limit")
    }
}

/// Buffers not-yet-framed bytes of one in-flight stream and hands out
/// complete frames as chunks arrive.
pub struct FrameAssembler {
    pub buf: Vec<u8>,
}

impl FrameAssembler {
    /// The buffer never exceeds the cap and never retains a complete frame.
    pub open spec fn wf(&self) -> bool {
        self.buf@.len() <= MAX_FRAME_SIZE && find_boundary(self.buf@) is None
    }

    pub fn new() -> (r: FrameAssembler)
        ensures
            r.wf(),
            r.buf@ == Seq::<u8>::empty(),
    {
        FrameAssembler { buf: Vec::new() }
    }

    /// Appends one chunk and extracts every complete frame now present.
    ///
    /// Fails exactly when the buffered bytes together with the chunk exceed
    /// the cap; on failure nothing is consumed and no frame is emitted.
    pub fn append(&mut self, chunk: &[u8]) -> (r: Result<Vec<Vec<u8>>, FramingError>)
        requires
            old(self).wf(),
        ensures
            final(self).wf(),
            (r is Err) <==> old(self).buf@.len() + chunk@.len() > MAX_FRAME_SIZE,
            r is Err ==> final(self).buf@ == old(self).buf@,
            (match r {
                Ok(frames) => frames.deep_view() == frames_of(old(self).buf@ + chunk@)
                    && final(self).buf@ == leftover_of(old(self).buf@ + chunk@),
                Err(_) => true,
            }),
    {
        if chunk.len() > MAX_FRAME_SIZE - self.buf.len() {
            return Err(FramingError);
        }
        self.buf.extend_from_slice(chunk);
        assert(self.buf@ == old(self).buf@ + chunk@);
        let ghost s0 = self.buf@;
        let mut frames: Vec<Vec<u8>> = Vec::new();
        assert(frames.deep_view() + frames_of(self.buf@) =~= frames_of(s0));
        loop
            invariant
                frames.deep_view() + frames_of(self.buf@) == frames_of(s0),
                leftover_of(self.buf@) == leftover_of(s0),
                self.buf@.len() <= MAX_FRAME_SIZE,
            ensures
                find_boundary(self.buf@) is None,
                frames.deep_view() + frames_of(self.buf@) == frames_of(s0),
                leftover_of(self.buf@) == leftover_of(s0),
                self.buf@.len() <= MAX_FRAME_SIZE,
            decreases self.buf@.len(),
        {
            let pos = match find_double_newline(self.buf.as_slice()) {
                None => break,
                Some(p) => p,
            };
            proof {
                lemma_find_boundary(self.buf@);
            }
            let ghost cur = self.buf@;
            let n = self.buf.len();
            let frame: Vec<u8> = vstd::slice::slice_to_vec(&self.buf.as_slice()[0..pos]);
            let rest: Vec<u8> = vstd::slice::slice_to_vec(&self.buf.as_slice()[pos + 2..n]);
            self.buf = rest;
            proof {
                assert(frame@ =~= cur.subrange(0, pos as int));
                assert(self.buf@ =~= cur.subrange(pos as int + 2, cur.len() as int));
                let ghost old_dv = frames.deep_view();
                assert(frames_of(cur) == seq![frame@] + frames_of(self.buf@));
                assert(old_dv + frames_of(cur) =~= (old_dv + seq![frame@]) + frames_of(self.buf@));
            }
            let ghost old_dv = frames.deep_view();
            frames.push(frame);
            proof {
                assert(frames.deep_view() =~~= old_dv + seq![frame@]);
            }
        }
        Ok(frames)
    }
}

/// If a boundary stands at `i` and none stands before it, then `i` is the
/// first boundary.
pub proof fn lemma_first_boundary(s: Seq<u8>, i: int)
    requires
        boundary_at(s, i),
        forall|j: int| 0 <= j < i ==> !boundary_at(s, j),
    ensures
        find_boundary(s) == Some(i),
{
    lemma_find_boundary(s);
    match find_boundary(s) {
        None => {
            assert(!boundary_at(s, i));
        },
        Some(b) => {
            if b < i {
                assert(!boundary_at(s, b));
            } else if i < b {
                assert(!boundary_at(s, i));
            }
        },
    }
}

/// The leftover of any byte sequence holds no complete frame.
pub proof fn lemma_leftover_no_boundary(s: Seq<u8>)
    ensures
        find_boundary(leftover_of(s)) is None,
    decreases s.len(),
{
    lemma_find_boundary(s);
    match find_boundary(s) {
        None => {},
        Some(i) => {
            lemma_leftover_no_boundary(s.subrange(i + 2, s.len() as int));
        },
    }
}

/// Splitting a byte sequence at any point and assembling the left part first
/// gives the same frames as assembling the whole.
pub proof fn lemma_assemble_concat(a: Seq<u8>, b: Seq<u8>)
    ensures
        frames_of(a + b) == frames_of(a) + frames_of(leftover_of(a) + b),
        leftover_of(a + b) == leftover_of(leftover_of(a) + b),
    decreases a.len(),
{
    lemma_find_boundary(a);
    match find_boundary(a) {
        None => {
            assert(leftover_of(a) + b =~= a + b);
            assert(frames_of(a) + frames_of(a + b) =~= frames_of(a + b));
        },
        Some(i) => {
            assert forall|j: int| 0 <= j < i implies !boundary_at(a + b, j) by {
                assert(!boundary_at(a, j));
            }
            assert(boundary_at(a + b, i));
            lemma_first_boundary(a + b, i);
            let a2 = a.subrange(i + 2, a.len() as int);
            assert((a + b).subrange(i + 2, (a + b).len() as int) =~= a2 + b);
            assert((a + b).subrange(0, i) =~= a.subrange(0, i));
            lemma_assemble_concat(a2, b);
            assert(leftover_of(a) == leftover_of(a2));
            assert(frames_of(a + b) =~= frames_of(a) + frames_of(leftover_of(a) + b));
        },
    }
}

/// Feeding the chunks of `cs` one by one, starting from the buffered bytes
/// `carry`: all frames extracted, and the final leftover.
pub open spec fn feed_all(carry: Seq<u8>, cs: Seq<Seq<u8>>) -> (Seq<Seq<u8>>, Seq<u8>)
    decreases cs.len(),
{
    if cs.len() == 0 {
        (Seq::empty(), carry)
    } else {
        let first = assemble(carry + cs[0]);
        let rest = feed_all(first.1, cs.skip(1));
        (first.0 + rest.0, rest.1)
    }
}

/// The concatenation of a sequence of chunks.
pub open spec fn concat_chunks(cs: Seq<Seq<u8>>) -> Seq<u8>
    decreases cs.len(),
{
    if cs.len() == 0 {
        Seq::empty()
    } else {
        cs[0] + concat_chunks(cs.skip(1))
    }
}

/// Feeding chunks one by one extracts exactly the frames of their
/// concatenation, however the bytes are split.
pub proof fn lemma_feed_all(carry: Seq<u8>, cs: Seq<Seq<u8>>)
    requires
        find_boundary(carry) is None,
    ensures
        feed_all(carry, cs) == assemble(carry + concat_chunks(cs)),
    decreases cs.len(),
{
    if cs.len() == 0 {
        assert(carry + concat_chunks(cs) =~= carry);
        assert(frames_of(carry) =~= Seq::<Seq<u8>>::empty());
        assert(feed_all(carry, cs) == assemble(carry + concat_chunks(cs)));
    } else {
        let a = carry + cs[0];
        let b = concat_chunks(cs.skip(1));
        lemma_leftover_no_boundary(a);
        lemma_feed_all(leftover_of(a), cs.skip(1));
        lemma_assemble_concat(a, b);
        assert(carry + concat_chunks(cs) =~= a + b);
        assert(feed_all(carry, cs).0 =~= assemble(carry + concat_chunks(cs)).0);
    }
}

/// Chunk-boundary independence: two ways of splitting the same total byte
/// sequence into chunks yield the same ordered sequence of frames.
pub proof fn lemma_chunk_boundary_independence(c1: Seq<Seq<u8>>, c2: Seq<Seq<u8>>)
    requires
        concat_chunks(c1) == concat_chunks(c2),
    ensures
        feed_all(Seq::empty(), c1) == feed_all(Seq::empty(), c2),
{
    lemma_feed_all(Seq::empty(), c1);
    lemma_feed_all(Seq::empty(), c2);
    assert(Seq::empty() + concat_chunks(c1) =~= Seq::empty() + concat_chunks(c2));
}

/// Index of the first pair of consecutive newline bytes in `buf`, if any.
pub fn find_double_newline(buf: &[u8]) -> (r: Option<usize>)
    ensures
        match r {
            Some(i) => find_boundary(buf@) == Some(i as int),
            None => find_boundary(buf@) is None,
        },
{
    if buf.len() < 2 {
        return None;
    }
    let mut i: usize = 0;
    while i < buf.len() - 1
        invariant
            buf@.len() >= 2,
            i + 1 <= buf@.len(),
            find_boundary(buf@) == find_boundary_from(buf@, i as int),
        decreases buf@.len() - i,
    {
        if *vstd::slice::slice_index_get(buf, i) == NL
            && *vstd::slice::slice_index_get(buf, i + 1) == NL {
            return Some(i);
        }
        i = i + 1;
    }
    None
}

} // verus!
