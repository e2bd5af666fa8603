//! The frame buffer: a backlog of received bytes from which whole frames are
//! cut out and decoded, one per call.

use vstd::prelude::*;
use vstd::slice::slice_subrange;

use crate::code::{code_byte, MessageCode};
use crate::code::lemma_byte_code_inverse;
use crate::message::{
    body_bytes, decode_span, encodable, frame_bytes, lemma_round_trip, parse_to_message, MsgElem,
};

verus! {

/// The backlog length at which the whole backlog is dropped before a decode.
pub const BACKLOG_CEILING: usize = 2000;

/// Byte value of the frame start code.
pub open spec fn start_byte() -> u8 {
    code_byte(MessageCode::MSG_START)
}

/// Byte value of the frame end code.
pub open spec fn end_byte() -> u8 {
    code_byte(MessageCode::MSG_END)
}

/// Index of the first `x` in `b` at or after `from`, if any.
pub open spec fn find_from(b: Seq<u8>, x: u8, from: int) -> Option<int>
    decreases b.len() - from,
{
    if from < 0 || from >= b.len() {
        None
    } else if b[from] == x {
        Some(from)
    } else {
        find_from(b, x, from + 1)
    }
}

/// What `find_from` returns: the first matching index at or after `from`,
/// or nothing when no index there matches.
pub proof fn lemma_find_from(b: Seq<u8>, x: u8, from: int)
    requires
        0 <= from,
    ensures
        match find_from(b, x, from) {
            Some(i) => {
                &&& from <= i < b.len()
                &&& b[i] == x
                &&& forall|k: int| from <= k < i ==> b[k] != x
            },
            None => forall|k: int| from <= k < b.len() ==> b[k] != x,
        },
    decreases b.len() - from,
{
    if from < b.len() && b[from] != x {
        lemma_find_from(b, x, from + 1);
    }
}

/// The positions of the first start code in `b` and of the first end code
/// after it, if both are there.
pub open spec fn next_frame(b: Seq<u8>) -> Option<(int, int)> {
    match find_from(b, start_byte(), 0) {
        Some(s) => match find_from(b, end_byte(), s) {
            Some(e) => Some((s, e)),
            None => None,
        },
        None => None,
    }
}

/// The backlog once the overflow guard has run: empty when it had reached
/// the ceiling, unchanged otherwise.
pub open spec fn guarded(b: Seq<u8>) -> Seq<u8> {
    if b.len() >= BACKLOG_CEILING {
        Seq::empty()
    } else {
        b
    }
}

/// One decode attempt on backlog `b`: the backlog left behind, and the
/// message found, if any.
///
/// After the overflow guard, the first frame is located; its inside is
/// decoded, and everything up to and including its end code is dropped.
/// Without a whole frame the guarded backlog stays as it is.
pub open spec fn decode_step(b: Seq<u8>) -> (Seq<u8>, Option<Seq<MsgElem>>) {
    let g = guarded(b);
    match next_frame(g) {
        Some((s, e)) => (g.subrange(e + 1, g.len() as int), Some(decode_span(g.subrange(s + 1, e)))),
        None => (g, None),
    }
}

/// The elements of a decoded message, if there is one.
pub open spec fn message_view(r: Option<Vec<MsgElem>>) -> Option<Seq<MsgElem>> {
    match r {
        Some(m) => Some(m@),
        None => None,
    }
}

/// The host's polling loop on backlog `b`: for each chunk in turn, the chunk
/// is appended and one decode attempt is made. Gives the final backlog and
/// the messages found, in order.
pub open spec fn poll(b: Seq<u8>, chunks: Seq<Seq<u8>>) -> (Seq<u8>, Seq<Seq<MsgElem>>)
    decreases chunks.len(),
{
    if chunks.len() == 0 {
        (b, Seq::empty())
    } else {
        let (b1, found) = decode_step(b + chunks[0]);
        let (b2, later) = poll(b1, chunks.drop_first());
        match found {
            Some(m) => (b2, seq![m] + later),
            None => (b2, later),
        }
    }
}

/// Whether the frame of `m` can be cut out of a stream: its elements are
/// encodable and no byte between its delimiters is the end code.
pub open spec fn framable(m: Seq<MsgElem>) -> bool {
    &&& encodable(m)
    &&& forall|i: int| 0 <= i < body_bytes(m).len() ==> #[trigger] body_bytes(m)[i] != end_byte()
}

/// A frame followed by any bytes, below the ceiling, decodes to its message
/// and leaves exactly the bytes that followed it.
pub proof fn lemma_frame_then(m: Seq<MsgElem>, t: Seq<u8>)
    requires
        framable(m),
        frame_bytes(m).len() + t.len() < BACKLOG_CEILING,
    ensures
        decode_step(frame_bytes(m) + t) == (t, Some(m)),
{
    let body = body_bytes(m);
    let b = frame_bytes(m) + t;
    let e = body.len() as int + 1;
    lemma_byte_code_inverse(MessageCode::MSG_START);
    lemma_byte_code_inverse(MessageCode::MSG_END);
    assert(b[0] == start_byte());
    assert(b[e] == end_byte());
    assert forall|k: int| 0 <= k < e implies b[k] != end_byte() by {
        if k > 0 {
            assert(b[k] == body[k - 1]);
        }
    }
    lemma_find_from(b, start_byte(), 0);
    lemma_find_from(b, end_byte(), 0);
    assert(b.subrange(1, e) =~= body);
    assert(b.subrange(e + 1, b.len() as int) =~= t);
    lemma_round_trip(m);
}

/// Decoding a whole frame on an empty backlog gives its message back and
/// leaves the backlog empty.
pub proof fn lemma_frame_round_trip(m: Seq<MsgElem>)
    requires
        framable(m),
        frame_bytes(m).len() < BACKLOG_CEILING,
    ensures
        decode_step(Seq::empty() + frame_bytes(m)) == (Seq::<u8>::empty(), Some(m)),
{
    assert(Seq::empty() + frame_bytes(m) =~= frame_bytes(m) + Seq::empty());
    lemma_frame_then(m, Seq::empty());
}

/// A backlog that holds only the first part of a frame yields nothing and is
/// kept as it is.
pub proof fn lemma_partial_frame_waits(m: Seq<MsgElem>, k: int)
    requires
        framable(m),
        frame_bytes(m).len() < BACKLOG_CEILING,
        0 <= k < frame_bytes(m).len(),
    ensures
        decode_step(frame_bytes(m).take(k)) == (frame_bytes(m).take(k), None::<Seq<MsgElem>>),
{
    let f = frame_bytes(m);
    let p = f.take(k);
    let body = body_bytes(m);
    lemma_byte_code_inverse(MessageCode::MSG_START);
    lemma_byte_code_inverse(MessageCode::MSG_END);
    assert forall|j: int| 0 <= j < p.len() implies p[j] != end_byte() by {
        if j > 0 {
            assert(p[j] == body[j - 1]);
        }
    }
    lemma_find_from(p, start_byte(), 0);
    if p.len() > 0 {
        assert(p[0] == start_byte());
        lemma_find_from(p, end_byte(), 0);
    }
}

/// Polling with chunks that carry nothing, on an empty backlog, finds
/// nothing and leaves the backlog empty.
proof fn lemma_poll_idle(chunks: Seq<Seq<u8>>)
    requires
        chunks.flatten().len() == 0,
    ensures
        poll(Seq::empty(), chunks) == (Seq::<u8>::empty(), Seq::<Seq<MsgElem>>::empty()),
    decreases chunks.len(),
{
    if chunks.len() > 0 {
        assert(Seq::<u8>::empty() + chunks[0] =~= Seq::<u8>::empty());
        lemma_find_from(Seq::<u8>::empty(), start_byte(), 0);
        lemma_poll_idle(chunks.drop_first());
    }
}

/// Polling from a backlog that holds the first part of a frame, with chunks
/// that carry the rest of it, finds the frame's message once and ends with
/// an empty backlog.
proof fn lemma_poll_rest_of_frame(m: Seq<MsgElem>, p: Seq<u8>, chunks: Seq<Seq<u8>>)
    requires
        framable(m),
        frame_bytes(m).len() < BACKLOG_CEILING,
        p + chunks.flatten() == frame_bytes(m),
        p.len() < frame_bytes(m).len(),
    ensures
        poll(p, chunks) == (Seq::<u8>::empty(), seq![m]),
    decreases chunks.len(),
{
    let f = frame_bytes(m);
    if chunks.len() == 0 {
        assert(p + chunks.flatten() =~= p);
    } else {
        let rest = chunks.drop_first();
        let p1 = p + chunks[0];
        assert(p1 + rest.flatten() =~= p + chunks.flatten());
        if p1.len() < f.len() {
            assert(p1 =~= f.take(p1.len() as int));
            lemma_partial_frame_waits(m, p1.len() as int);
            lemma_poll_rest_of_frame(m, p1, rest);
            assert(poll(p, chunks) == poll(p1, rest));
        } else {
            assert(p1 =~= f);
            lemma_frame_round_trip(m);
            assert(Seq::empty() + f =~= f);
            lemma_poll_idle(rest);
            assert(seq![m] + Seq::<Seq<MsgElem>>::empty() =~= seq![m]);
        }
    }
}

/// However the bytes of a frame are split into chunks, feeding them one at a
/// time with a decode attempt after each gives the frame's message exactly
/// once, as feeding the frame whole does, and ends with an empty backlog.
pub proof fn lemma_chunked_frame(m: Seq<MsgElem>, chunks: Seq<Seq<u8>>)
    requires
        framable(m),
        frame_bytes(m).len() < BACKLOG_CEILING,
        chunks.flatten() == frame_bytes(m),
    ensures
        poll(Seq::empty(), chunks) == (Seq::<u8>::empty(), seq![m]),
        poll(Seq::empty(), seq![frame_bytes(m)]) == (Seq::<u8>::empty(), seq![m]),
{
    assert(Seq::<u8>::empty() + chunks.flatten() =~= chunks.flatten());
    lemma_poll_rest_of_frame(m, Seq::empty(), chunks);
    let whole = seq![frame_bytes(m)];
    assert(whole.drop_first() =~= Seq::<Seq<u8>>::empty());
    assert(whole.flatten() =~= frame_bytes(m)) by {
        assert(whole.drop_first().flatten() =~= Seq::<u8>::empty());
    }
    assert(Seq::<u8>::empty() + whole.flatten() =~= whole.flatten());
    lemma_poll_rest_of_frame(m, Seq::empty(), whole);
}

/// Two frames fed together come out one per decode attempt, in order; a
/// third attempt finds nothing.
pub proof fn lemma_two_frames(m1: Seq<MsgElem>, m2: Seq<MsgElem>)
    requires
        framable(m1),
        framable(m2),
        frame_bytes(m1).len() + frame_bytes(m2).len() < BACKLOG_CEILING,
    ensures
        decode_step(frame_bytes(m1) + frame_bytes(m2)) == (frame_bytes(m2), Some(m1)),
        decode_step(frame_bytes(m2)) == (Seq::<u8>::empty(), Some(m2)),
        decode_step(Seq::<u8>::empty()) == (Seq::<u8>::empty(), None::<Seq<MsgElem>>),
{
    lemma_frame_then(m1, frame_bytes(m2));
    lemma_frame_then(m2, Seq::empty());
    assert(frame_bytes(m2) + Seq::<u8>::empty() =~= frame_bytes(m2));
    lemma_find_from(Seq::<u8>::empty(), start_byte(), 0);
}

/// A backlog that has reached the ceiling is dropped whole, whatever it
/// holds: the decode attempt finds nothing, and so does the next one.
pub proof fn lemma_overflow_reset(b: Seq<u8>)
    requires
        b.len() >= BACKLOG_CEILING,
    ensures
        decode_step(b) == (Seq::<u8>::empty(), None::<Seq<MsgElem>>),
        decode_step(decode_step(b).0) == (Seq::<u8>::empty(), None::<Seq<MsgElem>>),
{
    lemma_find_from(Seq::<u8>::empty(), start_byte(), 0);
}

/// Index of the first `x` in `b` at or after `from`, if any.
fn position_from(b: &[u8], x: u8, from: usize) -> (r: Option<usize>)
    requires
        from <= b@.len(),
    ensures
        match r {
            Some(i) => from <= i < b@.len() && find_from(b@, x, from as int) == Some(i as int),
            None => find_from(b@, x, from as int) is None,
        },
{
    let mut i = from;
    while i < b.len()
        invariant
            from <= i <= b@.len(),
            find_from(b@, x, from as int) == find_from(b@, x, i as int),
        decreases b@.len() - i,
    {
        if b[i] == x {
            return Some(i);
        }
        i += 1;
    }
    None
}

/// An owned backlog of received bytes.
pub struct MessageBuffer {
    buf: Vec<u8>,
}

impl View for MessageBuffer {
    type V = Seq<u8>;

    closed spec fn view(&self) -> Seq<u8> {
        self.buf@
    }
}

impl MessageBuffer {
    /// A buffer with an empty backlog.
    pub fn new() -> (r: MessageBuffer)
        ensures
            r@ == Seq::<u8>::empty(),
    {
        MessageBuffer { buf: Vec::new() }
    }

    /// The bytes received and not yet consumed.
    pub fn backlog(&self) -> (r: &[u8])
        ensures
            r@ == self@,
    {
        self.buf.as_slice()
    }

    /// Appends newly received bytes to the backlog.
    pub fn feed(&mut self, bytes: &[u8])
        ensures
            final(self)@ == old(self)@ + bytes@,
    {
        let mut i: usize = 0;
        while i < bytes.len()
            invariant
                i <= bytes@.len(),
                self@ == old(self)@ + bytes@.subrange(0, i as int),
            decreases bytes@.len() - i,
        {
            self.buf.push(bytes[i]);
            i += 1;
        }
        assert(bytes@.subrange(0, bytes@.len() as int) =~= bytes@);
    }

    /// Takes the first whole frame out of the backlog and decodes it.
    ///
    /// A backlog that has reached `BACKLOG_CEILING` is dropped first. When no
    /// start code, or no end code after it, is in the backlog, nothing is
    /// returned and the backlog is kept for later bytes.
    pub fn parse_message(&mut self) -> (r: Option<Vec<MsgElem>>)
        ensures
            final(self)@ == decode_step(old(self)@).0,
            message_view(r) == decode_step(old(self)@).1,
    {
        if self.buf.len() >= BACKLOG_CEILING {
            self.buf.clear();
        }
        let start = match position_from(self.buf.as_slice(), MessageCode::MSG_START.to_byte(), 0) {
            Some(s) => s,
            None => return None,
        };
        let end = match position_from(self.buf.as_slice(), MessageCode::MSG_END.to_byte(), start) {
            Some(e) => e,
            None => return None,
        };
        proof {
            lemma_find_from(self@, start_byte(), 0);
            lemma_find_from(self@, end_byte(), start as int);
        }
        let message = parse_to_message(slice_subrange(self.buf.as_slice(), start + 1, end));
        let rest = self.buf.split_off(end + 1);
        self.buf = rest;
        message
    }
}

} // verus!
