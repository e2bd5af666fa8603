//! Message elements, their wire encoding, the frame encoder, the span
//! decoder and the structural matcher.

use vstd::prelude::*;

use crate::code::{
    byte_code, byte_code_or_none, code_byte, is_type_tag, lemma_byte_code_inverse, u8_to_code,
    MessageCode,
};

verus! {

/// One element of a message: a bare code, or a four-byte numeric value.
///
/// A float travels as its IEEE-754 bit pattern, so `F32` holds those bits.
#[derive(Clone, Copy, Debug, PartialEq, Eq, Structural)]
pub enum MsgElem {
    Code(MessageCode),
    F32(u32),
    U32(u32),
    I32(i32),
}

/// The four little-endian bytes of `x`.
pub open spec fn le_bytes(x: u32) -> Seq<u8> {
    seq![
        (x & 0xff) as u8,
        ((x >> 8) & 0xff) as u8,
        ((x >> 16) & 0xff) as u8,
        ((x >> 24) & 0xff) as u8,
    ]
}

/// The value whose little-endian bytes are `s[0..4]`.
pub open spec fn le_value(s: Seq<u8>) -> u32
    recommends
        s.len() >= 4,
{
    (s[0] as u32) | (s[1] as u32) << 8 | (s[2] as u32) << 16 | (s[3] as u32) << 24
}

/// Reading back the little-endian bytes of `x` gives `x`.
pub proof fn lemma_le_value_of_bytes(x: u32)
    ensures
        le_bytes(x).len() == 4,
        le_value(le_bytes(x)) == x,
{
    let s = le_bytes(x);
    assert(s[0] == (x & 0xff) as u8);
    assert(s[1] == ((x >> 8) & 0xff) as u8);
    assert(s[2] == ((x >> 16) & 0xff) as u8);
    assert(s[3] == ((x >> 24) & 0xff) as u8);
    assert(x == (((x & 0xff) as u8) as u32) | (((x >> 8) & 0xff) as u8 as u32) << 8 | (((x >> 16)
        & 0xff) as u8 as u32) << 16 | (((x >> 24) & 0xff) as u8 as u32) << 24) by (bit_vector);
}

/// The bytes of one element: a code is its byte; a number is its type tag
/// followed by the four little-endian bytes of its value.
pub open spec fn elem_bytes(e: MsgElem) -> Seq<u8> {
    match e {
        MsgElem::Code(c) => seq![code_byte(c)],
        MsgElem::F32(x) => seq![code_byte(MessageCode::FLOAT_AHEAD)] + le_bytes(x),
        MsgElem::U32(x) => seq![code_byte(MessageCode::UINT_AHEAD)] + le_bytes(x),
        MsgElem::I32(x) => seq![code_byte(MessageCode::INT_AHEAD)] + le_bytes(#[verifier::truncate] (x as u32)),
    }
}

/// The bytes of the elements of `m`, one after the other.
pub open spec fn body_bytes(m: Seq<MsgElem>) -> Seq<u8>
    decreases m.len(),
{
    if m.len() == 0 {
        Seq::empty()
    } else {
        body_bytes(m.drop_last()) + elem_bytes(m.last())
    }
}

/// The frame that carries `m`: the start code, the elements, the end code.
pub open spec fn frame_bytes(m: Seq<MsgElem>) -> Seq<u8> {
    seq![code_byte(MessageCode::MSG_START)] + body_bytes(m) + seq![code_byte(MessageCode::MSG_END)]
}

/// The numeric element that type tag `tag` announces, with payload `x`.
pub open spec fn numeric_elem(tag: MessageCode, x: u32) -> MsgElem {
    if tag == MessageCode::FLOAT_AHEAD {
        MsgElem::F32(x)
    } else if tag == MessageCode::UINT_AHEAD {
        MsgElem::U32(x)
    } else {
        MsgElem::I32(#[verifier::truncate] (x as i32))
    }
}

/// The elements that the bytes strictly between two delimiters decode to.
///
/// Each byte is read as its code, or `NONE` where it has none. A type tag
/// with four more bytes after it reads them as its payload; a type tag with
/// fewer becomes `Code(NONE)` and ends the span. Any other code stands alone.
pub open spec fn decode_span(s: Seq<u8>) -> Seq<MsgElem>
    decreases s.len(),
{
    if s.len() == 0 {
        Seq::empty()
    } else {
        let c = byte_code_or_none(s[0]);
        if is_type_tag(c) {
            if s.len() >= 5 {
                seq![numeric_elem(c, le_value(s.subrange(1, 5)))] + decode_span(s.skip(5))
            } else {
                seq![MsgElem::Code(MessageCode::NONE)]
            }
        } else {
            seq![MsgElem::Code(c)] + decode_span(s.skip(1))
        }
    }
}

/// The variant of an element, ignoring what it holds.
pub open spec fn kind(e: MsgElem) -> int {
    match e {
        MsgElem::Code(_) => 0,
        MsgElem::F32(_) => 1,
        MsgElem::U32(_) => 2,
        MsgElem::I32(_) => 3,
    }
}

/// Whether `a` and `b` have the same length and the same variant at each
/// position.
pub open spec fn same_shape(a: Seq<MsgElem>, b: Seq<MsgElem>) -> bool {
    &&& a.len() == b.len()
    &&& forall|i: int| 0 <= i < a.len() ==> kind(#[trigger] a[i]) == kind(b[i])
}

/// Whether every element of `m` survives a trip through the wire: no bare
/// code in it is a type tag, which the decoder would read as announcing a
/// payload.
pub open spec fn encodable(m: Seq<MsgElem>) -> bool {
    forall|i: int| 0 <= i < m.len() ==> !(#[trigger] m[i] matches MsgElem::Code(c) && is_type_tag(c))
}

/// Decoding the bytes of one encodable element, followed by anything, gives
/// that element followed by the decoding of the rest.
proof fn lemma_decode_elem(e: MsgElem, t: Seq<u8>)
    requires
        encodable(seq![e]),
    ensures
        decode_span(elem_bytes(e) + t) == seq![e] + decode_span(t),
{
    assert(seq![e][0] == e);
    let s = elem_bytes(e) + t;
    match e {
        MsgElem::Code(c) => {
            lemma_byte_code_inverse(c);
            assert(s.skip(1) =~= t);
        },
        MsgElem::F32(x) => {
            lemma_byte_code_inverse(MessageCode::FLOAT_AHEAD);
            lemma_le_value_of_bytes(x);
            assert(s.subrange(1, 5) =~= le_bytes(x));
            assert(s.skip(5) =~= t);
        },
        MsgElem::U32(x) => {
            lemma_byte_code_inverse(MessageCode::UINT_AHEAD);
            lemma_le_value_of_bytes(x);
            assert(s.subrange(1, 5) =~= le_bytes(x));
            assert(s.skip(5) =~= t);
        },
        MsgElem::I32(x) => {
            let u = #[verifier::truncate] (x as u32);
            lemma_byte_code_inverse(MessageCode::INT_AHEAD);
            lemma_le_value_of_bytes(u);
            assert(s.subrange(1, 5) =~= le_bytes(u));
            assert(s.skip(5) =~= t);
            assert(#[verifier::truncate] ((#[verifier::truncate] (x as u32)) as i32) == x)
                by (bit_vector);
        },
    }
    assert(decode_span(s) =~= seq![e] + decode_span(t));
}

/// Decoding the bytes of an encodable message, followed by anything, gives
/// the message followed by the decoding of the rest.
pub proof fn lemma_decode_body_then(m: Seq<MsgElem>, t: Seq<u8>)
    requires
        encodable(m),
    ensures
        decode_span(body_bytes(m) + t) == m + decode_span(t),
    decreases m.len(),
{
    if m.len() == 0 {
        assert(body_bytes(m) + t =~= t);
        assert(m + decode_span(t) =~= decode_span(t));
    } else {
        let init = m.drop_last();
        let e = m.last();
        assert(encodable(init)) by {
            assert forall|i: int| 0 <= i < init.len() implies !(#[trigger] init[i] matches MsgElem::Code(
                c,
            ) && is_type_tag(c)) by {
                assert(init[i] == m[i]);
            }
        }
        assert(encodable(seq![e])) by {
            assert(seq![e][0] == m[m.len() - 1]);
        }
        lemma_decode_elem(e, t);
        lemma_decode_body_then(init, elem_bytes(e) + t);
        assert(body_bytes(m) + t =~= body_bytes(init) + (elem_bytes(e) + t));
        assert(init + (seq![e] + decode_span(t)) =~= m + decode_span(t));
    }
}

/// Decoding the encoding of an encodable message gives the message back,
/// numeric values bit for bit.
pub proof fn lemma_round_trip(m: Seq<MsgElem>)
    requires
        encodable(m),
    ensures
        decode_span(body_bytes(m)) == m,
{
    lemma_decode_body_then(m, Seq::empty());
    assert(body_bytes(m) + Seq::<u8>::empty() =~= body_bytes(m));
    assert(m + decode_span(Seq::<u8>::empty()) =~= m);
}

/// A byte outside the code table decodes to `Code(NONE)` in its place, and
/// the bytes around it decode as they would without it.
pub proof fn lemma_unknown_byte(m: Seq<MsgElem>, b: u8, t: Seq<u8>)
    requires
        encodable(m),
        byte_code(b) is None,
    ensures
        decode_span(body_bytes(m) + seq![b] + t) == m + seq![MsgElem::Code(MessageCode::NONE)]
            + decode_span(t),
{
    let s = seq![b] + t;
    assert(s.skip(1) =~= t);
    assert(decode_span(s) == seq![MsgElem::Code(MessageCode::NONE)] + decode_span(t));
    lemma_decode_body_then(m, s);
    assert(body_bytes(m) + seq![b] + t =~= body_bytes(m) + s);
    assert(m + (seq![MsgElem::Code(MessageCode::NONE)] + decode_span(t)) =~= m + seq![
        MsgElem::Code(MessageCode::NONE),
    ] + decode_span(t));
}

/// A type tag followed by fewer than four bytes at the end of a span decodes
/// to `Code(NONE)`, and nothing is read past the span.
pub proof fn lemma_truncated_tail(m: Seq<MsgElem>, tag: MessageCode, tail: Seq<u8>)
    requires
        encodable(m),
        is_type_tag(tag),
        tail.len() < 4,
    ensures
        decode_span(body_bytes(m) + seq![code_byte(tag)] + tail) == m + seq![
            MsgElem::Code(MessageCode::NONE),
        ],
{
    let s = seq![code_byte(tag)] + tail;
    lemma_byte_code_inverse(tag);
    assert(s[0] == code_byte(tag));
    assert(decode_span(s) == seq![MsgElem::Code(MessageCode::NONE)]);
    lemma_decode_body_then(m, s);
    assert(body_bytes(m) + seq![code_byte(tag)] + tail =~= body_bytes(m) + s);
}

/// Appends the little-endian bytes of `x` to `out`.
fn push_le_bytes(out: &mut Vec<u8>, x: u32)
    ensures
        final(out)@ == old(out)@ + le_bytes(x),
{
    out.push((x & 0xff) as u8);
    out.push(((x >> 8) & 0xff) as u8);
    out.push(((x >> 16) & 0xff) as u8);
    out.push(((x >> 24) & 0xff) as u8);
    assert(final(out)@ =~= old(out)@ + le_bytes(x));
}

/// The value whose little-endian bytes are `b[at..at + 4]`.
fn read_le(b: &[u8], at: usize) -> (x: u32)
    requires
        at + 4 <= b@.len(),
    ensures
        x == le_value(b@.subrange(at as int, at + 4)),
{
    (b[at] as u32) | (b[at + 1] as u32) << 8 | (b[at + 2] as u32) << 16 | (b[at + 3] as u32) << 24
}

impl MsgElem {
    /// The wire bytes of this element.
    pub fn to_u8_vec(&self) -> (out: Vec<u8>)
        ensures
            out@ == elem_bytes(*self),
    {
        let mut output: Vec<u8> = Vec::with_capacity(5);
        match self {
            MsgElem::Code(c) => {
                output.push(c.to_byte());
            },
            MsgElem::F32(x) => {
                output.push(MessageCode::FLOAT_AHEAD.to_byte());
                push_le_bytes(&mut output, *x);
            },
            MsgElem::U32(x) => {
                output.push(MessageCode::UINT_AHEAD.to_byte());
                push_le_bytes(&mut output, *x);
            },
            MsgElem::I32(x) => {
                output.push(MessageCode::INT_AHEAD.to_byte());
                push_le_bytes(&mut output, #[verifier::truncate] (*x as u32));
            },
        }
        assert(output@ =~= elem_bytes(*self));
        output
    }
}

/// Encodes `message` as one frame: the start code, the bytes of each element
/// in order, the end code. Payload bytes are not escaped.
pub fn convert_message(message: &[MsgElem]) -> (out: Vec<u8>)
    ensures
        out@ == frame_bytes(message@),
{
    let mut converted: Vec<u8> = Vec::new();
    converted.push(MessageCode::MSG_START.to_byte());
    let mut i: usize = 0;
    while i < message.len()
        invariant
            i <= message@.len(),
            converted@ == seq![code_byte(MessageCode::MSG_START)] + body_bytes(
                message@.subrange(0, i as int),
            ),
        decreases message@.len() - i,
    {
        let mut bytes = message[i].to_u8_vec();
        converted.append(&mut bytes);
        proof {
            let next = message@.subrange(0, i + 1);
            assert(next.drop_last() =~= message@.subrange(0, i as int));
        }
        i += 1;
    }
    converted.push(MessageCode::MSG_END.to_byte());
    assert(message@.subrange(0, message@.len() as int) =~= message@);
    converted
}

/// Decodes the bytes strictly between a frame's delimiters into elements.
///
/// Decoding never fails: a byte outside the code table becomes `Code(NONE)`,
/// and a type tag too close to the end of the span becomes `Code(NONE)` and
/// ends the message.
pub fn parse_to_message(buffer: &[u8]) -> (r: Option<Vec<MsgElem>>)
    ensures
        r matches Some(m) && m@ == decode_span(buffer@),
{
    let mut message: Vec<MsgElem> = Vec::new();
    let mut i: usize = 0;
    assert(buffer@.skip(0) =~= buffer@);
    assert(message@ + decode_span(buffer@) =~= decode_span(buffer@));
    while i < buffer.len()
        invariant
            i <= buffer@.len(),
            message@ + decode_span(buffer@.skip(i as int)) == decode_span(buffer@),
        decreases buffer@.len() - i,
    {
        let rest = Ghost(buffer@.skip(i as int));
        let c = match u8_to_code(buffer[i]) {
            Some(c) => c,
            None => MessageCode::NONE,
        };
        assert(c == byte_code_or_none(rest@[0]));
        let tagged = match c {
            MessageCode::FLOAT_AHEAD | MessageCode::UINT_AHEAD | MessageCode::INT_AHEAD => true,
            _ => false,
        };
        if tagged {
            if buffer.len() - i >= 5 {
                let x = read_le(buffer, i + 1);
                assert(rest@.subrange(1, 5) =~= buffer@.subrange(i + 1, i + 5));
                let elem = match c {
                    MessageCode::FLOAT_AHEAD => MsgElem::F32(x),
                    MessageCode::UINT_AHEAD => MsgElem::U32(x),
                    _ => MsgElem::I32(#[verifier::truncate] (x as i32)),
                };
                message.push(elem);
                assert(rest@.skip(5) =~= buffer@.skip(i + 5));
                i += 5;
            } else {
                message.push(MsgElem::Code(MessageCode::NONE));
                assert(buffer@.skip(buffer@.len() as int) =~= Seq::<u8>::empty());
                i = buffer.len();
            }
        } else {
            message.push(MsgElem::Code(c));
            assert(rest@.skip(1) =~= buffer@.skip(i + 1));
            i += 1;
        }
    }
    Some(message)
}

/// Whether `msg1` and `msg2` have the same shape: equal lengths and the same
/// variant at each position. Codes and numeric values are not compared.
pub fn compare_messages(msg1: &[MsgElem], msg2: &[MsgElem]) -> (r: bool)
    ensures
        r == same_shape(msg1@, msg2@),
        msg1@.len() != msg2@.len() ==> !r,
{
    if msg1.len() != msg2.len() {
        return false;
    }
    let mut i: usize = 0;
    while i < msg1.len()
        invariant
            i <= msg1@.len(),
            msg1@.len() == msg2@.len(),
            forall|j: int| 0 <= j < i ==> kind(#[trigger] msg1@[j]) == kind(msg2@[j]),
        decreases msg1@.len() - i,
    {
        let same = match (&msg1[i], &msg2[i]) {
            (MsgElem::Code(_), MsgElem::Code(_)) => true,
            (MsgElem::F32(_), MsgElem::F32(_)) => true,
            (MsgElem::U32(_), MsgElem::U32(_)) => true,
            (MsgElem::I32(_), MsgElem::I32(_)) => true,
            _ => false,
        };
        if !same {
            return false;
        }
        i += 1;
    }
    true
}

} // verus!
