//! Framing: messages on the wire are separated by a single zero byte.

use vstd::prelude::*;
use vstd::string::StringSliceAdditionalSpecFns;
use vstd::utf8::*;
use crate::text::string_from_utf8;

verus! {

/// The byte that ends every frame.
pub const DELIMITER: u8 = 0;

/// Number of bytes in front of the first delimiter of `s`; the whole length
/// when `s` holds no delimiter.
pub open spec fn payload_len(s: Seq<u8>) -> int
    decreases s.len(),
{
    if s.len() == 0 || s[0] == 0u8 {
        0
    } else {
        1 + payload_len(s.drop_first())
    }
}

/// Whether `s` holds a complete frame.
pub open spec fn has_frame(s: Seq<u8>) -> bool {
    0 <= payload_len(s) < s.len()
}

/// The payload of the first frame of `s`.
pub open spec fn first_payload(s: Seq<u8>) -> Seq<u8> {
    s.subrange(0, payload_len(s))
}

/// What follows the first frame of `s`.
pub open spec fn after_first(s: Seq<u8>) -> Seq<u8>
    recommends
        has_frame(s),
{
    s.subrange(payload_len(s) + 1, s.len() as int)
}

/// The payloads of all complete frames of `s`, in wire order.
pub open spec fn frames(s: Seq<u8>) -> Seq<Seq<u8>>
    decreases s.len(),
{
    if has_frame(s) {
        seq![first_payload(s)] + frames(after_first(s))
    } else {
        Seq::empty()
    }
}

/// The bytes behind the last delimiter of `s`: the start of a frame that is
/// not complete yet.
pub open spec fn pending(s: Seq<u8>) -> Seq<u8>
    decreases s.len(),
{
    if has_frame(s) {
        pending(after_first(s))
    } else {
        s
    }
}

/// `payload_len` is the position of the first delimiter.
pub proof fn lemma_payload_len(s: Seq<u8>)
    ensures
        0 <= payload_len(s) <= s.len(),
        forall|j: int| 0 <= j < payload_len(s) ==> s[j] != 0u8,
        has_frame(s) ==> s[payload_len(s)] == 0u8,
    decreases s.len(),
{
    if s.len() == 0 || s[0] == 0u8 {
    } else {
        let t = s.drop_first();
        lemma_payload_len(t);
        assert forall|j: int| 0 <= j < payload_len(s) implies s[j] != 0u8 by {
            if j > 0 {
                assert(s[j] == t[j - 1]);
            }
        }
        if has_frame(s) {
            assert(s[payload_len(s)] == t[payload_len(t)]);
        }
    }
}

/// A position that holds a delimiter, with none in front of it, is
/// `payload_len`.
pub proof fn lemma_first_delimiter(s: Seq<u8>, n: int)
    requires
        0 <= n <= s.len(),
        forall|j: int| 0 <= j < n ==> s[j] != 0u8,
        n < s.len() ==> s[n] == 0u8,
    ensures
        payload_len(s) == n,
    decreases s.len(),
{
    if s.len() == 0 || s[0] == 0u8 {
        if n > 0 {
            assert(s[0] != 0u8);
        }
    } else {
        let t = s.drop_first();
        assert forall|j: int| 0 <= j < n - 1 implies t[j] != 0u8 by {
            assert(t[j] == s[j + 1]);
        }
        lemma_first_delimiter(t, n - 1);
    }
}

/// Bytes that arrive behind a buffer with a complete frame leave its first
/// frame as it is.
pub proof fn lemma_append_keeps_first(a: Seq<u8>, b: Seq<u8>)
    requires
        has_frame(a),
    ensures
        has_frame(a + b),
        first_payload(a + b) == first_payload(a),
        after_first(a + b) == after_first(a) + b,
{
    lemma_payload_len(a);
    let n = payload_len(a);
    assert forall|j: int| 0 <= j < n implies (a + b)[j] != 0u8 by {
        assert((a + b)[j] == a[j]);
    }
    assert((a + b)[n] == a[n]);
    lemma_first_delimiter(a + b, n);
    assert(first_payload(a + b) =~= first_payload(a));
    assert(after_first(a + b) =~= after_first(a) + b);
}

/// Framing does not depend on where the stream was cut: feeding `a` and then
/// `b` to a codec that keeps the pending bytes in between yields the frames of
/// `a + b`, and leaves the same pending bytes.
pub proof fn lemma_split_invariance(a: Seq<u8>, b: Seq<u8>)
    ensures
        frames(a + b) == frames(a) + frames(pending(a) + b),
        pending(a + b) == pending(pending(a) + b),
    decreases a.len(),
{
    if has_frame(a) {
        lemma_payload_len(a);
        lemma_append_keeps_first(a, b);
        lemma_split_invariance(after_first(a), b);
        assert(frames(a + b) =~= frames(a) + frames(pending(a) + b));
    } else {
        assert(frames(a) =~= Seq::<Seq<u8>>::empty());
        assert(frames(a + b) =~= frames(a) + frames(pending(a) + b));
    }
}

/// The bytes of a run of chunks, one behind the other.
pub open spec fn joined(chunks: Seq<Seq<u8>>) -> Seq<u8>
    decreases chunks.len(),
{
    if chunks.len() == 0 {
        Seq::empty()
    } else {
        chunks[0] + joined(chunks.drop_first())
    }
}

/// The payloads that come out when the chunks are fed one by one to a buffer
/// that holds `held`.
pub open spec fn fed_frames(held: Seq<u8>, chunks: Seq<Seq<u8>>) -> Seq<Seq<u8>>
    decreases chunks.len(),
{
    if chunks.len() == 0 {
        Seq::empty()
    } else {
        frames(held + chunks[0]) + fed_frames(pending(held + chunks[0]), chunks.drop_first())
    }
}

/// What the buffer holds when all chunks have been fed to it.
pub open spec fn fed_pending(held: Seq<u8>, chunks: Seq<Seq<u8>>) -> Seq<u8>
    decreases chunks.len(),
{
    if chunks.len() == 0 {
        held
    } else {
        fed_pending(pending(held + chunks[0]), chunks.drop_first())
    }
}

/// What `pending` leaves holds no complete frame.
pub proof fn lemma_pending_is_partial(s: Seq<u8>)
    ensures
        !has_frame(pending(s)),
        frames(pending(s)) == Seq::<Seq<u8>>::empty(),
        pending(pending(s)) == pending(s),
    decreases s.len(),
{
    if has_frame(s) {
        lemma_payload_len(s);
        lemma_pending_is_partial(after_first(s));
    }
}

/// However a stream is cut into chunks, feeding them one by one to a buffer
/// that holds no complete frame yields the frames of the whole stream, in the
/// same order, and leaves the same bytes pending.
pub proof fn lemma_chunking_invariance(held: Seq<u8>, chunks: Seq<Seq<u8>>)
    requires
        !has_frame(held),
    ensures
        fed_frames(held, chunks) == frames(held + joined(chunks)),
        fed_pending(held, chunks) == pending(held + joined(chunks)),
    decreases chunks.len(),
{
    if chunks.len() == 0 {
        assert(held + joined(chunks) =~= held);
    } else {
        let first = chunks[0];
        let rest = chunks.drop_first();
        let now = held + first;
        assert(held + joined(chunks) =~= now + joined(rest));
        lemma_split_invariance(now, joined(rest));
        lemma_pending_is_partial(now);
        lemma_chunking_invariance(pending(now), rest);
    }
}

/// A payload without a delimiter in it, framed, reads back as itself, and
/// what stands behind the frame is read as if the frame had not been there.
pub proof fn lemma_frame_round_trip(payload: Seq<u8>, rest: Seq<u8>)
    requires
        !payload.contains(0u8),
    ensures
        has_frame(payload.push(0u8) + rest),
        first_payload(payload.push(0u8) + rest) == payload,
        after_first(payload.push(0u8) + rest) == rest,
        frames(payload.push(0u8) + rest) == seq![payload] + frames(rest),
        pending(payload.push(0u8) + rest) == pending(rest),
{
    let s = payload.push(0u8) + rest;
    let n = payload.len() as int;
    assert forall|j: int| 0 <= j < n implies s[j] != 0u8 by {
        assert(s[j] == payload[j]);
        assert(payload.contains(payload[j]));
    }
    assert(s[n] == 0u8);
    lemma_first_delimiter(s, n);
    assert(first_payload(s) =~= payload);
    assert(after_first(s) =~= rest);
}

/// Why a frame could not be handed on as a message.
#[derive(Clone, Copy, Debug, PartialEq, Eq, Structural)]
pub enum FramingError {
    /// The payload is not well-formed UTF-8.
    InvalidUtf8,
}

/// What a payload decodes to: its text, or the framing error.
pub open spec fn decoded(payload: Seq<u8>) -> Result<Seq<char>, FramingError> {
    if valid_utf8(payload) {
        Ok(decode_utf8(payload))
    } else {
        Err(FramingError::InvalidUtf8)
    }
}

/// A message text whose bytes hold no delimiter, framed, is read back as
/// that very text, and what stands behind its frame is left for later.
pub proof fn lemma_message_round_trip(text: Seq<char>, rest: Seq<u8>)
    requires
        !encode_utf8(text).contains(0u8),
    ensures
        ({
            let wire = encode_utf8(text).push(0u8) + rest;
            &&& has_frame(wire)
            &&& decoded(first_payload(wire)) == Ok::<Seq<char>, FramingError>(text)
            &&& after_first(wire) == rest
        }),
{
    lemma_frame_round_trip(encode_utf8(text), rest);
    encode_utf8_valid_utf8(text);
    encode_utf8_decode_utf8(text);
}

/// The view of a decoded frame.
pub open spec fn frame_view(r: Result<String, FramingError>) -> Result<Seq<char>, FramingError> {
    match r {
        Ok(s) => Ok(s@),
        Err(e) => Err(e),
    }
}

/// Takes the first complete frame out of `buffer`.
///
/// Without a delimiter the buffer is left as it is and `None` is returned.
/// Otherwise the frame and its delimiter leave the buffer, and the payload is
/// returned as text, or as a framing error where it is not UTF-8.
pub fn read_null_terminated_message(buffer: &mut Vec<u8>) -> (r: Option<Result<String, FramingError>>)
    ensures
        r is Some <==> has_frame(old(buffer)@),
        r is None ==> final(buffer)@ == old(buffer)@,
        r matches Some(m) ==> {
            &&& final(buffer)@ == after_first(old(buffer)@)
            &&& frame_view(m) == decoded(first_payload(old(buffer)@))
        },
{
    let len: usize = buffer.len();
    let mut pos: usize = 0;
    while pos < len && buffer[pos] != DELIMITER
        invariant
            len == buffer@.len(),
            buffer@ == old(buffer)@,
            0 <= pos <= len,
            forall|j: int| 0 <= j < pos ==> buffer@[j] != 0u8,
        decreases len - pos,
    {
        pos += 1;
    }
    proof {
        lemma_first_delimiter(buffer@, pos as int);
    }
    if pos == len {
        return None;
    }
    let mut payload: Vec<u8> = Vec::with_capacity(pos);
    let mut i: usize = 0;
    while i < pos
        invariant
            len == buffer@.len(),
            0 <= i <= pos < len,
            payload@ == buffer@.subrange(0, i as int),
        decreases pos - i,
    {
        payload.push(buffer[i]);
        i += 1;
        assert(payload@ =~= buffer@.subrange(0, i as int));
    }
    let mut rest: Vec<u8> = Vec::with_capacity(len - pos - 1);
    let mut k: usize = pos + 1;
    while k < len
        invariant
            len == buffer@.len(),
            pos + 1 <= k <= len,
            rest@ == buffer@.subrange(pos + 1, k as int),
        decreases len - k,
    {
        rest.push(buffer[k]);
        k += 1;
        assert(rest@ =~= buffer@.subrange(pos + 1, k as int));
    }
    *buffer = rest;
    match string_from_utf8(payload) {
        Some(s) => Some(Ok(s)),
        None => Some(Err(FramingError::InvalidUtf8)),
    }
}

/// Takes newly arrived bytes into `buffer` and hands out every frame that is
/// complete by now, in wire order. The bytes behind the last delimiter stay
/// in the buffer.
pub fn push_bytes(buffer: &mut Vec<u8>, bytes: &[u8]) -> (out: Vec<Result<String, FramingError>>)
    ensures
        final(buffer)@ == pending(old(buffer)@ + bytes@),
        out@.len() == frames(old(buffer)@ + bytes@).len(),
        forall|k: int|
            0 <= k < out@.len() ==> frame_view(#[trigger] out@[k]) == decoded(
                frames(old(buffer)@ + bytes@)[k],
            ),
{
    buffer.extend_from_slice(bytes);
    let ghost start = buffer@;
    let mut out: Vec<Result<String, FramingError>> = Vec::new();
    loop
        invariant
            start == old(buffer)@ + bytes@,
            pending(buffer@) == pending(start),
            frames(start).len() == out@.len() + frames(buffer@).len(),
            forall|k: int|
                0 <= k < out@.len() ==> frame_view(#[trigger] out@[k]) == decoded(
                    frames(start)[k],
                ),
            forall|k: int|
                0 <= k < frames(buffer@).len() ==> frames(buffer@)[k] == frames(start)[out@.len()
                    + k],
        ensures
            !has_frame(buffer@),
        decreases buffer@.len(),
    {
        let ghost before = buffer@;
        proof {
            lemma_payload_len(before);
        }
        match read_null_terminated_message(buffer) {
            None => {
                break ;
            },
            Some(frame) => {
                proof {
                    assert(frames(before)[0] == first_payload(before));
                    assert forall|k: int| 0 <= k < frames(buffer@).len() implies frames(
                        buffer@,
                    )[k] == frames(start)[out@.len() + 1 + k] by {
                        assert(frames(buffer@)[k] == frames(before)[k + 1]);
                    }
                }
                out.push(frame);
            },
        }
    }
    out
}

/// Frames a message for the wire: the bytes of its text, then the delimiter.
pub fn frame_message(text: &str) -> (r: Vec<u8>)
    ensures
        r@ == text.spec_bytes().push(0u8),
{
    let mut out: Vec<u8> = Vec::new();
    out.extend_from_slice(text.as_bytes());
    out.push(DELIMITER);
    out
}

} // verus!
