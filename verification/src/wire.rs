//! The wire codec: every message travels as one frame, a one-byte type
//! tag, a four-byte big-endian payload length, and the payload bytes.

use vstd::prelude::*;
use crate::cbor::{spec_be_bytes, spec_be_val, lemma_be_bytes_len, lemma_be_val_of_bytes,
    lemma_pow256_vals, pow256};
use crate::codec::{
    spec_enc_message, spec_dec_message_full, encode_message, decode_message, message_wf,
    lemma_message_round_trip,
};
use crate::message::{Message, MessageV, MessageType, spec_tag_of, spec_message_type};

verus! {

/// What can go wrong between the bytes of one frame and a message.
#[derive(Debug, Clone, Copy, PartialEq, Eq, Structural)]
pub enum ProtocolError {
    /// The payload does not fit the four-byte length field.
    Oversize,
    /// The tag byte names no message type.
    UnknownTag,
    /// The payload is not one well-formed message item.
    Malformed,
    /// The payload's discriminator disagrees with the frame tag.
    TagMismatch,
}

/// The bytes of one frame: `tag || length || payload`, the length written
/// big-endian over four bytes.
pub open spec fn spec_frame(tag: u8, payload: Seq<u8>) -> Seq<u8>
    recommends
        payload.len() <= u32::MAX,
{
    seq![tag] + spec_be_bytes(payload.len() as u32 as nat, 4) + payload
}

/// Frames an already-encoded payload.
pub fn encode_frame(tag: u8, payload: &Vec<u8>) -> (r: Result<Vec<u8>, ProtocolError>)
    ensures
        payload@.len() <= u32::MAX ==> (r matches Ok(bytes) && bytes@ == spec_frame(
            tag,
            payload@,
        )),
        payload@.len() > u32::MAX ==> r == Err::<Vec<u8>, ProtocolError>(ProtocolError::Oversize),
{
    if payload.len() > u32::MAX as usize {
        return Err(ProtocolError::Oversize);
    }
    let n = payload.len() as u32;
    let mut out: Vec<u8> = Vec::new();
    out.push(tag);
    out.push((n / 0x100_0000) as u8);
    out.push(((n / 0x1_0000) % 256) as u8);
    out.push(((n / 256) % 256) as u8);
    out.push((n % 256) as u8);
    let mut i: usize = 0;
    let ghost head = out@;
    while i < payload.len()
        invariant
            i <= payload@.len(),
            out@ == head + payload@.subrange(0, i as int),
        decreases payload@.len() - i,
    {
        out.push(payload[i]);
        proof {
            assert(payload@.subrange(0, i + 1) =~= payload@.subrange(0, i as int).push(
                payload@[i as int],
            ));
            assert((head + payload@.subrange(0, i as int)).push(payload@[i as int]) =~= head
                + payload@.subrange(0, i + 1));
        }
        i = i + 1;
    }
    proof {
        crate::cbor::lemma_be_bytes_index(n as nat, 4);
        lemma_pow256_vals();
        assert(payload@.subrange(0, payload@.len() as int) =~= payload@);
        assert(out@ =~= spec_frame(tag, payload@));
    }
    Ok(out)
}

impl Message {
    /// The full wire form of this message: its tag byte, the length of
    /// its payload big-endian over four bytes, then the payload. A
    /// payload beyond the length field's range is refused.
    pub fn setup_for_network(&self) -> (r: Result<Vec<u8>, ProtocolError>)
        ensures
            spec_enc_message(self@).len() <= u32::MAX ==> (r matches Ok(bytes) && bytes@
                == spec_frame(spec_tag_of(spec_message_type(self@)), spec_enc_message(self@))),
            spec_enc_message(self@).len() > u32::MAX ==> r == Err::<Vec<u8>, ProtocolError>(
                ProtocolError::Oversize,
            ),
    {
        let payload = encode_message(self);
        let tag = self.message_type().tag();
        encode_frame(tag, &payload)
    }
}

/// What reading one frame from a buffer yields.
#[derive(Debug)]
pub enum ReadOutcome {
    /// The buffer does not yet hold one whole frame.
    Incomplete,
    /// The frame is complete but not a valid message; the error says why.
    Invalid(ProtocolError),
    /// One message, and how many bytes of the buffer it occupied.
    Complete(Message, usize),
}

/// The specification mirror of [`ReadOutcome`].
pub enum ReadV {
    Incomplete,
    Invalid(ProtocolError),
    Complete(MessageV, int),
}

/// Reads one frame from the front of a buffer: the frame's length field
/// decides how many bytes it spans; its payload must be one message item
/// whose discriminator equals the tag byte.
pub open spec fn spec_read_frame(b: Seq<u8>) -> ReadV {
    if b.len() < 5 {
        ReadV::Incomplete
    } else {
        let tag = b[0];
        let len = spec_be_val(b.subrange(1, 5));
        if 5 + len > b.len() {
            ReadV::Incomplete
        } else {
            let payload = b.subrange(5, 5 + len as int);
            if tag > 18 {
                ReadV::Invalid(ProtocolError::UnknownTag)
            } else {
                match spec_dec_message_full(payload) {
                    None => ReadV::Invalid(ProtocolError::Malformed),
                    Some(m) => if spec_tag_of(spec_message_type(m)) == tag {
                        ReadV::Complete(m, 5 + len as int)
                    } else {
                        ReadV::Invalid(ProtocolError::TagMismatch)
                    },
                }
            }
        }
    }
}

/// Reads one frame from the front of `b`.
pub fn read_frame(b: &[u8]) -> (r: ReadOutcome)
    ensures
        match r {
            ReadOutcome::Incomplete => spec_read_frame(b@) is Incomplete,
            ReadOutcome::Invalid(e) => spec_read_frame(b@) == ReadV::Invalid(e),
            ReadOutcome::Complete(m, c) => spec_read_frame(b@) == ReadV::Complete(m@, c as int)
                && 5 <= c <= b@.len(),
        },
{
    if b.len() < 5 {
        return ReadOutcome::Incomplete;
    }
    let tag = *vstd::slice::slice_index_get(b, 0);
    let b1 = *vstd::slice::slice_index_get(b, 1);
    let b2 = *vstd::slice::slice_index_get(b, 2);
    let b3 = *vstd::slice::slice_index_get(b, 3);
    let b4 = *vstd::slice::slice_index_get(b, 4);
    let len: u64 = ((b1 as u64) * 0x100_0000) + ((b2 as u64) * 0x1_0000) + ((b3 as u64) * 256) + (
    b4 as u64);
    proof {
        reveal_with_fuel(spec_be_val, 6);
        let s = b@.subrange(1, 5);
        assert(s.len() == 4);
        assert(s.drop_last() =~= b@.subrange(1, 4));
        assert(s.drop_last().drop_last() =~= b@.subrange(1, 3));
        assert(s.drop_last().drop_last().drop_last() =~= b@.subrange(1, 2));
        assert(s.drop_last().drop_last().drop_last().drop_last() =~= b@.subrange(1, 1));
        assert(b@.subrange(1, 1).len() == 0);
        assert(spec_be_val(b@.subrange(1, 5)) == ((b1 as nat) * 0x100_0000) + ((b2 as nat)
            * 0x1_0000) + ((b3 as nat) * 256) + (b4 as nat));
    }
    if len > (b.len() - 5) as u64 {
        return ReadOutcome::Incomplete;
    }
    let end = 5 + len as usize;
    let payload = vstd::slice::slice_subrange(b, 5, end);
    if tag > 18 {
        return ReadOutcome::Invalid(ProtocolError::UnknownTag);
    }
    match decode_message(payload) {
        None => ReadOutcome::Invalid(ProtocolError::Malformed),
        Some(m) => {
            let t = m.message_type().tag();
            if t == tag {
                ReadOutcome::Complete(m, end)
            } else {
                ReadOutcome::Invalid(ProtocolError::TagMismatch)
            }
        }
    }
}

/// A whole frame whose tag byte names no message type is refused as an
/// unknown tag, whatever its payload holds.
pub proof fn lemma_unknown_tag_refused(b: Seq<u8>)
    requires
        b.len() >= 5,
        5 + spec_be_val(b.subrange(1, 5)) <= b.len(),
        b[0] > 18,
    ensures
        spec_read_frame(b) == ReadV::Invalid(ProtocolError::UnknownTag),
{
}

/// A framed message reads back as itself, whatever follows it in the
/// buffer.
pub proof fn lemma_frame_round_trip(m: MessageV, rest: Seq<u8>)
    requires
        message_wf(m),
        spec_enc_message(m).len() <= u32::MAX,
    ensures
        spec_read_frame(
            spec_frame(spec_tag_of(spec_message_type(m)), spec_enc_message(m)) + rest,
        ) == ReadV::Complete(
            m,
            5 + spec_enc_message(m).len() as int,
        ),
{
    let tag = spec_tag_of(spec_message_type(m));
    let payload = spec_enc_message(m);
    let b = spec_frame(tag, payload) + rest;
    lemma_be_bytes_len(payload.len() as u32 as nat, 4);
    assert(b.len() >= 5 + payload.len());
    assert(b[0] == tag);
    assert(b.subrange(1, 5) =~= spec_be_bytes(payload.len() as u32 as nat, 4));
    lemma_pow256_vals();
    lemma_be_val_of_bytes(payload.len() as u32 as nat, 4);
    assert(spec_be_val(b.subrange(1, 5)) == payload.len());
    assert(b.subrange(5, 5 + payload.len() as int) =~= payload);
    lemma_message_round_trip(m);
    assert(spec_dec_message_full(payload) == Some(m));
}

} // verus!
