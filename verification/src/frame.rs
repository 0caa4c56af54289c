//! Binary frames of the streaming protocol.

use std::marker::PhantomData;

use vstd::prelude::*;

use crate::bytes::push_le;

verus! {

/// Builder state: header has not been written yet.
#[derive(Debug)]
pub struct NoHeader;

/// Builder state: header has been written and payload can be appended.
#[derive(Debug)]
pub struct WithHeader;

/// Typestate builder for `[version:u8][type:u8][request_id:u32][payload...]` frames.
///
/// The view of a builder is the bytes written so far.
#[derive(Debug)]
pub struct FrameBuilder<State> {
    buf: Vec<u8>,
    _state: PhantomData<State>,
}

impl<State> View for FrameBuilder<State> {
    type V = Seq<u8>;

    closed spec fn view(&self) -> Seq<u8> {
        self.buf@
    }
}

/// The six bytes that open every multiplexed frame.
pub open spec fn frame_header(version: u8, message_type: u8, request_id: u32) -> Seq<u8> {
    seq![version, message_type] + crate::bytes::le_bytes(request_id as nat, 4)
}

impl FrameBuilder<NoHeader> {
    /// Create a new builder without a header.
    pub fn new() -> (builder: Self)
        ensures
            builder@ == Seq::<u8>::empty(),
    {
        FrameBuilder { buf: Vec::new(), _state: PhantomData }
    }

    /// Write the fixed frame header and transition to `WithHeader`.
    pub fn with_header(
        self,
        version: u8,
        message_type: u8,
        request_id: u32,
    ) -> (builder: FrameBuilder<WithHeader>)
        ensures
            builder@ == self@ + frame_header(version, message_type, request_id),
    {
        let mut buf = self.buf;
        buf.reserve(6);
        buf.push(version);
        buf.push(message_type);
        push_le(&mut buf, request_id as u64, 4);
        assert(buf@ =~= self@ + frame_header(version, message_type, request_id));
        FrameBuilder { buf, _state: PhantomData }
    }
}

impl Default for FrameBuilder<NoHeader> {
    fn default() -> (builder: Self)
        ensures
            builder@ == Seq::<u8>::empty(),
    {
        FrameBuilder::new()
    }
}

impl FrameBuilder<WithHeader> {
    /// Reserve additional payload capacity.
    pub fn reserve_payload(self, payload_capacity: usize) -> (builder: Self)
        requires
            self@.len() + payload_capacity <= isize::MAX,
        ensures
            builder@ == self@,
    {
        let mut buf = self.buf;
        buf.reserve(payload_capacity);
        FrameBuilder { buf, _state: PhantomData }
    }

    /// Append one `u8` payload value.
    pub fn push_u8(self, value: u8) -> (builder: Self)
        ensures
            builder@ == self@.push(value),
    {
        let mut buf = self.buf;
        buf.push(value);
        FrameBuilder { buf, _state: PhantomData }
    }

    /// Append one `u16` payload value (little-endian).
    pub fn push_u16_le(self, value: u16) -> (builder: Self)
        ensures
            builder@ == self@ + crate::bytes::le_bytes(value as nat, 2),
    {
        let mut buf = self.buf;
        push_le(&mut buf, value as u64, 2);
        FrameBuilder { buf, _state: PhantomData }
    }

    /// Append one `u32` payload value (little-endian).
    pub fn push_u32_le(self, value: u32) -> (builder: Self)
        ensures
            builder@ == self@ + crate::bytes::le_bytes(value as nat, 4),
    {
        let mut buf = self.buf;
        push_le(&mut buf, value as u64, 4);
        FrameBuilder { buf, _state: PhantomData }
    }

    /// Append one `u64` payload value (little-endian).
    pub fn push_u64_le(self, value: u64) -> (builder: Self)
        ensures
            builder@ == self@ + crate::bytes::le_bytes(value as nat, 8),
    {
        let mut buf = self.buf;
        push_le(&mut buf, value, 8);
        FrameBuilder { buf, _state: PhantomData }
    }

    /// Append raw payload bytes.
    pub fn extend_bytes(self, bytes: &[u8]) -> (builder: Self)
        ensures
            builder@ == self@ + bytes@,
    {
        let mut buf = self.buf;
        buf.extend_from_slice(bytes);
        FrameBuilder { buf, _state: PhantomData }
    }

    /// Finalize and return encoded frame bytes.
    pub fn finish(self) -> (bytes: Vec<u8>)
        ensures
            bytes@ == self@,
    {
        self.buf
    }
}

/// The bytes that open a frame name its version, its kind and its request.
pub proof fn lemma_header_reads_back(version: u8, message_type: u8, request_id: u32)
    ensures
        ({
            let header = frame_header(version, message_type, request_id);
            &&& header.len() == 6
            &&& header[0] == version
            &&& header[1] == message_type
            &&& crate::bytes::le_value(header.skip(2)) == request_id
        }),
{
    crate::bytes::lemma_byte_ranges();
    crate::bytes::lemma_le_round_trip(request_id as nat, 4);
    assert(frame_header(version, message_type, request_id).skip(2) =~= crate::bytes::le_bytes(
        request_id as nat,
        4,
    ));
}

} // verus!
