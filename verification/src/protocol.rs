//! WebSocket protocol encoding for the HVAT binary streaming protocol.
//!
//! Multiplexed frames: `[version:u8][type:u8][request_id:u32][payload...]`.
//! Connection-level messages (Capabilities, Ping) use request id 0.
//!
//! Frames of the per-image endpoint carry no request id:
//! `[version:u8][type:u8][payload...]`.

use vstd::prelude::*;
use vstd::string::*;
use vstd::utf8::*;

use crate::bytes::push_le;
use crate::frame::FrameBuilder;

verus! {

/// The kinds of binary messages that a server sends.
#[derive(Clone, Copy, Debug, PartialEq, Eq, Structural)]
pub enum ServerMessageType {
    Metadata,
    LayerChunk,
    LayerComplete,
    LevelComplete,
    Error,
    Reset,
    Capabilities,
    Ping,
    StreamComplete,
    StreamError,
    ImageSet,
    ModelReady,
    InferProgress,
    InferResult,
}

/// What went wrong with a request.
#[derive(Clone, Copy, Debug, PartialEq, Eq, Structural)]
pub enum ErrorCode {
    MaxConnectionsReached,
    InvalidRequest,
    InvalidAction,
    InvalidInput,
    NoActiveImage,
    ImageNotFound,
    RateLimited,
    PyramidNotReady,
    ModelNotFound,
    ModelBusy,
    EmbeddingRequired,
    ModelEncodeFailed,
    ModelDecodeFailed,
    InternalError,
}

/// An error that a client is told of.
#[derive(Debug)]
pub struct ErrorReply {
    /// The request that failed; 0 for the connection as a whole.
    pub request_id: u32,
    pub code: ErrorCode,
    pub message: String,
    /// After how many milliseconds a retry makes sense, if at all.
    pub retry_after_ms: Option<u32>,
}

impl ErrorReply {
    /// Whether this is the error with these contents.
    pub open spec fn says(
        self,
        request_id: u32,
        code: ErrorCode,
        message: Seq<char>,
        retry_after_ms: Option<u32>,
    ) -> bool {
        &&& self.request_id == request_id
        &&& self.code == code
        &&& self.message@ == message
        &&& self.retry_after_ms == retry_after_ms
    }

    /// An error that a retry does not mend.
    pub fn error(request_id: u32, code: ErrorCode, message: String) -> (reply: Self)
        ensures
            reply.says(request_id, code, message@, None),
    {
        ErrorReply { request_id, code, message, retry_after_ms: None }
    }

    /// An error that a later retry may mend.
    pub fn retryable(request_id: u32, code: ErrorCode, message: String, after_ms: u32) -> (reply:
        Self)
        ensures
            reply.says(request_id, code, message@, Some(after_ms)),
    {
        ErrorReply { request_id, code, message, retry_after_ms: Some(after_ms) }
    }
}

/// The numbers that client and server have agreed on: the protocol version and
/// the byte of each message kind.
#[derive(Clone, Copy, Debug)]
pub struct WireCodes {
    pub version: u8,
    pub metadata: u8,
    pub layer_chunk: u8,
    pub layer_complete: u8,
    pub level_complete: u8,
    pub error: u8,
    pub reset: u8,
    pub capabilities: u8,
    pub ping: u8,
    pub stream_complete: u8,
    pub stream_error: u8,
    pub image_set: u8,
    pub model_ready: u8,
    pub infer_progress: u8,
    pub infer_result: u8,
}

impl WireCodes {
    /// The byte of a message kind.
    pub open spec fn code(self, kind: ServerMessageType) -> u8 {
        match kind {
            ServerMessageType::Metadata => self.metadata,
            ServerMessageType::LayerChunk => self.layer_chunk,
            ServerMessageType::LayerComplete => self.layer_complete,
            ServerMessageType::LevelComplete => self.level_complete,
            ServerMessageType::Error => self.error,
            ServerMessageType::Reset => self.reset,
            ServerMessageType::Capabilities => self.capabilities,
            ServerMessageType::Ping => self.ping,
            ServerMessageType::StreamComplete => self.stream_complete,
            ServerMessageType::StreamError => self.stream_error,
            ServerMessageType::ImageSet => self.image_set,
            ServerMessageType::ModelReady => self.model_ready,
            ServerMessageType::InferProgress => self.infer_progress,
            ServerMessageType::InferResult => self.infer_result,
        }
    }

    /// The fields, one for each message kind.
    pub open spec fn fields(self) -> Seq<u8> {
        seq![
            self.metadata,
            self.layer_chunk,
            self.layer_complete,
            self.level_complete,
            self.error,
            self.reset,
            self.capabilities,
            self.ping,
            self.stream_complete,
            self.stream_error,
            self.image_set,
            self.model_ready,
            self.infer_progress,
            self.infer_result,
        ]
    }

    /// Whether no two message kinds share a byte.
    pub open spec fn distinct(self) -> bool {
        forall|a: ServerMessageType, b: ServerMessageType|
            #[trigger] self.code(a) == #[trigger] self.code(b) ==> a == b
    }

    /// The byte of a message kind.
    pub fn to_byte(&self, kind: ServerMessageType) -> (byte: u8)
        ensures
            byte == self.code(kind),
    {
        match kind {
            ServerMessageType::Metadata => self.metadata,
            ServerMessageType::LayerChunk => self.layer_chunk,
            ServerMessageType::LayerComplete => self.layer_complete,
            ServerMessageType::LevelComplete => self.level_complete,
            ServerMessageType::Error => self.error,
            ServerMessageType::Reset => self.reset,
            ServerMessageType::Capabilities => self.capabilities,
            ServerMessageType::Ping => self.ping,
            ServerMessageType::StreamComplete => self.stream_complete,
            ServerMessageType::StreamError => self.stream_error,
            ServerMessageType::ImageSet => self.image_set,
            ServerMessageType::ModelReady => self.model_ready,
            ServerMessageType::InferProgress => self.infer_progress,
            ServerMessageType::InferResult => self.infer_result,
        }
    }
}

/// The bytes of a multiplexed frame.
pub open spec fn mux_frame(
    codes: WireCodes,
    kind: ServerMessageType,
    request_id: u32,
    payload: Seq<u8>,
) -> Seq<u8> {
    crate::frame::frame_header(codes.version, codes.code(kind), request_id) + payload
}

/// The bytes of a frame of the per-image endpoint.
pub open spec fn plain_frame(codes: WireCodes, kind: ServerMessageType, payload: Seq<u8>) -> Seq<
    u8,
> {
    seq![codes.version, codes.code(kind)] + payload
}

/// A multiplexed frame names its version, its kind and its request, and carries
/// its payload unchanged behind them.
pub proof fn lemma_mux_frame_reads_back(
    codes: WireCodes,
    kind: ServerMessageType,
    request_id: u32,
    payload: Seq<u8>,
)
    ensures
        ({
            let frame = mux_frame(codes, kind, request_id, payload);
            &&& frame.len() == 6 + payload.len()
            &&& frame[0] == codes.version
            &&& frame[1] == codes.code(kind)
            &&& crate::bytes::le_value(frame.subrange(2, 6)) == request_id
            &&& frame.skip(6) == payload
        }),
{
    let frame = mux_frame(codes, kind, request_id, payload);
    let id_bytes = crate::bytes::le_bytes(request_id as nat, 4);
    crate::bytes::lemma_byte_ranges();
    crate::bytes::lemma_le_round_trip(request_id as nat, 4);
    assert(frame.subrange(2, 6) =~= id_bytes);
    assert(frame.skip(6) =~= payload);
}

/// Two multiplexed frames are the same only if they agree on kind, request and
/// payload, provided that no two kinds share a byte.
pub proof fn lemma_mux_frame_injective(
    codes: WireCodes,
    kind_a: ServerMessageType,
    id_a: u32,
    payload_a: Seq<u8>,
    kind_b: ServerMessageType,
    id_b: u32,
    payload_b: Seq<u8>,
)
    requires
        codes.distinct(),
        mux_frame(codes, kind_a, id_a, payload_a) == mux_frame(codes, kind_b, id_b, payload_b),
    ensures
        kind_a == kind_b,
        id_a == id_b,
        payload_a == payload_b,
{
    lemma_mux_frame_reads_back(codes, kind_a, id_a, payload_a);
    lemma_mux_frame_reads_back(codes, kind_b, id_b, payload_b);
}

/// A frame of the per-image endpoint names its version and its kind, and
/// carries its payload unchanged behind them.
pub proof fn lemma_plain_frame_reads_back(
    codes: WireCodes,
    kind: ServerMessageType,
    payload: Seq<u8>,
)
    ensures
        ({
            let frame = plain_frame(codes, kind, payload);
            &&& frame.len() == 2 + payload.len()
            &&& frame[0] == codes.version
            &&& frame[1] == codes.code(kind)
            &&& frame.skip(2) == payload
        }),
{
    assert(plain_frame(codes, kind, payload).skip(2) =~= payload);
}

// ----------------------------------------------------------------------------
// Length-prefixed text
// ----------------------------------------------------------------------------

/// Where to cut a UTF-8 text so that at most `limit` bytes remain: the last
/// character boundary that is not beyond the limit.
pub open spec fn cut_position(bytes: Seq<u8>, limit: int) -> int
    decreases limit,
{
    if limit <= 0 || is_char_boundary(bytes, limit) {
        limit
    } else {
        cut_position(bytes, limit - 1)
    }
}

/// The longest prefix of a text, in whole characters, of at most 65535 bytes.
pub open spec fn truncated_to_u16(bytes: Seq<u8>) -> Seq<u8> {
    if bytes.len() <= u16::MAX {
        bytes
    } else {
        bytes.take(cut_position(bytes, u16::MAX as int))
    }
}

proof fn lemma_cut_position(bytes: Seq<u8>, limit: int)
    requires
        valid_utf8(bytes),
        0 <= limit <= bytes.len(),
    ensures
        0 <= cut_position(bytes, limit) <= limit,
        is_char_boundary(bytes, cut_position(bytes, limit)),
        forall|k: int| cut_position(bytes, limit) < k <= limit ==> !is_char_boundary(bytes, k),
    decreases limit,
{
    broadcast use is_char_boundary_start_end_of_seq;

    if limit > 0 && !is_char_boundary(bytes, limit) {
        lemma_cut_position(bytes, limit - 1);
    }
}

/// A truncated text is a prefix of the text, is valid UTF-8, fits the 16-bit
/// length that precedes it, and no longer prefix in whole characters does. A
/// text that fits is not cut.
pub proof fn lemma_truncated_to_u16(text: Seq<char>)
    ensures
        ({
            let bytes = encode_utf8(text);
            let cut = truncated_to_u16(bytes);
            &&& cut.len() <= u16::MAX
            &&& cut == bytes.take(cut.len() as int)
            &&& valid_utf8(cut)
            &&& bytes.len() <= u16::MAX ==> cut == bytes
            &&& forall|k: int|
                cut.len() < k <= u16::MAX && k <= bytes.len() ==> !is_char_boundary(bytes, k)
        }),
{
    broadcast use encode_utf8_valid_utf8;

    let bytes = encode_utf8(text);
    assert(bytes.take(bytes.len() as int) =~= bytes);
    if bytes.len() > u16::MAX {
        lemma_cut_position(bytes, u16::MAX as int);
        let end = cut_position(bytes, u16::MAX as int);
        valid_utf8_split(bytes, end);
        assert(bytes.take(end) =~= bytes.subrange(0, end));
    }
}

/// The bytes of a text, cut to what a 16-bit length can announce.
pub fn truncate_utf8_to_u16(value: &str) -> (out: &str)
    ensures
        out.spec_bytes() == truncated_to_u16(value.spec_bytes()),
{
    let bytes = value.as_bytes();
    if bytes.len() <= 65535 {
        return value;
    }
    let mut end: usize = 65535;
    while end > 0 && !value.is_char_boundary(end)
        invariant
            end <= 65535 < value.spec_bytes().len(),
            cut_position(value.spec_bytes(), 65535) == cut_position(
                value.spec_bytes(),
                end as int,
            ),
        ensures
            end <= 65535,
            cut_position(value.spec_bytes(), 65535) == end,
        decreases end,
    {
        end = end - 1;
    }
    proof {
        encode_utf8_valid_utf8(value@);
        lemma_cut_position(value.spec_bytes(), 65535);
    }
    let (head, _) = value.split_at(end);
    assert(value.spec_bytes().subrange(0, end as int) =~= value.spec_bytes().take(end as int));
    head
}

/// A 16-bit length and that many bytes of text.
pub open spec fn prefixed_text(text: Seq<char>) -> Seq<u8> {
    let cut = truncated_to_u16(encode_utf8(text));
    crate::bytes::le_bytes(cut.len(), 2) + cut
}

/// The length in front of a text is the number of bytes that follow it.
pub proof fn lemma_prefixed_text_reads_back(text: Seq<char>)
    ensures
        crate::bytes::le_value(prefixed_text(text).take(2)) == prefixed_text(text).len() - 2,
        prefixed_text(text).skip(2) == truncated_to_u16(encode_utf8(text)),
{
    let cut = truncated_to_u16(encode_utf8(text));
    lemma_truncated_to_u16(text);
    crate::bytes::lemma_byte_ranges();
    crate::bytes::lemma_le_round_trip(cut.len(), 2);
    assert(prefixed_text(text).take(2) =~= crate::bytes::le_bytes(cut.len(), 2));
    assert(prefixed_text(text).skip(2) =~= cut);
}

// ----------------------------------------------------------------------------
// Stream metadata
// ----------------------------------------------------------------------------

/// Stream metadata sent at the start of streaming.
#[derive(Clone, Copy, Debug, PartialEq, Eq, Structural)]
pub struct StreamMetadata {
    /// Width of this level's texture data.
    pub width: u32,
    /// Height of this level's texture data.
    pub height: u32,
    pub num_bands: u32,
    pub num_layers: u32,
    /// Full resolution width (for progressive loading).
    pub full_width: u32,
    /// Full resolution height (for progressive loading).
    pub full_height: u32,
}

impl StreamMetadata {
    /// The six fields in order, four bytes each.
    pub open spec fn payload(self) -> Seq<u8> {
        crate::bytes::le_bytes(self.width as nat, 4) + crate::bytes::le_bytes(
            self.height as nat,
            4,
        ) + crate::bytes::le_bytes(self.num_bands as nat, 4) + crate::bytes::le_bytes(
            self.num_layers as nat,
            4,
        ) + crate::bytes::le_bytes(self.full_width as nat, 4) + crate::bytes::le_bytes(
            self.full_height as nat,
            4,
        )
    }

    /// Encode metadata for the per-image endpoint.
    pub fn to_bytes(&self, codes: &WireCodes) -> (out: Vec<u8>)
        ensures
            out@ == plain_frame(*codes, ServerMessageType::Metadata, self.payload()),
            out@[1] == codes.metadata,
    {
        let mut buf = plain_header(codes, ServerMessageType::Metadata);
        push_le(&mut buf, self.width as u64, 4);
        push_le(&mut buf, self.height as u64, 4);
        push_le(&mut buf, self.num_bands as u64, 4);
        push_le(&mut buf, self.num_layers as u64, 4);
        push_le(&mut buf, self.full_width as u64, 4);
        push_le(&mut buf, self.full_height as u64, 4);
        assert(buf@ =~= plain_frame(*codes, ServerMessageType::Metadata, self.payload()));
        buf
    }

    /// Encode metadata with a request id.
    pub fn to_bytes_mux(&self, codes: &WireCodes, request_id: u32) -> (out: Vec<u8>)
        ensures
            out@ == mux_frame(*codes, ServerMessageType::Metadata, request_id, self.payload()),
            out@[1] == codes.metadata,
    {
        let out = mux_builder(codes, ServerMessageType::Metadata, request_id).push_u32_le(
            self.width,
        ).push_u32_le(self.height).push_u32_le(self.num_bands).push_u32_le(
            self.num_layers,
        ).push_u32_le(self.full_width).push_u32_le(self.full_height).finish();
        assert(out@ =~= mux_frame(
            *codes,
            ServerMessageType::Metadata,
            request_id,
            self.payload(),
        ));
        out
    }
}

/// Different metadata have different payloads of 24 bytes.
pub proof fn lemma_metadata_payload_injective(a: StreamMetadata, b: StreamMetadata)
    ensures
        a.payload().len() == 24,
        a.payload() == b.payload() ==> a == b,
{
    crate::bytes::lemma_byte_ranges();
    let p = a.payload();
    let q = b.payload();
    lemma_field_at(p, seq![a.width, a.height, a.num_bands, a.num_layers, a.full_width,
        a.full_height]);
    lemma_field_at(q, seq![b.width, b.height, b.num_bands, b.num_layers, b.full_width,
        b.full_height]);
    if p == q {
        assert(a.width == crate::bytes::le_value(p.subrange(0, 4)));
    }
}

proof fn lemma_field_at(payload: Seq<u8>, fields: Seq<u32>)
    requires
        fields.len() == 6,
        payload == crate::bytes::le_bytes(fields[0] as nat, 4) + crate::bytes::le_bytes(
            fields[1] as nat,
            4,
        ) + crate::bytes::le_bytes(fields[2] as nat, 4) + crate::bytes::le_bytes(
            fields[3] as nat,
            4,
        ) + crate::bytes::le_bytes(fields[4] as nat, 4) + crate::bytes::le_bytes(
            fields[5] as nat,
            4,
        ),
    ensures
        payload.len() == 24,
        crate::bytes::le_value(payload.subrange(0, 4)) == fields[0],
        crate::bytes::le_value(payload.subrange(4, 8)) == fields[1],
        crate::bytes::le_value(payload.subrange(8, 12)) == fields[2],
        crate::bytes::le_value(payload.subrange(12, 16)) == fields[3],
        crate::bytes::le_value(payload.subrange(16, 20)) == fields[4],
        crate::bytes::le_value(payload.subrange(20, 24)) == fields[5],
{
    crate::bytes::lemma_byte_ranges();
    crate::bytes::lemma_le_round_trip(fields[0] as nat, 4);
    crate::bytes::lemma_le_round_trip(fields[1] as nat, 4);
    crate::bytes::lemma_le_round_trip(fields[2] as nat, 4);
    crate::bytes::lemma_le_round_trip(fields[3] as nat, 4);
    crate::bytes::lemma_le_round_trip(fields[4] as nat, 4);
    crate::bytes::lemma_le_round_trip(fields[5] as nat, 4);
    assert(payload.subrange(0, 4) =~= crate::bytes::le_bytes(fields[0] as nat, 4));
    assert(payload.subrange(4, 8) =~= crate::bytes::le_bytes(fields[1] as nat, 4));
    assert(payload.subrange(8, 12) =~= crate::bytes::le_bytes(fields[2] as nat, 4));
    assert(payload.subrange(12, 16) =~= crate::bytes::le_bytes(fields[3] as nat, 4));
    assert(payload.subrange(16, 20) =~= crate::bytes::le_bytes(fields[4] as nat, 4));
    assert(payload.subrange(20, 24) =~= crate::bytes::le_bytes(fields[5] as nat, 4));
}

fn plain_header(codes: &WireCodes, kind: ServerMessageType) -> (buf: Vec<u8>)
    ensures
        buf@ == seq![codes.version, codes.code(kind)],
{
    let mut buf: Vec<u8> = Vec::new();
    buf.push(codes.version);
    buf.push(codes.to_byte(kind));
    assert(buf@ =~= seq![codes.version, codes.code(kind)]);
    buf
}

fn mux_builder(codes: &WireCodes, kind: ServerMessageType, request_id: u32) -> (builder:
    FrameBuilder<crate::frame::WithHeader>)
    ensures
        builder@ == crate::frame::frame_header(codes.version, codes.code(kind), request_id),
{
    let builder = FrameBuilder::new().with_header(codes.version, codes.to_byte(kind), request_id);
    assert(builder@ =~= crate::frame::frame_header(codes.version, codes.code(kind), request_id));
    builder
}

// ----------------------------------------------------------------------------
// Frames of the per-image endpoint
// ----------------------------------------------------------------------------

/// Encode a Reset message: the client clears its display before a new image.
pub fn encode_reset(codes: &WireCodes) -> (out: Vec<u8>)
    ensures
        out@ == plain_frame(*codes, ServerMessageType::Reset, Seq::empty()),
        out@[1] == codes.reset,
{
    let buf = plain_header(codes, ServerMessageType::Reset);
    assert(buf@ =~= plain_frame(*codes, ServerMessageType::Reset, Seq::empty()));
    buf
}

/// Encode an error of the connection, from its encoded payload.
pub fn encode_error(codes: &WireCodes, error_payload: &[u8]) -> (out: Vec<u8>)
    ensures
        out@ == plain_frame(*codes, ServerMessageType::Error, error_payload@),
        out@[1] == codes.error,
{
    let mut buf = plain_header(codes, ServerMessageType::Error);
    buf.extend_from_slice(error_payload);
    assert(buf@ =~= plain_frame(*codes, ServerMessageType::Error, error_payload@));
    buf
}

/// The payload of a chunk of rows of one layer.
pub open spec fn layer_chunk_payload(
    layer: u16,
    row_start: u32,
    row_end: u32,
    rgba_data: Seq<u8>,
) -> Seq<u8> {
    crate::bytes::le_bytes(layer as nat, 2) + crate::bytes::le_bytes(row_start as nat, 4)
        + crate::bytes::le_bytes(row_end as nat, 4) + rgba_data
}

/// Encode a chunk of rows of one layer.
pub fn encode_layer_chunk(
    codes: &WireCodes,
    layer: u16,
    row_start: u32,
    row_end: u32,
    rgba_data: &[u8],
) -> (out: Vec<u8>)
    ensures
        out@ == plain_frame(
            *codes,
            ServerMessageType::LayerChunk,
            layer_chunk_payload(layer, row_start, row_end, rgba_data@),
        ),
        out@[1] == codes.layer_chunk,
{
    let mut buf = plain_header(codes, ServerMessageType::LayerChunk);
    push_le(&mut buf, layer as u64, 2);
    push_le(&mut buf, row_start as u64, 4);
    push_le(&mut buf, row_end as u64, 4);
    buf.extend_from_slice(rgba_data);
    assert(buf@ =~= plain_frame(
        *codes,
        ServerMessageType::LayerChunk,
        layer_chunk_payload(layer, row_start, row_end, rgba_data@),
    ));
    buf
}

/// The payload of the end of a layer.
pub open spec fn layer_end_payload(layer: u16) -> Seq<u8> {
    crate::bytes::le_bytes(layer as nat, 2)
}

/// Encode the end of a layer.
pub fn encode_layer_complete(codes: &WireCodes, layer: u16) -> (out: Vec<u8>)
    ensures
        out@ == plain_frame(
            *codes,
            ServerMessageType::LayerComplete,
            layer_end_payload(layer),
        ),
        out@[1] == codes.layer_complete,
{
    let mut buf = plain_header(codes, ServerMessageType::LayerComplete);
    push_le(&mut buf, layer as u64, 2);
    buf
}

/// The payload of the end of a level.
pub open spec fn level_end_payload(level: u8) -> Seq<u8> {
    seq![level]
}

/// Encode the end of a level.
pub fn encode_level_complete(codes: &WireCodes, level: u8) -> (out: Vec<u8>)
    ensures
        out@ == plain_frame(*codes, ServerMessageType::LevelComplete, level_end_payload(level)),
        out@[1] == codes.level_complete,
{
    let mut buf = plain_header(codes, ServerMessageType::LevelComplete);
    buf.push(level);
    assert(buf@ =~= plain_frame(*codes, ServerMessageType::LevelComplete, level_end_payload(level)));
    buf
}

/// Encode the end of all levels.
pub fn encode_all_complete(codes: &WireCodes) -> (out: Vec<u8>)
    ensures
        out@ == plain_frame(*codes, ServerMessageType::StreamComplete, Seq::empty()),
        out@[1] == codes.stream_complete,
{
    let buf = plain_header(codes, ServerMessageType::StreamComplete);
    assert(buf@ =~= plain_frame(*codes, ServerMessageType::StreamComplete, Seq::empty()));
    buf
}

/// The payload of a keepalive message.
pub open spec fn ping_payload(timestamp: u64) -> Seq<u8> {
    crate::bytes::le_bytes(timestamp as nat, 8)
}

/// Encode a keepalive message of the per-image endpoint.
pub fn encode_plain_ping(codes: &WireCodes, timestamp: u64) -> (out: Vec<u8>)
    ensures
        out@ == plain_frame(
            *codes,
            ServerMessageType::Ping,
            ping_payload(timestamp),
        ),
        out@[1] == codes.ping,
{
    let mut buf = plain_header(codes, ServerMessageType::Ping);
    push_le(&mut buf, timestamp, 8);
    buf
}

// ----------------------------------------------------------------------------
// Multiplexed frames
// ----------------------------------------------------------------------------

/// Encode a Reset message of one stream.
pub fn encode_reset_mux(codes: &WireCodes, request_id: u32) -> (out: Vec<u8>)
    ensures
        out@ == mux_frame(*codes, ServerMessageType::Reset, request_id, Seq::empty()),
        out@[1] == codes.reset,
{
    let out = mux_builder(codes, ServerMessageType::Reset, request_id).finish();
    assert(out@ =~= mux_frame(*codes, ServerMessageType::Reset, request_id, Seq::empty()));
    out
}

/// Encode a chunk of rows of one layer of one stream.
pub fn encode_layer_chunk_mux(
    codes: &WireCodes,
    request_id: u32,
    layer: u16,
    row_start: u32,
    row_end: u32,
    rgba_data: &[u8],
) -> (out: Vec<u8>)
    ensures
        out@ == mux_frame(
            *codes,
            ServerMessageType::LayerChunk,
            request_id,
            layer_chunk_payload(layer, row_start, row_end, rgba_data@),
        ),
        out@[1] == codes.layer_chunk,
{
    let out = mux_builder(codes, ServerMessageType::LayerChunk, request_id).push_u16_le(
        layer,
    ).push_u32_le(row_start).push_u32_le(row_end).extend_bytes(rgba_data).finish();
    assert(out@ =~= mux_frame(
        *codes,
        ServerMessageType::LayerChunk,
        request_id,
        layer_chunk_payload(layer, row_start, row_end, rgba_data@),
    ));
    out
}

/// Encode the end of a layer of one stream.
pub fn encode_layer_complete_mux(codes: &WireCodes, request_id: u32, layer: u16) -> (out: Vec<u8>)
    ensures
        out@ == mux_frame(
            *codes,
            ServerMessageType::LayerComplete,
            request_id,
            layer_end_payload(layer),
        ),
        out@[1] == codes.layer_complete,
{
    mux_builder(codes, ServerMessageType::LayerComplete, request_id).push_u16_le(layer).finish()
}

/// Encode the end of a level of one stream.
pub fn encode_level_complete_mux(codes: &WireCodes, request_id: u32, level: u8) -> (out: Vec<u8>)
    ensures
        out@ == mux_frame(
            *codes,
            ServerMessageType::LevelComplete,
            request_id,
            level_end_payload(level),
        ),
        out@[1] == codes.level_complete,
{
    let out = mux_builder(codes, ServerMessageType::LevelComplete, request_id).push_u8(
        level,
    ).finish();
    assert(out@ =~= mux_frame(
        *codes,
        ServerMessageType::LevelComplete,
        request_id,
        level_end_payload(level),
    ));
    out
}

/// Encode the end of one stream.
pub fn encode_stream_complete(codes: &WireCodes, request_id: u32) -> (out: Vec<u8>)
    ensures
        out@ == mux_frame(*codes, ServerMessageType::StreamComplete, request_id, Seq::empty()),
        out@[1] == codes.stream_complete,
{
    let out = mux_builder(codes, ServerMessageType::StreamComplete, request_id).finish();
    assert(out@ =~= mux_frame(
        *codes,
        ServerMessageType::StreamComplete,
        request_id,
        Seq::empty(),
    ));
    out
}

/// Encode an error of one stream, which leaves the other streams alone.
pub fn encode_stream_error(codes: &WireCodes, request_id: u32, error_payload: &[u8]) -> (out: Vec<
    u8,
>)
    ensures
        out@ == mux_frame(*codes, ServerMessageType::StreamError, request_id, error_payload@),
        out@[1] == codes.stream_error,
{
    mux_builder(codes, ServerMessageType::StreamError, request_id).extend_bytes(
        error_payload,
    ).finish()
}

/// Encode a keepalive message.
pub fn encode_ping(codes: &WireCodes, timestamp: u64) -> (out: Vec<u8>)
    ensures
        out@ == mux_frame(
            *codes,
            ServerMessageType::Ping,
            0,
            ping_payload(timestamp),
        ),
        out@[1] == codes.ping,
{
    mux_builder(codes, ServerMessageType::Ping, 0).push_u64_le(timestamp).finish()
}

/// Encode the confirmation that the active image has been set.
pub fn encode_image_set(codes: &WireCodes, request_id: u32, image_id: &str) -> (out: Vec<u8>)
    ensures
        out@ == mux_frame(
            *codes,
            ServerMessageType::ImageSet,
            request_id,
            prefixed_text(image_id@),
        ),
        out@[1] == codes.image_set,
{
    let bytes = truncate_utf8_to_u16(image_id).as_bytes();
    proof {
        lemma_truncated_to_u16(image_id@);
    }
    let out = mux_builder(codes, ServerMessageType::ImageSet, request_id).push_u16_le(
        bytes.len() as u16,
    ).extend_bytes(bytes).finish();
    assert(out@ =~= mux_frame(
        *codes,
        ServerMessageType::ImageSet,
        request_id,
        prefixed_text(image_id@),
    ));
    out
}

/// Encode that a model is ready for inference.
pub fn encode_model_ready(codes: &WireCodes, request_id: u32, model_id: &str) -> (out: Vec<u8>)
    ensures
        out@ == mux_frame(
            *codes,
            ServerMessageType::ModelReady,
            request_id,
            prefixed_text(model_id@),
        ),
        out@[1] == codes.model_ready,
{
    let bytes = truncate_utf8_to_u16(model_id).as_bytes();
    proof {
        lemma_truncated_to_u16(model_id@);
    }
    let out = mux_builder(codes, ServerMessageType::ModelReady, request_id).push_u16_le(
        bytes.len() as u16,
    ).extend_bytes(bytes).finish();
    assert(out@ =~= mux_frame(
        *codes,
        ServerMessageType::ModelReady,
        request_id,
        prefixed_text(model_id@),
    ));
    out
}

/// The payload of the progress of an inference.
pub open spec fn progress_payload(progress: u8, status: Seq<char>) -> Seq<u8> {
    seq![progress] + prefixed_text(status)
}

/// Encode the progress of an inference.
pub fn encode_infer_progress(codes: &WireCodes, request_id: u32, progress: u8, status: &str) -> (out:
    Vec<u8>)
    ensures
        out@ == mux_frame(
            *codes,
            ServerMessageType::InferProgress,
            request_id,
            progress_payload(progress, status@),
        ),
        out@[1] == codes.infer_progress,
{
    let bytes = truncate_utf8_to_u16(status).as_bytes();
    proof {
        lemma_truncated_to_u16(status@);
    }
    let out = mux_builder(codes, ServerMessageType::InferProgress, request_id).push_u8(
        progress,
    ).push_u16_le(bytes.len() as u16).extend_bytes(bytes).finish();
    assert(out@ =~= mux_frame(
        *codes,
        ServerMessageType::InferProgress,
        request_id,
        progress_payload(progress, status@),
    ));
    out
}

/// Encode the result of an inference, a JSON text.
pub fn encode_infer_result(codes: &WireCodes, request_id: u32, result_json: &str) -> (out: Vec<u8>)
    ensures
        out@ == mux_frame(
            *codes,
            ServerMessageType::InferResult,
            request_id,
            result_json.spec_bytes(),
        ),
        out@[1] == codes.infer_result,
{
    mux_builder(codes, ServerMessageType::InferResult, request_id).extend_bytes(
        result_json.as_bytes(),
    ).finish()
}

/// Encode the server's capabilities, given as JSON bytes.
pub fn encode_capabilities_v2(codes: &WireCodes, capabilities_json: &[u8]) -> (out: Vec<u8>)
    ensures
        out@ == mux_frame(*codes, ServerMessageType::Capabilities, 0, capabilities_json@),
        out@[1] == codes.capabilities,
{
    mux_builder(codes, ServerMessageType::Capabilities, 0).extend_bytes(capabilities_json).finish()
}

/// Encode the server's capabilities. Kept for older callers of
/// `encode_capabilities_v2`.
pub fn encode_capabilities(codes: &WireCodes, capabilities_json: &[u8]) -> (out: Vec<u8>)
    ensures
        out@ == mux_frame(*codes, ServerMessageType::Capabilities, 0, capabilities_json@),
        out@[1] == codes.capabilities,
{
    encode_capabilities_v2(codes, capabilities_json)
}

// ----------------------------------------------------------------------------
// What a client reads
// ----------------------------------------------------------------------------

/// A chunk's payload reads back: its layer, its rows and their bytes.
pub proof fn lemma_layer_chunk_reads_back(
    layer: u16,
    row_start: u32,
    row_end: u32,
    rgba_data: Seq<u8>,
)
    ensures
        ({
            let payload = layer_chunk_payload(layer, row_start, row_end, rgba_data);
            &&& payload.len() == 10 + rgba_data.len()
            &&& crate::bytes::le_value(payload.subrange(0, 2)) == layer
            &&& crate::bytes::le_value(payload.subrange(2, 6)) == row_start
            &&& crate::bytes::le_value(payload.subrange(6, 10)) == row_end
            &&& payload.skip(10) == rgba_data
        }),
{
    let payload = layer_chunk_payload(layer, row_start, row_end, rgba_data);
    crate::bytes::lemma_byte_ranges();
    crate::bytes::lemma_le_round_trip(layer as nat, 2);
    crate::bytes::lemma_le_round_trip(row_start as nat, 4);
    crate::bytes::lemma_le_round_trip(row_end as nat, 4);
    assert(payload.subrange(0, 2) =~= crate::bytes::le_bytes(layer as nat, 2));
    assert(payload.subrange(2, 6) =~= crate::bytes::le_bytes(row_start as nat, 4));
    assert(payload.subrange(6, 10) =~= crate::bytes::le_bytes(row_end as nat, 4));
    assert(payload.skip(10) =~= rgba_data);
}

/// A chunk reads back from its frame, on either endpoint.
pub proof fn lemma_chunk_frames_read_back(
    codes: WireCodes,
    request_id: u32,
    layer: u16,
    row_start: u32,
    row_end: u32,
    rgba_data: Seq<u8>,
)
    ensures
        ({
            let payload = layer_chunk_payload(layer, row_start, row_end, rgba_data);
            let mux = mux_frame(codes, ServerMessageType::LayerChunk, request_id, payload);
            let plain = plain_frame(codes, ServerMessageType::LayerChunk, payload);
            &&& mux[1] == codes.layer_chunk
            &&& crate::bytes::le_value(mux.subrange(2, 6)) == request_id
            &&& crate::bytes::le_value(mux.subrange(6, 8)) == layer
            &&& crate::bytes::le_value(mux.subrange(8, 12)) == row_start
            &&& crate::bytes::le_value(mux.subrange(12, 16)) == row_end
            &&& mux.skip(16) == rgba_data
            &&& plain[1] == codes.layer_chunk
            &&& crate::bytes::le_value(plain.subrange(2, 4)) == layer
            &&& crate::bytes::le_value(plain.subrange(4, 8)) == row_start
            &&& crate::bytes::le_value(plain.subrange(8, 12)) == row_end
            &&& plain.skip(12) == rgba_data
        }),
{
    let payload = layer_chunk_payload(layer, row_start, row_end, rgba_data);
    let mux = mux_frame(codes, ServerMessageType::LayerChunk, request_id, payload);
    let plain = plain_frame(codes, ServerMessageType::LayerChunk, payload);
    lemma_layer_chunk_reads_back(layer, row_start, row_end, rgba_data);
    lemma_mux_frame_reads_back(codes, ServerMessageType::LayerChunk, request_id, payload);
    lemma_plain_frame_reads_back(codes, ServerMessageType::LayerChunk, payload);
    assert(mux.subrange(6, 8) =~= mux.skip(6).subrange(0, 2));
    assert(mux.subrange(8, 12) =~= mux.skip(6).subrange(2, 6));
    assert(mux.subrange(12, 16) =~= mux.skip(6).subrange(6, 10));
    assert(mux.skip(16) =~= mux.skip(6).skip(10));
    assert(plain.subrange(2, 4) =~= plain.skip(2).subrange(0, 2));
    assert(plain.subrange(4, 8) =~= plain.skip(2).subrange(2, 6));
    assert(plain.subrange(8, 12) =~= plain.skip(2).subrange(6, 10));
    assert(plain.skip(12) =~= plain.skip(2).skip(10));
}

/// Metadata read back from their payload, field by field.
pub proof fn lemma_metadata_reads_back(metadata: StreamMetadata)
    ensures
        ({
            let payload = metadata.payload();
            &&& payload.len() == 24
            &&& crate::bytes::le_value(payload.subrange(0, 4)) == metadata.width
            &&& crate::bytes::le_value(payload.subrange(4, 8)) == metadata.height
            &&& crate::bytes::le_value(payload.subrange(8, 12)) == metadata.num_bands
            &&& crate::bytes::le_value(payload.subrange(12, 16)) == metadata.num_layers
            &&& crate::bytes::le_value(payload.subrange(16, 20)) == metadata.full_width
            &&& crate::bytes::le_value(payload.subrange(20, 24)) == metadata.full_height
        }),
{
    lemma_field_at(
        metadata.payload(),
        seq![
            metadata.width,
            metadata.height,
            metadata.num_bands,
            metadata.num_layers,
            metadata.full_width,
            metadata.full_height,
        ],
    );
}

/// The ends of layers and levels, keepalive messages and progress read back.
pub proof fn lemma_short_payloads_read_back(
    layer: u16,
    level: u8,
    timestamp: u64,
    progress: u8,
    status: Seq<char>,
)
    ensures
        layer_end_payload(layer).len() == 2,
        crate::bytes::le_value(layer_end_payload(layer)) == layer,
        level_end_payload(level).len() == 1,
        level_end_payload(level)[0] == level,
        ping_payload(timestamp).len() == 8,
        crate::bytes::le_value(ping_payload(timestamp)) == timestamp,
        progress_payload(progress, status)[0] == progress,
        progress_payload(progress, status).skip(1) == prefixed_text(status),
{
    crate::bytes::lemma_byte_ranges();
    crate::bytes::lemma_le_round_trip(layer as nat, 2);
    crate::bytes::lemma_le_round_trip(timestamp as nat, 8);
    assert(progress_payload(progress, status).skip(1) =~= prefixed_text(status));
}

/// A text that a 16-bit length can announce reaches the client whole.
pub proof fn lemma_short_text_arrives(text: Seq<char>)
    requires
        encode_utf8(text).len() <= u16::MAX,
    ensures
        crate::bytes::le_value(prefixed_text(text).take(2)) == encode_utf8(text).len(),
        decode_utf8(prefixed_text(text).skip(2)) == text,
{
    lemma_prefixed_text_reads_back(text);
    lemma_truncated_to_u16(text);
    encode_utf8_decode_utf8(text);
}

/// Where all fields differ no two message kinds share a byte, and every kind has the
/// byte of one field.
pub proof fn lemma_kinds_have_bytes_of_their_own(codes: WireCodes)
    requires
        codes.fields().no_duplicates(),
    ensures
        codes.distinct(),
        forall|kind: ServerMessageType| codes.fields().contains(#[trigger] codes.code(kind)),
{
    let fields = codes.fields();
    let at = |kind: ServerMessageType|
        match kind {
            ServerMessageType::Metadata => 0int,
            ServerMessageType::LayerChunk => 1,
            ServerMessageType::LayerComplete => 2,
            ServerMessageType::LevelComplete => 3,
            ServerMessageType::Error => 4,
            ServerMessageType::Reset => 5,
            ServerMessageType::Capabilities => 6,
            ServerMessageType::Ping => 7,
            ServerMessageType::StreamComplete => 8,
            ServerMessageType::StreamError => 9,
            ServerMessageType::ImageSet => 10,
            ServerMessageType::ModelReady => 11,
            ServerMessageType::InferProgress => 12,
            ServerMessageType::InferResult => 13,
        };
    assert forall|kind: ServerMessageType| 0 <= #[trigger] at(kind) < fields.len() && fields[at(
        kind,
    )] == codes.code(kind) by {}
    assert forall|a: ServerMessageType, b: ServerMessageType| #[trigger] codes.code(a)
        == #[trigger] codes.code(b) implies a == b by {
        assert(fields[at(a)] == fields[at(b)]);
        assert(at(a) == at(b));
    }
    assert forall|kind: ServerMessageType| fields.contains(#[trigger] codes.code(kind)) by {
        assert(fields[at(kind)] == codes.code(kind));
    }
}

/// Giving a message kind another byte changes the byte of that kind alone. So each
/// kind has the field of its name.
pub proof fn lemma_kinds_are_named(codes: WireCodes, byte: u8, other: ServerMessageType)
    ensures
        ({
            let metadata = (WireCodes { metadata: byte, ..codes }).code(other);
            let reset = (WireCodes { reset: byte, ..codes }).code(other);
            let ping = (WireCodes { ping: byte, ..codes }).code(other);
            let chunk = (WireCodes { layer_chunk: byte, ..codes }).code(other);
            let layer = (WireCodes { layer_complete: byte, ..codes }).code(other);
            let level = (WireCodes { level_complete: byte, ..codes }).code(other);
            let stream = (WireCodes { stream_complete: byte, ..codes }).code(other);
            let error = (WireCodes { error: byte, ..codes }).code(other);
            let failed = (WireCodes { stream_error: byte, ..codes }).code(other);
            let offers = (WireCodes { capabilities: byte, ..codes }).code(other);
            let set = (WireCodes { image_set: byte, ..codes }).code(other);
            let ready = (WireCodes { model_ready: byte, ..codes }).code(other);
            let progress = (WireCodes { infer_progress: byte, ..codes }).code(other);
            let result = (WireCodes { infer_result: byte, ..codes }).code(other);
            let same = codes.code(other);
            &&& metadata == if other is Metadata { byte } else { same }
            &&& reset == if other is Reset { byte } else { same }
            &&& ping == if other is Ping { byte } else { same }
            &&& chunk == if other is LayerChunk { byte } else { same }
            &&& layer == if other is LayerComplete { byte } else { same }
            &&& level == if other is LevelComplete { byte } else { same }
            &&& stream == if other is StreamComplete { byte } else { same }
            &&& error == if other is Error { byte } else { same }
            &&& failed == if other is StreamError { byte } else { same }
            &&& offers == if other is Capabilities { byte } else { same }
            &&& set == if other is ImageSet { byte } else { same }
            &&& ready == if other is ModelReady { byte } else { same }
            &&& progress == if other is InferProgress { byte } else { same }
            &&& result == if other is InferResult { byte } else { same }
        }),
{
}

/// An error reply says one thing only: to one request, with one code, one message and one
/// time to wait.
pub proof fn lemma_replies_say_one_thing(
    reply: ErrorReply,
    request: u32,
    other_request: u32,
    code: ErrorCode,
    other_code: ErrorCode,
    message: Seq<char>,
    other_message: Seq<char>,
    retry: Option<u32>,
    other_retry: Option<u32>,
)
    requires
        reply.says(request, code, message, retry),
        reply.says(other_request, other_code, other_message, other_retry),
    ensures
        request == other_request,
        code == other_code,
        message == other_message,
        retry == other_retry,
{
}

} // verus!
