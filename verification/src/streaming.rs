//! Image streaming: which levels are sent, from where, and in which frames.

use vstd::prelude::*;

use crate::error::Error;
use crate::protocol::{
    encode_layer_chunk, encode_layer_chunk_mux, encode_layer_complete, encode_layer_complete_mux,
    encode_level_complete, encode_level_complete_mux, encode_reset, encode_reset_mux,
    ServerMessageType, StreamMetadata, WireCodes,
};
use crate::pyramid::builder::PyramidMetadata;
use crate::pyramid::levels::calculate_num_levels;
use crate::pyramid::storage::PyramidStatus;
use crate::text::push_decimal;

verus! {

/// After how many chunks a stream lets others run.
pub const YIELD_EVERY_N_CHUNKS: u32 = 8;

// ----------------------------------------------------------------------------
// Which levels
// ----------------------------------------------------------------------------

/// A level to be streamed.
#[derive(Clone, Copy, Debug, PartialEq, Eq, Structural)]
pub struct LevelRequest {
    pub level: u32,
    /// Whether the client clears its display before this level.
    pub send_reset: bool,
}

/// The level that a stream ends at.
pub open spec fn target_level(level: u32, max_level: u32) -> u32 {
    if level <= max_level {
        level
    } else {
        max_level
    }
}

/// The levels that are streamed: on progressive streaming all from the smallest
/// to the target, else the target alone. Only the first is preceded by a reset.
pub open spec fn stream_levels_spec(level: u32, max_level: u32, progressive: bool) -> Seq<
    LevelRequest,
> {
    let target = target_level(level, max_level);
    if progressive {
        Seq::new(
            (max_level - target + 1) as nat,
            |i: int| LevelRequest { level: (max_level - i) as u32, send_reset: i == 0 },
        )
    } else {
        seq![LevelRequest { level: target, send_reset: true }]
    }
}

/// The levels that are streamed, in order.
pub fn stream_levels(level: u32, max_level: u32, progressive: bool) -> (out: Vec<LevelRequest>)
    ensures
        out@ == stream_levels_spec(level, max_level, progressive),
{
    let target: u32 = if level <= max_level {
        level
    } else {
        max_level
    };
    let mut out: Vec<LevelRequest> = Vec::new();
    if !progressive {
        out.push(LevelRequest { level: target, send_reset: true });
        assert(out@ =~= stream_levels_spec(level, max_level, progressive));
        return out;
    }
    let ghost whole = stream_levels_spec(level, max_level, progressive);
    let mut current: u32 = max_level;
    while current > target
        invariant
            target == target_level(level, max_level),
            target <= current <= max_level,
            progressive,
            whole == stream_levels_spec(level, max_level, progressive),
            out@ == whole.take(max_level - current),
        decreases current,
    {
        out.push(LevelRequest { level: current, send_reset: current == max_level });
        assert(whole.take(max_level - current + 1) =~= whole.take(max_level - current).push(
            whole[max_level - current],
        ));
        current = current - 1;
    }
    out.push(LevelRequest { level: current, send_reset: current == max_level });
    assert(out@ =~= whole);
    out
}

/// The levels that are streamed, in order, by a server without pyramids: the same.
pub fn source_stream_levels(level: u32, max_level: u32, progressive: bool) -> (out: Vec<
    LevelRequest,
>)
    ensures
        out@ == stream_levels_spec(level, max_level, progressive),
{
    stream_levels(level, max_level, progressive)
}

/// A stream always ends with its target, which is no smaller than asked for
/// unless the image has no such level; only its first level is preceded by a
/// reset; and a progressive one gets one level larger at a time.
pub proof fn lemma_stream_levels(level: u32, max_level: u32, progressive: bool)
    ensures
        ({
            let levels = stream_levels_spec(level, max_level, progressive);
            &&& levels.len() >= 1
            &&& levels.last().level == target_level(level, max_level)
            &&& forall|i: int|
                0 <= i < levels.len() ==> (#[trigger] levels[i]).send_reset == (i == 0)
            &&& forall|i: int|
                0 <= i < levels.len() - 1 ==> levels[i + 1].level + 1 == (
                #[trigger] levels[i]).level
            &&& progressive ==> levels[0].level == max_level
            &&& !progressive ==> levels.len() == 1
        }),
{
}

/// A stream ends with the level that was asked for where the image has it, and with the
/// smallest one otherwise.
pub proof fn lemma_streams_end_with_the_request(level: u32, max_level: u32, progressive: bool)
    ensures
        ({
            let last = stream_levels_spec(level, max_level, progressive).last().level;
            &&& level <= max_level ==> last == level
            &&& level > max_level ==> last == max_level
        }),
        target_level(level, max_level) <= level,
        target_level(level, max_level) <= max_level,
        target_level(level, max_level) == level || target_level(level, max_level) == max_level,
{
}

/// A progressive stream holds each level from the smallest to the one asked for once,
/// and no other.
pub proof fn lemma_progressive_streams_hold_all_levels(level: u32, max_level: u32, asked: u32)
    requires
        level <= max_level,
    ensures
        ({
            let levels = stream_levels_spec(level, max_level, true);
            &&& levels.len() == max_level - level + 1
            &&& level <= asked <= max_level ==> levels[max_level - asked].level == asked
            &&& forall|i: int|
                0 <= i < levels.len() ==> level <= (#[trigger] levels[i]).level <= max_level
        }),
{
}

/// The index of the smallest level of an image with this many levels.
pub open spec fn last_level(level_count: nat) -> nat {
    if level_count == 0 {
        0
    } else {
        (level_count - 1) as nat
    }
}

/// The index of the smallest level of a cached pyramid.
pub fn cached_max_level(metadata: &PyramidMetadata) -> (max_level: u32)
    ensures
        max_level == last_level(metadata.levels@.len()) as u32,
        max_level <= last_level(metadata.levels@.len()),
{
    let count: usize = metadata.levels.len();
    if count == 0 {
        0
    } else {
        let last: usize = count - 1;
        assert((last as u32) <= last) by (bit_vector);
        last as u32
    }
}

/// The index of the smallest level of an image of this size.
pub fn source_max_level(width: u32, height: u32) -> (max_level: u32)
    ensures
        crate::pyramid::levels::is_level_count(
            crate::pyramid::levels::larger(width, height) as nat,
            (max_level + 1) as nat,
        ),
        max_level < 25,
{
    calculate_num_levels(width, height) - 1
}

// ----------------------------------------------------------------------------
// From where
// ----------------------------------------------------------------------------

/// Where a level is streamed from.
#[derive(Clone, Copy, Debug, PartialEq, Eq, Structural)]
pub enum LevelSource {
    /// From the cached pyramid.
    Pyramid,
    /// From the source file; `start_build` says to start building the pyramid.
    Source { start_build: bool },
    /// Not now: the pyramid is being built.
    NotReady,
}

/// Where a level of a multiplexed stream comes from: the pyramid once it is
/// ready, else the source. A pyramid that is neither ready nor being built is
/// started unless a task builds it already.
pub open spec fn source_of(status: PyramidStatus, build_running: bool) -> LevelSource {
    match status {
        PyramidStatus::Ready => LevelSource::Pyramid,
        PyramidStatus::Building => LevelSource::Source { start_build: false },
        PyramidStatus::Pending | PyramidStatus::Failed => LevelSource::Source {
            start_build: !build_running,
        },
    }
}

/// Where a level of a per-image stream comes from: as on a multiplexed stream,
/// but not while the pyramid is being built.
pub open spec fn plain_source_of(status: PyramidStatus, build_running: bool) -> LevelSource {
    if status == PyramidStatus::Building {
        LevelSource::NotReady
    } else {
        source_of(status, build_running)
    }
}

/// The pyramid is streamed exactly where it is ready. Its build is started exactly where
/// it is neither ready nor being built and no task runs. Clients are put off only on
/// per-image connections, exactly while it is being built.
pub proof fn lemma_level_sources(status: PyramidStatus, build_running: bool)
    ensures
        source_of(status, build_running) is Pyramid <==> status == PyramidStatus::Ready,
        plain_source_of(status, build_running) is Pyramid <==> status == PyramidStatus::Ready,
        source_of(status, build_running) == (LevelSource::Source { start_build: true }) <==> (
        status != PyramidStatus::Ready && status != PyramidStatus::Building && !build_running),
        plain_source_of(status, build_running) == (LevelSource::Source { start_build: true }) <==> (
        status != PyramidStatus::Ready && status != PyramidStatus::Building && !build_running),
        !(source_of(status, build_running) is NotReady),
        plain_source_of(status, build_running) is NotReady <==> status == PyramidStatus::Building,
{
}

/// Where a level of a multiplexed stream comes from: the pyramid once it is
/// ready, else the source. A pyramid that is neither ready nor being built is
/// started unless a task builds it already.
pub fn level_source(status: PyramidStatus, build_running: bool) -> (source: LevelSource)
    ensures
        source == source_of(status, build_running),
{
    match status {
        PyramidStatus::Ready => LevelSource::Pyramid,
        PyramidStatus::Building => LevelSource::Source { start_build: false },
        PyramidStatus::Pending | PyramidStatus::Failed => LevelSource::Source {
            start_build: !build_running,
        },
    }
}

/// Where a level of a per-image stream comes from: as on a multiplexed stream,
/// but not while the pyramid is being built.
pub fn plain_level_source(status: PyramidStatus, build_running: bool) -> (source: LevelSource)
    ensures
        source == plain_source_of(status, build_running),
{
    match status {
        PyramidStatus::Building => LevelSource::NotReady,
        other => level_source(other, build_running),
    }
}

/// How many RGBA texture layers the bands of an image take: four bands per
/// layer, and at least two layers.
pub open spec fn layer_count(num_bands: nat) -> nat {
    let layers = (num_bands + 3) / 4;
    if layers < 2 {
        2
    } else {
        layers
    }
}

/// The layers hold all bands, there are at least two, and fewer would not do.
pub proof fn lemma_layers_hold_all_bands(num_bands: nat, fewer: nat)
    ensures
        4 * layer_count(num_bands) >= num_bands,
        layer_count(num_bands) >= 2,
        2 <= fewer < layer_count(num_bands) ==> 4 * fewer < num_bands,
{
}

/// Number of RGBA texture layers needed (4 bands per layer).
pub fn num_layers(num_bands: usize) -> (layers: u32)
    ensures
        layers == layer_count(num_bands as nat) as u32,
{
    let full: usize = num_bands / 4;
    let layers: usize = if num_bands % 4 == 0 {
        full
    } else {
        full + 1
    };
    if layers < 2 {
        2
    } else {
        layers as u32
    }
}

/// The metadata of a level that is streamed from its source.
pub open spec fn source_metadata(
    width: u32,
    height: u32,
    num_bands: usize,
    full_width: u32,
    full_height: u32,
) -> StreamMetadata {
    StreamMetadata {
        width,
        height,
        num_bands: num_bands as u32,
        num_layers: layer_count(num_bands as nat) as u32,
        full_width,
        full_height,
    }
}

/// What a client reads of a level that is streamed from its source: its size, the
/// image's bands, layers enough for them, and the image's size.
pub proof fn lemma_source_metadata_reads_back(
    width: u32,
    height: u32,
    num_bands: usize,
    full_width: u32,
    full_height: u32,
)
    requires
        num_bands <= u32::MAX,
    ensures
        ({
            let payload = source_metadata(
                width,
                height,
                num_bands,
                full_width,
                full_height,
            ).payload();
            &&& crate::bytes::le_value(payload.subrange(0, 4)) == width
            &&& crate::bytes::le_value(payload.subrange(4, 8)) == height
            &&& crate::bytes::le_value(payload.subrange(8, 12)) == num_bands
            &&& 4 * crate::bytes::le_value(payload.subrange(12, 16)) >= num_bands
            &&& 4 * crate::bytes::le_value(payload.subrange(12, 16)) <= num_bands + 8
            &&& crate::bytes::le_value(payload.subrange(16, 20)) == full_width
            &&& crate::bytes::le_value(payload.subrange(20, 24)) == full_height
        }),
{
    crate::protocol::lemma_metadata_reads_back(
        source_metadata(width, height, num_bands, full_width, full_height),
    );
}

/// The metadata of a level that is streamed from its source.
pub fn source_stream_metadata(
    width: u32,
    height: u32,
    num_bands: usize,
    full_width: u32,
    full_height: u32,
) -> (metadata: StreamMetadata)
    ensures
        metadata == source_metadata(width, height, num_bands, full_width, full_height),
{
    StreamMetadata {
        width,
        height,
        num_bands: num_bands as u32,
        num_layers: num_layers(num_bands),
        full_width,
        full_height,
    }
}

/// The smallest of three levels.
pub open spec fn clamped_level(level: u32, max_level: u32, protocol_max: u32) -> u32 {
    target_level(target_level(level, max_level), protocol_max)
}

/// The level that answers a request is no greater than the level asked for, the
/// pyramid's last one and the protocol's greatest, and it is one of them. So a level
/// that exists is given as it is asked for.
pub proof fn lemma_existing_levels_are_given(level: u32, max_level: u32, protocol_max: u32)
    ensures
        ({
            let chosen = clamped_level(level, max_level, protocol_max);
            &&& chosen <= level
            &&& chosen <= max_level
            &&& chosen <= protocol_max
            &&& chosen == level || chosen == max_level || chosen == protocol_max
            &&& level <= max_level && level <= protocol_max ==> chosen == level
        }),
{
}

/// A level of a pyramid that is asked for is chosen, if the protocol has it. Any other
/// request gives the last level of the pyramid or the greatest of the protocol,
/// whichever is less. The chosen level is always one of the pyramid.
pub proof fn lemma_levels_of_a_pyramid(level_count: nat, level: u32, protocol_max: u32)
    requires
        0 < level_count <= u32::MAX,
    ensures
        ({
            let chosen = clamped_level(level, last_level(level_count) as u32, protocol_max);
            &&& chosen < level_count
            &&& level < level_count && level <= protocol_max ==> chosen == level
            &&& level >= level_count && level_count - 1 <= protocol_max ==> chosen == level_count
                - 1
            &&& level > protocol_max && protocol_max < level_count ==> chosen == protocol_max
        }),
{
}

/// The metadata of a level of a cached pyramid.
pub open spec fn cached_metadata(metadata: PyramidMetadata, chosen: u32) -> StreamMetadata {
    StreamMetadata {
        width: metadata.levels@[chosen as int].width,
        height: metadata.levels@[chosen as int].height,
        num_bands: metadata.num_bands as u32,
        num_layers: metadata.levels@[chosen as int].num_layers,
        full_width: metadata.full_width,
        full_height: metadata.full_height,
    }
}

/// What a client reads of a level of a cached pyramid: the size and the layers of that
/// level, and the bands and the size of the image.
pub proof fn lemma_cached_metadata_reads_back(metadata: PyramidMetadata, chosen: u32)
    requires
        chosen < metadata.levels@.len(),
        metadata.num_bands <= u32::MAX,
    ensures
        ({
            let payload = cached_metadata(metadata, chosen).payload();
            let level = metadata.levels@[chosen as int];
            &&& crate::bytes::le_value(payload.subrange(0, 4)) == level.width
            &&& crate::bytes::le_value(payload.subrange(4, 8)) == level.height
            &&& crate::bytes::le_value(payload.subrange(8, 12)) == metadata.num_bands
            &&& crate::bytes::le_value(payload.subrange(12, 16)) == level.num_layers
            &&& crate::bytes::le_value(payload.subrange(16, 20)) == metadata.full_width
            &&& crate::bytes::le_value(payload.subrange(20, 24)) == metadata.full_height
        }),
{
    crate::protocol::lemma_metadata_reads_back(cached_metadata(metadata, chosen));
}

/// The level of a cached pyramid that answers a request, and its metadata: the
/// level asked for, held at the last one of the pyramid and at the greatest one
/// of the protocol.
pub fn pyramid_stream_level(metadata: &PyramidMetadata, level: u32, protocol_max: u32) -> (r: Result<
    (u32, StreamMetadata),
    Error,
>)
    ensures
        match r {
            Ok(found) => {
                let chosen = clamped_level(
                    level,
                    last_level(metadata.levels@.len()) as u32,
                    protocol_max,
                );
                &&& metadata.levels@.len() > 0
                &&& found.0 == chosen
                &&& found.1 == cached_metadata(*metadata, chosen)
                &&& level < metadata.levels@.len() <= u32::MAX && level <= protocol_max ==> found.0
                    == level
            },
            Err(error) => metadata.levels@.len() == 0 && crate::error::is_internal(
                error,
                "Pyramid level "@ + crate::text::decimal(0) + " not found"@,
            ),
        },
{
    let max_level = cached_max_level(metadata);
    let wanted: u32 = if level <= max_level {
        level
    } else {
        max_level
    };
    let chosen: u32 = if wanted <= protocol_max {
        wanted
    } else {
        protocol_max
    };
    if chosen as usize >= metadata.levels.len() {
        let mut message = "Pyramid level ".to_owned();
        push_decimal(&mut message, chosen as u64);
        message.append(" not found");
        return Err(Error::Internal(message));
    }
    let info = metadata.levels[chosen as usize];
    Ok(
        (
            chosen,
            StreamMetadata {
                width: info.width,
                height: info.height,
                num_bands: metadata.num_bands as u32,
                num_layers: info.num_layers,
                full_width: metadata.full_width,
                full_height: metadata.full_height,
            },
        ),
    )
}

/// As `pyramid_stream_level`, with the answer of a per-image stream to a
/// pyramid without levels.
pub fn plain_pyramid_stream_level(
    metadata: &PyramidMetadata,
    level: u32,
    protocol_max: u32,
) -> (r: Result<(u32, StreamMetadata), Error>)
    ensures
        match r {
            Ok(found) => {
                let chosen = clamped_level(
                    level,
                    last_level(metadata.levels@.len()) as u32,
                    protocol_max,
                );
                &&& metadata.levels@.len() > 0
                &&& found.0 == chosen
                &&& found.1 == cached_metadata(*metadata, chosen)
                &&& level < metadata.levels@.len() <= u32::MAX && level <= protocol_max ==> found.0
                    == level
            },
            Err(error) => metadata.levels@.len() == 0 && crate::error::is_internal(
                error,
                "Pyramid level 0 not found (available: 0-0)"@,
            ),
        },
{
    match pyramid_stream_level(metadata, level, protocol_max) {
        Ok(found) => Ok(found),
        Err(_) => Err(Error::Internal("Pyramid level 0 not found (available: 0-0)".to_owned())),
    }
}

// ----------------------------------------------------------------------------
// In which frames
// ----------------------------------------------------------------------------

/// Which kind of connection frames are made for.
#[derive(Clone, Copy, Debug, PartialEq, Eq, Structural)]
pub enum FrameStyle {
    /// A multiplexed connection: frames carry a request id.
    Mux(u32),
    /// A connection for one image: frames carry none.
    Plain,
}

/// The bytes of a frame.
pub open spec fn styled_frame(
    codes: WireCodes,
    style: FrameStyle,
    kind: ServerMessageType,
    payload: Seq<u8>,
) -> Seq<u8> {
    match style {
        FrameStyle::Mux(request_id) => crate::protocol::mux_frame(codes, kind, request_id, payload),
        FrameStyle::Plain => crate::protocol::plain_frame(codes, kind, payload),
    }
}

/// The frames of several frame lists' views.
pub open spec fn frame_views(frames: Seq<Vec<u8>>) -> Seq<Seq<u8>> {
    frames.map_values(|frame: Vec<u8>| frame@)
}

/// The frames that open a level: a reset if asked for, and the metadata.
pub open spec fn opening_frames(
    codes: WireCodes,
    style: FrameStyle,
    send_reset: bool,
    metadata: StreamMetadata,
) -> Seq<Seq<u8>> {
    let head = if send_reset {
        seq![styled_frame(codes, style, ServerMessageType::Reset, Seq::empty())]
    } else {
        Seq::empty()
    };
    head.push(styled_frame(codes, style, ServerMessageType::Metadata, metadata.payload()))
}

/// The frames that open a level.
pub fn level_opening(
    codes: &WireCodes,
    style: FrameStyle,
    send_reset: bool,
    metadata: &StreamMetadata,
) -> (out: Vec<Vec<u8>>)
    ensures
        frame_views(out@) == opening_frames(*codes, style, send_reset, *metadata),
{
    let mut out: Vec<Vec<u8>> = Vec::new();
    if send_reset {
        out.push(
            match style {
                FrameStyle::Mux(request_id) => encode_reset_mux(codes, request_id),
                FrameStyle::Plain => encode_reset(codes),
            },
        );
    }
    out.push(
        match style {
            FrameStyle::Mux(request_id) => metadata.to_bytes_mux(codes, request_id),
            FrameStyle::Plain => metadata.to_bytes(codes),
        },
    );
    assert(frame_views(out@) =~= opening_frames(*codes, style, send_reset, *metadata));
    out
}

/// The rows of an image from `row` on, in chunks of at most `chunk_rows`.
pub open spec fn row_chunks(row: u32, height: u32, chunk_rows: u32) -> Seq<(u32, u32)>
    decreases height - row,
{
    if row >= height || chunk_rows == 0 {
        Seq::empty()
    } else {
        let end = chunk_end(row, height, chunk_rows);
        seq![(row, end)] + row_chunks(end, height, chunk_rows)
    }
}

/// Where the chunk that starts at `row` ends.
pub open spec fn chunk_end(row: u32, height: u32, chunk_rows: u32) -> u32 {
    if chunk_rows <= height - row {
        (row + chunk_rows) as u32
    } else {
        height
    }
}

/// The chunks cover the rows once, in order, without a gap, and each holds at
/// least one row and at most as many as allowed; all but the last hold exactly as many.
pub proof fn lemma_row_chunks(row: u32, height: u32, chunk_rows: u32)
    requires
        chunk_rows > 0,
        row <= height,
    ensures
        ({
            let chunks = row_chunks(row, height, chunk_rows);
            &&& row < height ==> chunks.len() > 0 && chunks[0].0 == row && chunks.last().1 == height
            &&& row == height ==> chunks.len() == 0
            &&& forall|i: int|
                0 <= i < chunks.len() ==> (#[trigger] chunks[i]).0 < chunks[i].1 <= height
                    && chunks[i].1 - chunks[i].0 <= chunk_rows
            &&& forall|i: int|
                0 <= i < chunks.len() - 1 ==> (#[trigger] chunks[i]).1 == chunks[i + 1].0
                    && chunks[i].1 - chunks[i].0 == chunk_rows
        }),
    decreases height - row,
{
    if row < height {
        let end = chunk_end(row, height, chunk_rows);
        let chunks = row_chunks(row, height, chunk_rows);
        let rest = row_chunks(end, height, chunk_rows);
        lemma_row_chunks(end, height, chunk_rows);
        assert forall|i: int| 0 <= i < chunks.len() implies (#[trigger] chunks[i]).0 < chunks[i].1
            <= height && chunks[i].1 - chunks[i].0 <= chunk_rows by {
            if i > 0 {
                assert(chunks[i] == rest[i - 1]);
            }
        }
        assert forall|i: int| 0 <= i < chunks.len() - 1 implies (#[trigger] chunks[i]).1 == chunks[i
            + 1].0 && chunks[i].1 - chunks[i].0 == chunk_rows by {
            if i > 0 {
                assert(chunks[i] == rest[i - 1]);
                assert(chunks[i + 1] == rest[i]);
            }
        }
        if rest.len() > 0 {
            assert(chunks.last() == rest.last());
        }
    }
}

/// The bytes of some rows of a layer.
pub open spec fn row_bytes(data: Seq<u8>, width: u32, start: u32, end: u32) -> Seq<u8> {
    data.subrange(start * (width * 4), end * (width * 4))
}

/// The frame of one chunk of a layer.
pub open spec fn chunk_frame(
    codes: WireCodes,
    style: FrameStyle,
    layer: u16,
    data: Seq<u8>,
    width: u32,
    chunk: (u32, u32),
) -> Seq<u8> {
    styled_frame(
        codes,
        style,
        ServerMessageType::LayerChunk,
        crate::protocol::layer_chunk_payload(
            layer,
            chunk.0,
            chunk.1,
            row_bytes(data, width, chunk.0, chunk.1),
        ),
    )
}

/// The frames of a layer: one per chunk of rows, and its end.
pub open spec fn layer_frames_spec(
    codes: WireCodes,
    style: FrameStyle,
    layer: u32,
    data: Seq<u8>,
    width: u32,
    height: u32,
    chunk_rows: u32,
) -> Seq<Seq<u8>> {
    row_chunks(0, height, chunk_rows).map_values(
        |chunk: (u32, u32)| chunk_frame(codes, style, layer as u16, data, width, chunk),
    ).push(
        styled_frame(
            codes,
            style,
            ServerMessageType::LayerComplete,
            crate::protocol::layer_end_payload(layer as u16),
        ),
    )
}

/// The frames of a layer, in order.
pub fn layer_frames(
    codes: &WireCodes,
    style: FrameStyle,
    layer: u32,
    data: &Vec<u8>,
    width: u32,
    height: u32,
    chunk_rows: u32,
) -> (out: Vec<Vec<u8>>)
    requires
        chunk_rows > 0,
        width * 4 <= u32::MAX,
        height * (width * 4) <= data@.len(),
    ensures
        frame_views(out@) == layer_frames_spec(
            *codes,
            style,
            layer,
            data@,
            width,
            height,
            chunk_rows,
        ),
{
    let mut out: Vec<Vec<u8>> = Vec::new();
    let bytes_per_row: usize = (width * 4) as usize;
    let index: u16 = layer as u16;
    let bytes = data.as_slice();
    let mut row: u32 = 0;
    let ghost to_frame = |chunk: (u32, u32)|
        chunk_frame(*codes, style, index, data@, width, chunk);
    let ghost whole = row_chunks(0, height, chunk_rows);
    let ghost mut done: Seq<(u32, u32)> = Seq::empty();
    assert(done + row_chunks(0, height, chunk_rows) =~= whole);
    assert(frame_views(out@) =~= done.map_values(to_frame));
    assert(data.len() <= usize::MAX);
    while row < height
        invariant
            row <= height,
            chunk_rows > 0,
            bytes_per_row == width * 4,
            bytes@ == data@,
            data@.len() <= usize::MAX,
            height * (width * 4) <= data@.len(),
            whole == done + row_chunks(row, height, chunk_rows),
            to_frame == (|chunk: (u32, u32)|
                chunk_frame(*codes, style, index, data@, width, chunk)),
            frame_views(out@) == done.map_values(to_frame),
        decreases height - row,
    {
        let end: u32 = if chunk_rows <= height - row {
            row + chunk_rows
        } else {
            height
        };
        proof {
            assert(0 <= row * (width * 4) <= end * (width * 4) <= height * (width * 4))
                by (nonlinear_arith)
                requires
                    row <= end <= height,
            ;
        }
        let from: usize = row as usize * bytes_per_row;
        let to: usize = end as usize * bytes_per_row;
        let chunk = &bytes[from..to];
        let frame = match style {
            FrameStyle::Mux(request_id) => encode_layer_chunk_mux(
                codes,
                request_id,
                index,
                row,
                end,
                chunk,
            ),
            FrameStyle::Plain => encode_layer_chunk(codes, index, row, end, chunk),
        };
        let ghost before = frame_views(out@);
        out.push(frame);
        proof {
            assert(chunk@ =~= row_bytes(data@, width, row, end));
            assert(frame@ == to_frame((row, end)));
            assert(frame_views(out@) =~= before.push(frame@));
            let next = done.push((row, end));
            assert(next.map_values(to_frame) =~= done.map_values(to_frame).push(
                to_frame((row, end)),
            ));
            assert(done + (seq![(row, end)] + row_chunks(end, height, chunk_rows)) =~= next
                + row_chunks(end, height, chunk_rows));
            done = next;
        }
        row = end;
    }
    let last = match style {
        FrameStyle::Mux(request_id) => encode_layer_complete_mux(codes, request_id, index),
        FrameStyle::Plain => encode_layer_complete(codes, index),
    };
    let ghost before = frame_views(out@);
    out.push(last);
    proof {
        assert(done + Seq::<(u32, u32)>::empty() =~= done);
        assert(whole == done);
        assert(frame_views(out@) =~= before.push(last@));
        let named = |chunk: (u32, u32)|
            chunk_frame(*codes, style, layer as u16, data@, width, chunk);
        assert(whole.map_values(to_frame) =~= whole.map_values(named));
    }
    out
}

/// The chunks of a layer put together again.
pub open spec fn chunk_data(data: Seq<u8>, width: u32, chunks: Seq<(u32, u32)>) -> Seq<u8>
    decreases chunks.len(),
{
    if chunks.len() == 0 {
        Seq::empty()
    } else {
        row_bytes(data, width, chunks[0].0, chunks[0].1) + chunk_data(data, width, chunks.skip(1))
    }
}

/// What a client puts together from the chunks of a layer is the layer.
pub proof fn lemma_chunks_make_the_layer(
    data: Seq<u8>,
    width: u32,
    height: u32,
    row: u32,
    chunk_rows: u32,
)
    requires
        chunk_rows > 0,
        row <= height,
        height * (width * 4) <= data.len(),
    ensures
        chunk_data(data, width, row_chunks(row, height, chunk_rows)) == row_bytes(
            data,
            width,
            row,
            height,
        ),
    decreases height - row,
{
    if row < height {
        let end = chunk_end(row, height, chunk_rows);
        let chunks = row_chunks(row, height, chunk_rows);
        lemma_chunks_make_the_layer(data, width, height, end, chunk_rows);
        assert(chunks.skip(1) =~= row_chunks(end, height, chunk_rows));
        assert(0 <= row * (width * 4) <= end * (width * 4) <= height * (width * 4))
            by (nonlinear_arith)
            requires
                row <= end <= height,
        ;
        assert(row_bytes(data, width, row, end) + row_bytes(data, width, end, height)
            =~= row_bytes(data, width, row, height));
    } else {
        assert(0 <= row * (width * 4)) by (nonlinear_arith);
        assert(row_bytes(data, width, row, height) =~= Seq::<u8>::empty());
    }
}

/// The frame that ends a level.
pub fn level_ending(codes: &WireCodes, style: FrameStyle, level: u32) -> (out: Vec<u8>)
    ensures
        out@ == styled_frame(
            *codes,
            style,
            ServerMessageType::LevelComplete,
            crate::protocol::level_end_payload(level as u8),
        ),
{
    match style {
        FrameStyle::Mux(request_id) => encode_level_complete_mux(codes, request_id, level as u8),
        FrameStyle::Plain => encode_level_complete(codes, level as u8),
    }
}

/// The frames that are sent of a level.
#[derive(Clone, Copy, Debug, PartialEq, Eq, Structural)]
pub enum FrameStage {
    Reset,
    Metadata,
    /// A chunk or the end of a layer.
    Layer,
    /// The end of the level or of the stream.
    End,
}

/// What becomes of a stream when a frame cannot be sent.
#[derive(Debug)]
pub enum SendFailure {
    /// The stream fails.
    Fail(Error),
    /// The client is gone: the level ends without an error.
    Stop,
    /// Nothing follows from it.
    Ignore,
}

/// Whether this becomes of a stream when a frame cannot be sent.
pub open spec fn failure_follows(stage: FrameStage, r: SendFailure) -> bool {
    match stage {
        FrameStage::Reset => r matches SendFailure::Fail(e) && crate::error::is_internal(
            e,
            "Failed to send reset"@,
        ),
        FrameStage::Metadata => r matches SendFailure::Fail(e) && crate::error::is_internal(
            e,
            "Failed to send metadata"@,
        ),
        FrameStage::Layer => r is Stop,
        FrameStage::End => r is Ignore,
    }
}

/// A stream fails where a level cannot be opened, and only there: a client that goes
/// away later ends it quietly, and nothing follows once everything was sent.
pub proof fn lemma_only_openings_fail(stage: FrameStage, r: SendFailure)
    requires
        failure_follows(stage, r),
    ensures
        r is Fail <==> stage == FrameStage::Reset || stage == FrameStage::Metadata,
        r is Ignore <==> stage == FrameStage::End,
        r matches SendFailure::Fail(e) ==> e is Internal,
{
}

/// What becomes of a stream when a frame cannot be sent.
pub fn send_failure(stage: FrameStage) -> (r: SendFailure)
    ensures
        failure_follows(stage, r),
{
    match stage {
        FrameStage::Reset => SendFailure::Fail(Error::Internal("Failed to send reset".to_owned())),
        FrameStage::Metadata => SendFailure::Fail(
            Error::Internal("Failed to send metadata".to_owned()),
        ),
        FrameStage::Layer => SendFailure::Stop,
        FrameStage::End => SendFailure::Ignore,
    }
}

/// The frames of a level in batches: first what opens it, a batch for each
/// layer, and last what ends it.
pub open spec fn level_batch_spec(
    codes: WireCodes,
    style: FrameStyle,
    request: LevelRequest,
    metadata: StreamMetadata,
    layers: Seq<(u32, Vec<u8>)>,
    chunk_rows: u32,
    batch: int,
) -> Seq<Seq<u8>> {
    if batch == 0 {
        opening_frames(codes, style, request.send_reset, metadata)
    } else if batch <= layers.len() {
        layer_frames_spec(
            codes,
            style,
            layers[batch - 1].0,
            layers[batch - 1].1@,
            metadata.width,
            metadata.height,
            chunk_rows,
        )
    } else {
        seq![
            styled_frame(
                codes,
                style,
                ServerMessageType::LevelComplete,
                crate::protocol::level_end_payload(request.level as u8),
            ),
        ]
    }
}

/// Whether every layer of a level holds all its rows.
pub open spec fn layers_hold(layers: Seq<(u32, Vec<u8>)>, width: u32, height: u32) -> bool {
    forall|i: int|
        0 <= i < layers.len() ==> height * (width * 4) <= (#[trigger] layers[i]).1@.len()
}

/// Whether every layer of a level holds all its rows, and a row's bytes can be
/// counted in 32 bits.
pub fn check_layers(layers: &Vec<(u32, Vec<u8>)>, width: u32, height: u32) -> (r: bool)
    ensures
        r == (width * 4 <= u32::MAX && layers_hold(layers@, width, height)),
{
    if width > u32::MAX / 4 {
        return false;
    }
    assert(height * (width * 4) <= u32::MAX * (u32::MAX * 4)) by (nonlinear_arith);
    let needed: u128 = height as u128 * (width as u128 * 4);
    let mut i: usize = 0;
    while i < layers.len()
        invariant
            i <= layers@.len(),
            needed == height * (width * 4),
            forall|k: int|
                0 <= k < i ==> height * (width * 4) <= (#[trigger] layers@[k]).1@.len(),
        decreases layers@.len() - i,
    {
        if (layers[i].1.len() as u128) < needed {
            assert(!(height * (width * 4) <= layers@[i as int].1@.len()));
            return false;
        }
        i = i + 1;
    }
    true
}

/// One batch of the frames of a level; there are as many batches as layers, and
/// two more.
pub fn level_batch(
    codes: &WireCodes,
    style: FrameStyle,
    request: LevelRequest,
    metadata: &StreamMetadata,
    layers: &Vec<(u32, Vec<u8>)>,
    chunk_rows: u32,
    batch: usize,
) -> (out: Vec<Vec<u8>>)
    requires
        chunk_rows > 0,
        metadata.width * 4 <= u32::MAX,
        layers_hold(layers@, metadata.width, metadata.height),
    ensures
        frame_views(out@) == level_batch_spec(
            *codes,
            style,
            request,
            *metadata,
            layers@,
            chunk_rows,
            batch as int,
        ),
{
    if batch == 0 {
        level_opening(codes, style, request.send_reset, metadata)
    } else if batch <= layers.len() {
        let layer = &layers[batch - 1];
        layer_frames(
            codes,
            style,
            layer.0,
            &layer.1,
            metadata.width,
            metadata.height,
            chunk_rows,
        )
    } else {
        let mut out: Vec<Vec<u8>> = Vec::new();
        out.push(level_ending(codes, style, request.level));
        assert(frame_views(out@) =~= level_batch_spec(
            *codes,
            style,
            request,
            *metadata,
            layers@,
            chunk_rows,
            batch as int,
        ));
        out
    }
}

/// To which part of a level a frame of a batch belongs.
pub open spec fn stage_of(request: LevelRequest, layer_count: nat, batch: nat, position: nat) -> FrameStage {
    if batch == 0 {
        if request.send_reset && position == 0 {
            FrameStage::Reset
        } else {
            FrameStage::Metadata
        }
    } else if batch <= layer_count {
        FrameStage::Layer
    } else {
        FrameStage::End
    }
}

/// To which part of a level a frame of a batch belongs.
pub fn batch_stage(request: LevelRequest, layer_count: usize, batch: usize, position: usize) -> (stage:
    FrameStage)
    ensures
        stage == stage_of(request, layer_count as nat, batch as nat, position as nat),
{
    if batch == 0 {
        if request.send_reset && position == 0 {
            FrameStage::Reset
        } else {
            FrameStage::Metadata
        }
    } else if batch <= layer_count {
        FrameStage::Layer
    } else {
        FrameStage::End
    }
}

// ----------------------------------------------------------------------------
// What a client reads
// ----------------------------------------------------------------------------

/// How many bytes stand in front of a frame's payload.
pub open spec fn header_len(style: FrameStyle) -> int {
    match style {
        FrameStyle::Mux(_) => 6,
        FrameStyle::Plain => 2,
    }
}

/// A frame of either style names its version and its kind, on a multiplexed connection
/// its request too, and carries its payload behind that.
pub proof fn lemma_styled_frame_reads_back(
    codes: WireCodes,
    style: FrameStyle,
    kind: ServerMessageType,
    payload: Seq<u8>,
)
    ensures
        ({
            let frame = styled_frame(codes, style, kind, payload);
            &&& frame.len() == header_len(style) + payload.len()
            &&& frame[0] == codes.version
            &&& frame[1] == codes.code(kind)
            &&& frame.skip(header_len(style)) == payload
            &&& style matches FrameStyle::Mux(request_id) ==> crate::bytes::le_value(
                frame.subrange(2, 6),
            ) == request_id
        }),
{
    match style {
        FrameStyle::Mux(request_id) => {
            crate::protocol::lemma_mux_frame_reads_back(codes, kind, request_id, payload);
        },
        FrameStyle::Plain => {
            crate::protocol::lemma_plain_frame_reads_back(codes, kind, payload);
        },
    }
}

/// A level opens with its metadata, behind a reset exactly where one is asked for.
pub proof fn lemma_levels_open_with_metadata(
    codes: WireCodes,
    style: FrameStyle,
    send_reset: bool,
    metadata: StreamMetadata,
)
    ensures
        ({
            let frames = opening_frames(codes, style, send_reset, metadata);
            &&& frames.len() == if send_reset { 2int } else { 1 }
            &&& frames.last()[1] == codes.code(ServerMessageType::Metadata)
            &&& frames.last().skip(header_len(style)) == metadata.payload()
            &&& send_reset ==> frames[0][1] == codes.code(ServerMessageType::Reset)
                && frames[0].len() == header_len(style)
        }),
{
    lemma_styled_frame_reads_back(
        codes,
        style,
        ServerMessageType::Metadata,
        metadata.payload(),
    );
    lemma_styled_frame_reads_back(codes, style, ServerMessageType::Reset, Seq::empty());
}

/// What a client reads of the frame of a chunk: layer, rows and their bytes.
pub proof fn lemma_chunk_frame_reads_back(
    codes: WireCodes,
    style: FrameStyle,
    layer: u16,
    data: Seq<u8>,
    width: u32,
    chunk: (u32, u32),
)
    ensures
        ({
            let payload = chunk_frame(codes, style, layer, data, width, chunk).skip(
                header_len(style),
            );
            &&& chunk_frame(codes, style, layer, data, width, chunk)[1] == codes.code(
                ServerMessageType::LayerChunk,
            )
            &&& crate::bytes::le_value(payload.subrange(0, 2)) == layer
            &&& crate::bytes::le_value(payload.subrange(2, 6)) == chunk.0
            &&& crate::bytes::le_value(payload.subrange(6, 10)) == chunk.1
            &&& payload.skip(10) == row_bytes(data, width, chunk.0, chunk.1)
        }),
{
    let rows = row_bytes(data, width, chunk.0, chunk.1);
    lemma_styled_frame_reads_back(
        codes,
        style,
        ServerMessageType::LayerChunk,
        crate::protocol::layer_chunk_payload(layer, chunk.0, chunk.1, rows),
    );
    crate::protocol::lemma_layer_chunk_reads_back(layer, chunk.0, chunk.1, rows);
}

/// What a client puts together of the frames of chunks: what follows the header, the
/// layer and the rows of each.
pub open spec fn put_together(frames: Seq<Seq<u8>>, style: FrameStyle) -> Seq<u8>
    decreases frames.len(),
{
    if frames.len() == 0 {
        Seq::empty()
    } else {
        frames[0].skip(header_len(style)).skip(10) + put_together(frames.skip(1), style)
    }
}

proof fn lemma_put_together(
    codes: WireCodes,
    style: FrameStyle,
    layer: u16,
    data: Seq<u8>,
    width: u32,
    chunks: Seq<(u32, u32)>,
    frames: Seq<Seq<u8>>,
)
    requires
        frames.len() == chunks.len(),
        forall|i: int|
            0 <= i < chunks.len() ==> #[trigger] frames[i] == chunk_frame(
                codes,
                style,
                layer,
                data,
                width,
                chunks[i],
            ),
    ensures
        put_together(frames, style) == chunk_data(data, width, chunks),
    decreases chunks.len(),
{
    if chunks.len() > 0 {
        lemma_chunk_frame_reads_back(codes, style, layer, data, width, chunks[0]);
        assert(frames[0] == chunk_frame(codes, style, layer, data, width, chunks[0]));
        assert forall|i: int| 0 <= i < chunks.skip(1).len() implies #[trigger] frames.skip(1)[i]
            == chunk_frame(codes, style, layer, data, width, chunks.skip(1)[i]) by {
            assert(frames.skip(1)[i] == frames[i + 1]);
        }
        lemma_put_together(codes, style, layer, data, width, chunks.skip(1), frames.skip(1));
    }
}

/// What a client puts together of the frames of a layer is the layer, byte for byte,
/// and the last frame tells it that this layer is complete.
pub proof fn lemma_client_gets_the_layer(
    codes: WireCodes,
    style: FrameStyle,
    layer: u32,
    data: Seq<u8>,
    width: u32,
    height: u32,
    chunk_rows: u32,
)
    requires
        chunk_rows > 0,
        layer <= u16::MAX,
        data.len() == height * (width * 4),
    ensures
        ({
            let frames = layer_frames_spec(codes, style, layer, data, width, height, chunk_rows);
            &&& frames.len() >= 1
            &&& put_together(frames.drop_last(), style) == data
            &&& frames.last()[1] == codes.code(ServerMessageType::LayerComplete)
            &&& crate::bytes::le_value(frames.last().skip(header_len(style))) == layer
            &&& forall|i: int|
                0 <= i < frames.len() - 1 ==> (#[trigger] frames[i])[1] == codes.code(
                    ServerMessageType::LayerChunk,
                ) && crate::bytes::le_value(frames[i].skip(header_len(style)).subrange(0, 2))
                    == layer
        }),
{
    let index = layer as u16;
    let chunks = row_chunks(0, height, chunk_rows);
    let frames = layer_frames_spec(codes, style, layer, data, width, height, chunk_rows);
    let sent = frames.drop_last();
    assert forall|i: int| 0 <= i < chunks.len() implies #[trigger] sent[i] == chunk_frame(
        codes,
        style,
        index,
        data,
        width,
        chunks[i],
    ) by {}
    lemma_put_together(codes, style, index, data, width, chunks, sent);
    lemma_chunks_make_the_layer(data, width, height, 0, chunk_rows);
    assert(0 * (width * 4) == 0) by (nonlinear_arith);
    assert(row_bytes(data, width, 0, height) =~= data);
    lemma_styled_frame_reads_back(
        codes,
        style,
        ServerMessageType::LayerComplete,
        crate::protocol::layer_end_payload(index),
    );
    crate::protocol::lemma_short_payloads_read_back(index, 0, 0, 0, Seq::empty());
    assert forall|i: int| 0 <= i < frames.len() - 1 implies (#[trigger] frames[i])[1]
        == codes.code(ServerMessageType::LayerChunk) && crate::bytes::le_value(
        frames[i].skip(header_len(style)).subrange(0, 2),
    ) == layer by {
        assert(sent[i] == frames[i]);
        lemma_chunk_frame_reads_back(codes, style, index, data, width, chunks[i]);
    }
}

/// The rows of a layer keep their places: a byte of a row stands where the row starts
/// in the chunk.
pub proof fn lemma_rows_keep_their_places(
    data: Seq<u8>,
    width: u32,
    start: u32,
    end: u32,
    row: u32,
    at: int,
)
    requires
        start <= row < end,
        0 <= at < width * 4,
        end * (width * 4) <= data.len(),
    ensures
        row_bytes(data, width, start, end)[(row - start) * (width * 4) + at] == data[row * (width
            * 4) + at],
{
    let w = width * 4;
    assert(0 <= start * w <= row * w && row * w + at < end * w && (row - start) * w + start * w
        == row * w && (row - start) * w + at < end * w - start * w) by (nonlinear_arith)
        requires
            start <= row < end,
            0 <= at < w,
    ;
}

/// The frame that ends a level carries the level, as far as a byte holds it.
pub proof fn lemma_ending_names_the_level(
    codes: WireCodes,
    style: FrameStyle,
    request: LevelRequest,
    metadata: StreamMetadata,
    layers: Seq<(u32, Vec<u8>)>,
    chunk_rows: u32,
)
    requires
        request.level <= u8::MAX,
    ensures
        ({
            let frames = level_batch_spec(
                codes,
                style,
                request,
                metadata,
                layers,
                chunk_rows,
                layers.len() as int + 1,
            );
            &&& frames.len() == 1
            &&& frames[0][1] == codes.code(ServerMessageType::LevelComplete)
            &&& frames[0].len() == header_len(style) + 1
            &&& frames[0].last() == request.level
        }),
{
    let payload = crate::protocol::level_end_payload(request.level as u8);
    lemma_styled_frame_reads_back(codes, style, ServerMessageType::LevelComplete, payload);
    crate::protocol::lemma_short_payloads_read_back(0, request.level as u8, 0, 0, Seq::empty());
    let frame = styled_frame(codes, style, ServerMessageType::LevelComplete, payload);
    assert(frame.last() == frame.skip(header_len(style))[0]);
}

/// The batch behind each layer's number holds that layer: what a client puts together
/// of it are the layer's bytes, under the layer's index.
pub proof fn lemma_batches_hold_the_layers(
    codes: WireCodes,
    style: FrameStyle,
    request: LevelRequest,
    metadata: StreamMetadata,
    layers: Seq<(u32, Vec<u8>)>,
    chunk_rows: u32,
    i: int,
)
    requires
        chunk_rows > 0,
        0 <= i < layers.len(),
        layers[i].0 <= u16::MAX,
        layers[i].1@.len() == metadata.height * (metadata.width * 4),
    ensures
        ({
            let frames = level_batch_spec(
                codes,
                style,
                request,
                metadata,
                layers,
                chunk_rows,
                i + 1,
            );
            &&& put_together(frames.drop_last(), style) == layers[i].1@
            &&& crate::bytes::le_value(frames.last().skip(header_len(style))) == layers[i].0
        }),
{
    lemma_client_gets_the_layer(
        codes,
        style,
        layers[i].0,
        layers[i].1@,
        metadata.width,
        metadata.height,
        chunk_rows,
    );
}

/// The stage of a frame is what the frame says that it is.
pub proof fn lemma_stages_are_those_of_the_frames(
    codes: WireCodes,
    style: FrameStyle,
    request: LevelRequest,
    metadata: StreamMetadata,
    layers: Seq<(u32, Vec<u8>)>,
    chunk_rows: u32,
    batch: nat,
    position: nat,
)
    requires
        batch <= layers.len() + 1,
        position < level_batch_spec(
            codes,
            style,
            request,
            metadata,
            layers,
            chunk_rows,
            batch as int,
        ).len(),
    ensures
        ({
            let kind = level_batch_spec(
                codes,
                style,
                request,
                metadata,
                layers,
                chunk_rows,
                batch as int,
            )[position as int][1];
            match stage_of(request, layers.len(), batch, position) {
                FrameStage::Reset => kind == codes.code(ServerMessageType::Reset),
                FrameStage::Metadata => kind == codes.code(ServerMessageType::Metadata),
                FrameStage::Layer => kind == codes.code(ServerMessageType::LayerChunk) || kind
                    == codes.code(ServerMessageType::LayerComplete),
                FrameStage::End => kind == codes.code(ServerMessageType::LevelComplete),
            }
        }),
{
    let frames = level_batch_spec(
        codes,
        style,
        request,
        metadata,
        layers,
        chunk_rows,
        batch as int,
    );
    if batch == 0 {
        lemma_levels_open_with_metadata(codes, style, request.send_reset, metadata);
    } else if batch <= layers.len() {
        let layer = layers[batch - 1];
        let index = layer.0 as u16;
        let chunks = row_chunks(0, metadata.height, chunk_rows);
        if position < chunks.len() {
            lemma_chunk_frame_reads_back(
                codes,
                style,
                index,
                layer.1@,
                metadata.width,
                chunks[position as int],
            );
        } else {
            lemma_styled_frame_reads_back(
                codes,
                style,
                ServerMessageType::LayerComplete,
                crate::protocol::layer_end_payload(index),
            );
        }
    } else {
        lemma_styled_frame_reads_back(
            codes,
            style,
            ServerMessageType::LevelComplete,
            crate::protocol::level_end_payload(request.level as u8),
        );
    }
}

/// A level's layers hold its rows exactly where every row of every layer stands in the
/// layer's bytes.
pub proof fn lemma_layers_hold_every_row(
    layers: Seq<(u32, Vec<u8>)>,
    width: u32,
    height: u32,
    i: int,
    row: int,
)
    requires
        0 <= i < layers.len(),
        0 <= row < height,
    ensures
        layers_hold(layers, width, height) ==> (row + 1) * (width * 4) <= layers[i].1@.len(),
        layers[i].1@.len() < height * (width * 4) ==> !layers_hold(layers, width, height),
        layers_hold(seq![layers[i]], width, height) <==> height * (width * 4) <= layers[i].1@.len(),
{
    assert((row + 1) * (width * 4) <= height * (width * 4)) by (nonlinear_arith)
        requires
            row + 1 <= height,
            width >= 0,
    ;
    assert(seq![layers[i]][0] == layers[i]);
}

} // verus!
