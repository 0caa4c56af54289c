//! Connections that stream a single image, and segmentation over them.

use vstd::prelude::*;

use crate::error::Error;
use crate::pixels::interleave;
use crate::protocol::{ErrorCode, ErrorReply};
use crate::streaming::{stream_levels, LevelRequest};

verus! {

/// What a client of a single-image connection asks for. `P` is what it prompts
/// segmentation with.
#[derive(Debug)]
pub enum PlainMessage<P> {
    StartStream { level: u32, progressive: bool },
    Cancel,
    SamEmbed,
    SamSegment { prompt: P },
    Pong { timestamp: u64 },
}

/// What follows from such a message.
#[derive(Debug)]
pub enum PlainAction<P> {
    /// The image is streamed.
    Stream { level: u32, progressive: bool },
    /// The embedding of the image is made.
    Embed,
    /// The image is segmented.
    Segment { prompt: P },
    /// Nothing is done.
    Nothing,
}

/// What a single-image connection received.
#[derive(Debug)]
pub enum PlainEvent<P> {
    /// A text, as a message or with why it is none.
    Text(Result<PlainMessage<P>, String>),
    Close,
    /// Any other frame.
    Other,
    /// Receiving failed.
    Failed,
}

/// What follows from what was received.
#[derive(Debug)]
pub enum PlainStep<P> {
    /// The connection ends.
    Stop,
    /// Nothing is done.
    Continue,
    /// The time of the pong is noted.
    RecordPong,
    /// An error with this message is sent as text.
    Reply(String),
    /// The message is answered.
    Handle(PlainMessage<P>),
}

/// What follows from what was received, while the connection is alive or not.
pub open spec fn plain_received<P>(alive: bool, event: PlainEvent<P>, step: PlainStep<P>) -> bool {
    if !alive {
        step is Stop
    } else {
        match event {
            PlainEvent::Text(Ok(PlainMessage::Pong { .. })) => step is RecordPong,
            PlainEvent::Text(Ok(message)) => step == PlainStep::Handle(message),
            PlainEvent::Text(Err(cause)) => step matches PlainStep::Reply(message) && message@
                == "Invalid message: "@ + cause@,
            PlainEvent::Close => step is Stop,
            PlainEvent::Other => step is Continue,
            PlainEvent::Failed => step is Stop,
        }
    }
}

/// What follows from what was received, while the connection is alive or not.
pub fn plain_socket_event<P>(alive: bool, event: PlainEvent<P>) -> (step: PlainStep<P>)
    ensures
        plain_received(alive, event, step),
{
    if !alive {
        return PlainStep::Stop;
    }
    match event {
        PlainEvent::Text(Ok(message)) => match message {
            PlainMessage::Pong { timestamp: _ } => PlainStep::RecordPong,
            other => PlainStep::Handle(other),
        },
        PlainEvent::Text(Err(cause)) => {
            let mut message = "Invalid message: ".to_owned();
            message.append(cause.as_str());
            PlainStep::Reply(message)
        },
        PlainEvent::Close => PlainStep::Stop,
        PlainEvent::Other => PlainStep::Continue,
        PlainEvent::Failed => PlainStep::Stop,
    }
}

/// What follows from a message.
pub open spec fn plain_action<P>(message: PlainMessage<P>) -> PlainAction<P> {
    match message {
        PlainMessage::StartStream { level, progressive } => PlainAction::Stream {
            level,
            progressive,
        },
        PlainMessage::Cancel => PlainAction::Nothing,
        PlainMessage::SamEmbed => PlainAction::Embed,
        PlainMessage::SamSegment { prompt } => PlainAction::Segment { prompt },
        PlainMessage::Pong { timestamp } => PlainAction::Nothing,
    }
}

/// What follows from a message.
pub fn handle_client_message<P>(message: PlainMessage<P>) -> (action: PlainAction<P>)
    ensures
        action == plain_action(message),
{
    match message {
        PlainMessage::StartStream { level, progressive } => PlainAction::Stream {
            level,
            progressive,
        },
        PlainMessage::Cancel => PlainAction::Nothing,
        PlainMessage::SamEmbed => PlainAction::Embed,
        PlainMessage::SamSegment { prompt } => PlainAction::Segment { prompt },
        PlainMessage::Pong { timestamp: _ } => PlainAction::Nothing,
    }
}

/// The levels that are streamed over such a connection. A level that is streamed
/// alone is taken as it is asked for.
pub open spec fn plain_levels(level: u32, max_level: u32, progressive: bool) -> Seq<LevelRequest> {
    if progressive {
        crate::streaming::stream_levels_spec(level, max_level, true)
    } else {
        seq![LevelRequest { level, send_reset: true }]
    }
}

/// The levels that are streamed over such a connection. A level that is streamed
/// alone is taken as it is asked for.
pub fn plain_stream_levels(level: u32, max_level: u32, progressive: bool) -> (out: Vec<
    LevelRequest,
>)
    ensures
        out@ == plain_levels(level, max_level, progressive),
{
    if progressive {
        stream_levels(level, max_level, true)
    } else {
        let mut out: Vec<LevelRequest> = Vec::new();
        out.push(LevelRequest { level, send_reset: true });
        assert(out@ =~= seq![LevelRequest { level, send_reset: true }]);
        out
    }
}

/// What a client is told whose image's pyramid is being built, so many percent of it.
pub fn pyramid_building(percent: &str) -> (reply: ErrorReply)
    ensures
        reply.says(
            0,
            ErrorCode::PyramidNotReady,
            "Image pyramid is being built ("@ + percent@ + "% complete)"@,
            Some(5000),
        ),
{
    let mut message = "Image pyramid is being built (".to_owned();
    message.append(percent);
    message.append("% complete)");
    ErrorReply::retryable(0, ErrorCode::PyramidNotReady, message, 5000)
}

/// The RGB pixels that segmentation works on: the first three bands, or the first
/// as grey where there are fewer.
pub open spec fn segmentation_pixels(bands: Seq<Vec<u8>>, pixels: nat) -> Seq<u8> {
    if bands.len() >= 3 {
        crate::pixels::interleaved(bands[0]@, bands[1]@, bands[2]@, pixels)
    } else {
        crate::pixels::interleaved(bands[0]@, bands[0]@, bands[0]@, pixels)
    }
}

/// The RGB pixels that segmentation works on: the first three bands, or the first
/// as grey where there are fewer. An image without bands has none.
pub fn segmentation_rgb(bands: &Vec<Vec<u8>>, pixels: usize) -> (r: Result<Vec<u8>, Error>)
    requires
        forall|b: int|
            0 <= b < bands@.len() && b < 3 ==> pixels <= (#[trigger] bands@[b])@.len(),
    ensures
        match r {
            Ok(rgb) => bands@.len() > 0 && rgb@ == segmentation_pixels(bands@, pixels as nat),
            Err(error) => bands@.len() == 0 && crate::error::is_internal(
                error,
                "Image has no bands"@,
            ),
        },
{
    if bands.len() >= 3 {
        assert(pixels <= bands@[0]@.len() && pixels <= bands@[1]@.len() && pixels
            <= bands@[2]@.len());
        Ok(interleave(&bands[0], &bands[1], &bands[2], pixels))
    } else if bands.len() > 0 {
        assert(pixels <= bands@[0]@.len());
        Ok(interleave(&bands[0], &bands[0], &bands[0], pixels))
    } else {
        Err(Error::Internal("Image has no bands".to_owned()))
    }
}

// ----------------------------------------------------------------------------
// Segmentation
// ----------------------------------------------------------------------------

/// What segmentation is asked for: to make the embedding of the image, or to
/// segment it, for which the embedding is made where it is missing.
#[derive(Clone, Copy, Debug, PartialEq, Eq, Structural)]
pub enum SamTask {
    Embed,
    Segment,
}

/// An answer to an action.
#[derive(Debug)]
pub enum SamEvent {
    /// Whether there is a segmentation engine.
    Engine(bool),
    /// Whether the embedding of the image is cached, once the image was found.
    Cached(Result<bool, Error>),
    /// The image was loaded.
    Loaded(Result<(), Error>),
    /// The engine made the embedding.
    Encoded(Result<(), String>),
    /// The engine segmented the image.
    Decoded(Result<(), String>),
}

/// What is to be done next.
#[derive(Clone, Copy, Debug, PartialEq, Eq, Structural)]
pub enum SamAction {
    /// The image is found and its embedding looked up.
    LookUp,
    /// The image is loaded as RGB.
    Load,
    /// The embedding is made.
    Encode,
    /// The embedding is cached, then the client is told that it is ready.
    StoreAndReport,
    /// The embedding is cached, then the image is segmented.
    StoreAndDecode,
    /// The client is told that the embedding is ready.
    Report,
    /// The image is segmented.
    Decode,
    /// The masks are sent.
    SendMasks,
}

/// Whether a step of segmentation is taken as it should be.
pub open spec fn sam_steps(task: SamTask, event: SamEvent, r: Result<SamAction, Error>) -> bool {
    match event {
        SamEvent::Engine(there) => if there {
            r == Ok::<SamAction, Error>(SamAction::LookUp)
        } else {
            r matches Err(error) && crate::error::is_internal(
                error,
                "SAM is not enabled on this server"@,
            )
        },
        SamEvent::Cached(Err(error)) => r == Err::<SamAction, Error>(error),
        SamEvent::Cached(Ok(cached)) => r == Ok::<SamAction, Error>(
            if !cached {
                SamAction::Load
            } else if task == SamTask::Embed {
                SamAction::Report
            } else {
                SamAction::Decode
            },
        ),
        SamEvent::Loaded(Err(error)) => r == Err::<SamAction, Error>(error),
        SamEvent::Loaded(Ok(())) => r == Ok::<SamAction, Error>(SamAction::Encode),
        SamEvent::Encoded(Err(cause)) => r matches Err(error) && crate::error::is_internal(
            error,
            "SAM encoding failed: "@ + cause@,
        ),
        SamEvent::Encoded(Ok(())) => r == Ok::<SamAction, Error>(
            if task == SamTask::Embed {
                SamAction::StoreAndReport
            } else {
                SamAction::StoreAndDecode
            },
        ),
        SamEvent::Decoded(Err(cause)) => r matches Err(error) && crate::error::is_internal(
            error,
            "SAM decoding failed: "@ + cause@,
        ),
        SamEvent::Decoded(Ok(())) => r == Ok::<SamAction, Error>(SamAction::SendMasks),
    }
}

fn about(start: &str, cause: &str) -> (error: Error)
    ensures
        crate::error::is_internal(error, start@ + cause@),
{
    let mut message = start.to_owned();
    message.append(cause);
    Error::Internal(message)
}

/// Takes a step of segmentation.
pub fn sam_step(task: SamTask, event: SamEvent) -> (r: Result<SamAction, Error>)
    ensures
        sam_steps(task, event, r),
{
    match event {
        SamEvent::Engine(there) => if there {
            Ok(SamAction::LookUp)
        } else {
            Err(Error::Internal("SAM is not enabled on this server".to_owned()))
        },
        SamEvent::Cached(Err(error)) => Err(error),
        SamEvent::Cached(Ok(cached)) => if !cached {
            Ok(SamAction::Load)
        } else if task == SamTask::Embed {
            Ok(SamAction::Report)
        } else {
            Ok(SamAction::Decode)
        },
        SamEvent::Loaded(Err(error)) => Err(error),
        SamEvent::Loaded(Ok(())) => Ok(SamAction::Encode),
        SamEvent::Encoded(Err(cause)) => Err(about("SAM encoding failed: ", cause.as_str())),
        SamEvent::Encoded(Ok(())) => if task == SamTask::Embed {
            Ok(SamAction::StoreAndReport)
        } else {
            Ok(SamAction::StoreAndDecode)
        },
        SamEvent::Decoded(Err(cause)) => Err(about("SAM decoding failed: ", cause.as_str())),
        SamEvent::Decoded(Ok(())) => Ok(SamAction::SendMasks),
    }
}

// ----------------------------------------------------------------------------
// Laws
// ----------------------------------------------------------------------------

/// What a client asks for is what is done: a stream of the level it names, the
/// embedding, or a segmentation with its prompt. Nothing follows from anything else.
pub proof fn lemma_requests_are_followed<P>(message: PlainMessage<P>)
    ensures
        match plain_action(message) {
            PlainAction::Stream { level, progressive } => message == (PlainMessage::<
                P,
            >::StartStream { level, progressive }),
            PlainAction::Embed => message is SamEmbed,
            PlainAction::Segment { prompt } => message == (PlainMessage::SamSegment { prompt }),
            PlainAction::Nothing => message is Cancel || message is Pong,
        },
{
}

/// A level that is streamed alone is the one asked for, behind a reset. Where the image
/// has the level, the connection streams what a multiplexed one does.
pub proof fn lemma_plain_levels(level: u32, max_level: u32, progressive: bool)
    ensures
        !progressive ==> plain_levels(level, max_level, progressive).len() == 1
            && plain_levels(level, max_level, progressive)[0].level == level
            && plain_levels(level, max_level, progressive)[0].send_reset,
        level <= max_level ==> plain_levels(level, max_level, progressive)
            == crate::streaming::stream_levels_spec(level, max_level, progressive),
        progressive ==> plain_levels(level, max_level, progressive)
            == crate::streaming::stream_levels_spec(level, max_level, progressive),
{
}

/// The connection ends exactly where it is dead, closed or broken. A message is handled
/// as it was received; only a pong is noted instead; and what is no message is answered
/// with the reason.
pub proof fn lemma_plain_receiving<P>(alive: bool, event: PlainEvent<P>, step: PlainStep<P>)
    requires
        plain_received(alive, event, step),
    ensures
        step is Stop <==> !alive || event is Close || event is Failed,
        step matches PlainStep::Handle(message) ==> event == PlainEvent::Text(
            Ok::<PlainMessage<P>, String>(message),
        ) && !(message is Pong),
        step is RecordPong ==> (event matches PlainEvent::Text(Ok(message)) && message is Pong),
        alive && (event matches PlainEvent::Text(text) && text is Err) <==> step is Reply,
        alive && event is Other <==> step is Continue,
{
}

/// Pixel by pixel, segmentation works on the first three bands, or on the first one for
/// every colour where there are fewer.
pub proof fn lemma_segmentation_pixels(bands: Seq<Vec<u8>>, pixels: nat, i: int)
    requires
        0 <= i < pixels,
    ensures
        ({
            let rgb = segmentation_pixels(bands, pixels);
            &&& rgb.len() == 3 * pixels
            &&& rgb[3 * i] == bands[0]@[i]
            &&& rgb[3 * i + 1] == bands[if bands.len() >= 3 { 1 } else { 0 }]@[i]
            &&& rgb[3 * i + 2] == bands[if bands.len() >= 3 { 2 } else { 0 }]@[i]
        }),
{
}

/// Whether an event tells of a failure.
pub open spec fn sam_failed(event: SamEvent) -> bool {
    match event {
        SamEvent::Engine(there) => !there,
        SamEvent::Cached(r) => r is Err,
        SamEvent::Loaded(r) => r is Err,
        SamEvent::Encoded(r) => r is Err,
        SamEvent::Decoded(r) => r is Err,
    }
}

/// Segmentation fails exactly where a step fails. It ends with masks or, where only the
/// embedding was asked for, with the report that it is ready. An embedding is made only
/// of an image that was loaded, is stored once it was made, and is made only where it
/// was not cached.
pub proof fn lemma_segmentation_steps(task: SamTask, event: SamEvent, r: Result<SamAction, Error>)
    requires
        sam_steps(task, event, r),
    ensures
        r is Err <==> sam_failed(event),
        r matches Ok(action) ==> {
            &&& action == SamAction::LookUp <==> event is Engine
            &&& action == SamAction::Load <==> event == SamEvent::Cached(Ok::<bool, Error>(false))
            &&& action == SamAction::Encode <==> event is Loaded
            &&& action == SamAction::SendMasks <==> event is Decoded
            &&& action == SamAction::StoreAndReport || action == SamAction::StoreAndDecode
                <==> event is Encoded
            &&& action == SamAction::Report || action == SamAction::StoreAndReport ==> task
                == SamTask::Embed
            &&& action == SamAction::Decode || action == SamAction::StoreAndDecode ==> task
                == SamTask::Segment
            &&& action == SamAction::Report || action == SamAction::Decode <==> event
                == SamEvent::Cached(Ok::<bool, Error>(true))
        },
        match event {
            SamEvent::Cached(Err(error)) => r == Err::<SamAction, Error>(error),
            SamEvent::Loaded(Err(error)) => r == Err::<SamAction, Error>(error),
            _ => r matches Err(error) ==> error is Internal,
        },
{
}

} // verus!
