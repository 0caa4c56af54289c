//! Preparing models and running inferences: what is looked up, loaded and asked
//! in turn, and what a client is told.

use vstd::prelude::*;

use crate::error::Error;
use crate::mux::{ConnectionStreams, InferModelRequest, PrepareModelRequest};
use crate::protocol::{
    encode_infer_result, encode_model_ready, ErrorCode, ErrorReply, WireCodes,
};
use crate::sam::SamBands;
use crate::text::push_decimal;

verus! {

/// Image context for inference operations.
#[derive(Debug)]
pub struct ImageContext {
    pub image_id: String,
    /// RGB pixel data. May be empty where the model works on a prepared embedding.
    pub rgb_data: Vec<u8>,
    pub width: u32,
    pub height: u32,
}

impl ImageContext {
    /// Whether this is the context with these contents.
    pub open spec fn holds(
        self,
        image_id: Seq<char>,
        rgb_data: Seq<u8>,
        width: u32,
        height: u32,
    ) -> bool {
        &&& self.image_id@ == image_id
        &&& self.rgb_data@ == rgb_data
        &&& self.width == width
        &&& self.height == height
    }
}

/// Loaded pixels of an image.
#[derive(Debug)]
pub struct LoadedRgb {
    pub rgb_data: Vec<u8>,
    pub width: u32,
    pub height: u32,
}

/// Resolved band selection and embedding key for an image.
#[derive(Debug)]
pub struct ResolvedBands {
    pub requested: SamBands,
    pub resolved: SamBands,
    pub embedding_key: String,
}

impl ResolvedBands {
    /// Whether the requested bands of an image are resolved to these.
    pub open spec fn resolve(self, requested: SamBands, resolved: SamBands, image: Seq<char>) -> bool {
        &&& self.requested == requested
        &&& self.resolved == resolved
        &&& self.embedding_key@ == resolved.key(image)
    }

    fn new(requested: SamBands, resolved: SamBands, image_id: &str) -> (bands: Self)
        ensures
            bands.resolve(requested, resolved, image_id@),
    {
        ResolvedBands { requested, resolved, embedding_key: resolved.embedding_key(image_id) }
    }
}

/// What a client asked for.
#[derive(Clone, Copy, Debug, PartialEq, Eq, Structural)]
pub enum FlowTask {
    Prepare,
    Infer,
}

/// What is waited for.
#[derive(Debug)]
pub enum FlowPhase {
    /// The model.
    Model,
    /// The number of bands of the image; `again` once the embedding was missed.
    Counting { image_id: String, requires_embedding: bool, again: bool },
    /// Whether the embedding is there; `last` where no other key is tried.
    Checking { image_id: String, bands: ResolvedBands, last: bool },
    /// The pixels of the image.
    Loading { image_id: String, bands: ResolvedBands, requires_embedding: bool },
    /// The model's result.
    Running { embedding_key: String, width: u32, height: u32 },
    /// Nothing more.
    Done,
}

/// A request to prepare a model or to run an inference, on its way.
#[derive(Debug)]
pub struct InferenceFlow {
    pub request_id: u32,
    pub model_id: String,
    /// The image, where the request names one.
    pub image_id: Option<String>,
    pub requested: SamBands,
    pub task: FlowTask,
    pub phase: FlowPhase,
}

/// What the registry says of a model.
#[derive(Debug)]
pub enum ModelLookup {
    /// There is no registry.
    NoModels,
    /// The registry does not have the model.
    NotFound,
    /// The model is there, and says what it thinks of the inputs.
    Found { requires_embedding: bool, inputs: Result<(), String> },
}

/// An answer to an action.
#[derive(Debug)]
pub enum FlowEvent {
    Model(ModelLookup),
    Bands(Result<usize, Error>),
    Prepared(bool),
    Loaded(Result<LoadedRgb, Error>),
    /// The model is done: with its result as text, where there is one.
    Ran(Result<String, String>),
}

/// What is to be done next.
#[derive(Debug)]
pub enum FlowAction {
    /// An error is sent, and the request is over.
    Fail(ErrorReply),
    /// The bands of the image are counted.
    CountBands { image_id: String },
    /// The model is asked whether it has the embedding.
    AskPrepared { embedding_key: String },
    /// The first bands of the image are loaded.
    LoadRgb { image_id: String },
    /// Selected bands of the image are loaded.
    LoadRgbWithBands { image_id: String, bands: SamBands },
    /// The model is run.
    Run(ImageContext),
    /// A frame is sent, and the request is over.
    Send(Vec<u8>),
}

// ----------------------------------------------------------------------------
// Starting
// ----------------------------------------------------------------------------

impl InferenceFlow {
    /// A request to prepare a model.
    pub fn prepare(request: PrepareModelRequest) -> (flow: Self)
        ensures
            flow.request_id == request.request_id,
            flow.model_id == request.model_id,
            flow.image_id == request.image_id,
            flow.requested == crate::sam::configured_bands(request.config),
            flow.task == FlowTask::Prepare,
            flow.phase is Model,
    {
        let requested = match &request.config {
            Some(config) => SamBands::from_config(Some(config)),
            None => SamBands::from_config(None),
        };
        InferenceFlow {
            request_id: request.request_id,
            model_id: request.model_id,
            image_id: request.image_id,
            requested,
            task: FlowTask::Prepare,
            phase: FlowPhase::Model,
        }
    }

    /// A request to run an inference. Its options select the bands.
    pub fn infer(request: InferModelRequest) -> (flow: Self)
        ensures
            flow.request_id == request.request_id,
            flow.model_id == request.model_id,
            flow.image_id == request.image_id,
            flow.requested == crate::sam::configured_bands(Some(request.options)),
            flow.task == FlowTask::Infer,
            flow.phase is Model,
    {
        let requested = SamBands::from_config(Some(&request.options));
        InferenceFlow {
            request_id: request.request_id,
            model_id: request.model_id,
            image_id: request.image_id,
            requested,
            task: FlowTask::Infer,
            phase: FlowPhase::Model,
        }
    }

    /// Whether an event is what the flow waits for.
    pub open spec fn awaits(self, event: FlowEvent) -> bool {
        match self.phase {
            FlowPhase::Model => event is Model,
            FlowPhase::Counting { .. } => event is Bands,
            FlowPhase::Checking { .. } => event is Prepared,
            FlowPhase::Loading { .. } => event is Loaded,
            FlowPhase::Running { .. } => event is Ran,
            FlowPhase::Done => false,
        }
    }

    /// Whether an event is what the flow waits for.
    pub fn is_awaiting(&self, event: &FlowEvent) -> (r: bool)
        ensures
            r == self.awaits(*event),
    {
        match (&self.phase, event) {
            (FlowPhase::Model, FlowEvent::Model(_)) => true,
            (FlowPhase::Counting { .. }, FlowEvent::Bands(_)) => true,
            (FlowPhase::Checking { .. }, FlowEvent::Prepared(_)) => true,
            (FlowPhase::Loading { .. }, FlowEvent::Loaded(_)) => true,
            (FlowPhase::Running { .. }, FlowEvent::Ran(_)) => true,
            _ => false,
        }
    }

    /// The image that is meant: the one that the request names, else the active
    /// one.
    pub open spec fn image<T>(self, streams: ConnectionStreams<T>) -> Option<Seq<char>> {
        match self.image_id {
            Some(id) => Some(id@),
            None => match streams.active_image_id {
                Some(id) => Some(id@),
                None => None,
            },
        }
    }
}

// ----------------------------------------------------------------------------
// What a step does
// ----------------------------------------------------------------------------

/// Whether a request ends with this error.
pub open spec fn ends_with_error(
    flow: InferenceFlow,
    phase: FlowPhase,
    action: FlowAction,
    code: ErrorCode,
    message: Seq<char>,
) -> bool {
    &&& phase is Done
    &&& action matches FlowAction::Fail(reply) && reply.says(flow.request_id, code, message, None)
}

/// Whether the bands of the image are counted next.
pub open spec fn counts_bands(
    phase: FlowPhase,
    action: FlowAction,
    image: Seq<char>,
    requires_embedding: bool,
    again: bool,
) -> bool {
    &&& phase matches FlowPhase::Counting { image_id, requires_embedding: r, again: a } && image_id@
        == image && r == requires_embedding && a == again
    &&& action matches FlowAction::CountBands { image_id } && image_id@ == image
}

/// Whether the model is asked for the embedding next.
pub open spec fn asks_for_embedding(
    phase: FlowPhase,
    action: FlowAction,
    image: Seq<char>,
    requested: SamBands,
    resolved: SamBands,
    last: bool,
) -> bool {
    &&& phase matches FlowPhase::Checking { image_id, bands, last: l } && image_id@ == image
        && bands.resolve(requested, resolved, image) && l == last
    &&& action matches FlowAction::AskPrepared { embedding_key } && embedding_key@ == resolved.key(
        image,
    )
}

/// The name under which the model is handed the image: an inference without
/// embedding names the image itself.
pub open spec fn context_name(
    task: FlowTask,
    requires_embedding: bool,
    image: Seq<char>,
    resolved: SamBands,
) -> Seq<char> {
    if task == FlowTask::Infer && !requires_embedding {
        image
    } else {
        resolved.key(image)
    }
}

/// Whether the pixels do not matter: an inference on an embedding.
pub open spec fn dimensions_suffice(task: FlowTask, requires_embedding: bool) -> bool {
    task == FlowTask::Infer && requires_embedding
}

/// Whether the model is run next, on pixels where they matter.
pub open spec fn runs_model(
    flow: InferenceFlow,
    phase: FlowPhase,
    action: FlowAction,
    image: Seq<char>,
    resolved: SamBands,
    requires_embedding: bool,
    pixels: Seq<u8>,
    width: u32,
    height: u32,
) -> bool {
    &&& phase matches FlowPhase::Running { embedding_key, width: w, height: h } && embedding_key@
        == resolved.key(image) && w == width && h == height
    &&& action matches FlowAction::Run(context) && context.holds(
        context_name(flow.task, requires_embedding, image, resolved),
        if dimensions_suffice(flow.task, requires_embedding) {
            Seq::<u8>::empty()
        } else {
            pixels
        },
        width,
        height,
    )
}

/// Whether prepared dimensions were looked up: those of the key become the most
/// recently used.
pub open spec fn dimensions_looked_up<T>(
    before: ConnectionStreams<T>,
    key: Seq<char>,
    after: ConnectionStreams<T>,
) -> bool {
    let tick = crate::mux::next_tick(before.prepared_dimensions_tick);
    &&& after == (ConnectionStreams {
        prepared: after.prepared,
        prepared_dimensions_tick: tick,
        ..before
    })
    &&& match crate::mux::lookup(before.prepared@, key) {
        Some(entry) => forall|asked: Seq<char>| #[trigger]
            crate::mux::lookup(after.prepared@, asked) == crate::mux::after_caching(
                before.prepared@,
                key,
                entry.0,
                entry.1,
                tick,
                asked,
            ),
        None => after.prepared == before.prepared,
    }
}

/// Whether dimensions were recorded for a key; the least recently used ones go
/// where there are too many.
pub open spec fn dimensions_recorded<T>(
    before: ConnectionStreams<T>,
    key: Seq<char>,
    width: u32,
    height: u32,
    after: ConnectionStreams<T>,
) -> bool {
    let tick = crate::mux::next_tick(before.prepared_dimensions_tick);
    &&& after == (ConnectionStreams {
        prepared: after.prepared,
        prepared_dimensions_tick: tick,
        ..before
    })
    &&& if crate::mux::lookup(before.prepared@, key) is Some || before.prepared@.len()
        < crate::mux::MAX_PREPARED_DIMENSIONS {
        forall|asked: Seq<char>| #[trigger]
            crate::mux::lookup(after.prepared@, asked) == crate::mux::after_caching(
                before.prepared@,
                key,
                width,
                height,
                tick,
                asked,
            )
    } else {
        exists|gone: Seq<char>| #[trigger]
            crate::mux::evicted(before.prepared@, key, width, height, tick, after.prepared@, gone)
    }
}

/// Whether an image is loaded as it should be: from the prepared dimensions where
/// they suffice, from the cached image for the first bands, else anew.
pub open spec fn loads_image<T>(
    flow: InferenceFlow,
    before: ConnectionStreams<T>,
    image: Seq<char>,
    requested: SamBands,
    resolved: SamBands,
    requires_embedding: bool,
    after: ConnectionStreams<T>,
    phase: FlowPhase,
    action: FlowAction,
) -> bool {
    let quick = dimensions_suffice(flow.task, requires_embedding);
    let known = crate::mux::lookup(before.prepared@, resolved.key(image));
    &&& if quick {
        dimensions_looked_up(before, resolved.key(image), after)
    } else {
        after == before
    }
    &&& if quick && known is Some {
        runs_model(
            flow,
            phase,
            action,
            image,
            resolved,
            requires_embedding,
            Seq::<u8>::empty(),
            (known->0).0,
            (known->0).1,
        )
    } else if resolved.is_default() && before.cached(image) is Some {
        let data = before.cached(image)->0;
        runs_model(
            flow,
            phase,
            action,
            image,
            resolved,
            requires_embedding,
            data.rgb_data@,
            data.width,
            data.height,
        )
    } else {
        &&& phase matches FlowPhase::Loading { image_id, bands, requires_embedding: r } && image_id@
            == image && bands.resolve(requested, resolved, image) && r == requires_embedding
        &&& if resolved.is_default() {
            action matches FlowAction::LoadRgb { image_id } && image_id@ == image
        } else {
            action matches FlowAction::LoadRgbWithBands { image_id, bands } && image_id@ == image
                && bands == resolved
        }
    }
}

/// Whether a request goes on as it should once its bands are known.
pub open spec fn goes_on_with_bands<T>(
    flow: InferenceFlow,
    before: ConnectionStreams<T>,
    image: Seq<char>,
    resolved: SamBands,
    requires_embedding: bool,
    after: ConnectionStreams<T>,
    phase: FlowPhase,
    action: FlowAction,
) -> bool {
    if dimensions_suffice(flow.task, requires_embedding) {
        after == before && asks_for_embedding(
            phase,
            action,
            image,
            flow.requested,
            resolved,
            flow.requested.is_default(),
        )
    } else {
        loads_image(
            flow,
            before,
            image,
            flow.requested,
            resolved,
            requires_embedding,
            after,
            phase,
            action,
        )
    }
}

/// The text of a selection of bands.
pub open spec fn bands_text(bands: SamBands) -> Seq<char> {
    "["@ + crate::text::decimal(bands.red as nat) + ", "@ + crate::text::decimal(bands.green as nat)
        + ", "@ + crate::text::decimal(bands.blue as nat) + "]"@
}

/// What a client is told whose embedding is missing.
pub open spec fn embedding_message(
    image: Seq<char>,
    requested: SamBands,
    resolved: SamBands,
) -> Seq<char> {
    "Model embedding not ready for image '"@ + image + "' and bands "@ + bands_text(requested)
        + " (resolved "@ + bands_text(resolved) + "). Call prepare_model first."@
}

/// Whether a model that was looked up leads on as it should.
pub open spec fn model_looked_up<T>(
    flow: InferenceFlow,
    before: ConnectionStreams<T>,
    model: ModelLookup,
    after: ConnectionStreams<T>,
    phase: FlowPhase,
    action: FlowAction,
) -> bool {
    match model {
        ModelLookup::NoModels => after == before && ends_with_error(
            flow,
            phase,
            action,
            ErrorCode::ModelNotFound,
            "No models available on this server"@,
        ),
        ModelLookup::NotFound => after == before && ends_with_error(
            flow,
            phase,
            action,
            ErrorCode::ModelNotFound,
            "Model '"@ + flow.model_id@ + "' not found"@,
        ),
        ModelLookup::Found { requires_embedding, inputs } => if flow.task == FlowTask::Infer
            && inputs is Err {
            after == before && ends_with_error(
                flow,
                phase,
                action,
                ErrorCode::InvalidInput,
                "Invalid inputs: "@ + (inputs->Err_0)@,
            )
        } else {
            match flow.image(before) {
                None => after == before && ends_with_error(
                    flow,
                    phase,
                    action,
                    ErrorCode::NoActiveImage,
                    "No active image set. Provide image_id or call set_image first."@,
                ),
                Some(image) => if flow.requested.is_default() {
                    goes_on_with_bands(
                        flow,
                        before,
                        image,
                        flow.requested,
                        requires_embedding,
                        after,
                        phase,
                        action,
                    )
                } else {
                    after == before && counts_bands(
                        phase,
                        action,
                        image,
                        requires_embedding,
                        false,
                    )
                },
            }
        },
    }
}

/// Whether loaded pixels lead on as they should: the first bands are kept for
/// later requests.
pub open spec fn pixels_loaded<T>(
    flow: InferenceFlow,
    before: ConnectionStreams<T>,
    image: Seq<char>,
    resolved: SamBands,
    requires_embedding: bool,
    result: Result<LoadedRgb, Error>,
    after: ConnectionStreams<T>,
    phase: FlowPhase,
    action: FlowAction,
) -> bool {
    match result {
        Err(error) => after == before && ends_with_error(
            flow,
            phase,
            action,
            ErrorCode::ImageNotFound,
            if resolved.is_default() {
                "Failed to load image: "@
            } else {
                "Failed to load image with bands: "@
            } + error.text(),
        ),
        Ok(rgb) => {
            &&& if resolved.is_default() {
                &&& after == (ConnectionStreams { cached_image: after.cached_image, ..before })
                &&& after.cached_image matches Some(data) && data.image_id@ == image
                    && data.rgb_data@ == rgb.rgb_data@ && data.width == rgb.width && data.height
                    == rgb.height
            } else {
                after == before
            }
            &&& runs_model(
                flow,
                phase,
                action,
                image,
                resolved,
                requires_embedding,
                rgb.rgb_data@,
                rgb.width,
                rgb.height,
            )
        },
    }
}

/// Whether the model's result is told as it should be.
pub open spec fn model_ran<T>(
    flow: InferenceFlow,
    before: ConnectionStreams<T>,
    codes: WireCodes,
    embedding_key: Seq<char>,
    width: u32,
    height: u32,
    result: Result<String, String>,
    after: ConnectionStreams<T>,
    phase: FlowPhase,
    action: FlowAction,
) -> bool {
    match (flow.task, result) {
        (FlowTask::Prepare, Ok(_)) => {
            &&& phase is Done
            &&& dimensions_recorded(before, embedding_key, width, height, after)
            &&& action matches FlowAction::Send(frame) && frame@ == crate::protocol::mux_frame(
                codes,
                crate::protocol::ServerMessageType::ModelReady,
                flow.request_id,
                crate::protocol::prefixed_text(flow.model_id@),
            )
        },
        (FlowTask::Prepare, Err(cause)) => after == before && ends_with_error(
            flow,
            phase,
            action,
            ErrorCode::ModelEncodeFailed,
            "Failed to prepare model: "@ + cause@,
        ),
        (FlowTask::Infer, Ok(json)) => {
            &&& phase is Done
            &&& after == before
            &&& action matches FlowAction::Send(frame) && frame@ == crate::protocol::mux_frame(
                codes,
                crate::protocol::ServerMessageType::InferResult,
                flow.request_id,
                vstd::utf8::encode_utf8(json@),
            )
        },
        (FlowTask::Infer, Err(cause)) => after == before && ends_with_error(
            flow,
            phase,
            action,
            ErrorCode::ModelDecodeFailed,
            "Inference failed: "@ + cause@,
        ),
    }
}

/// Whether a step is taken as it should be.
pub open spec fn steps<T>(
    flow: InferenceFlow,
    before: ConnectionStreams<T>,
    codes: WireCodes,
    event: FlowEvent,
    after: ConnectionStreams<T>,
    phase: FlowPhase,
    action: FlowAction,
) -> bool {
    match (flow.phase, event) {
        (FlowPhase::Model, FlowEvent::Model(model)) => model_looked_up(
            flow,
            before,
            model,
            after,
            phase,
            action,
        ),
        (
            FlowPhase::Counting { image_id, requires_embedding, again },
            FlowEvent::Bands(Err(error)),
        ) => after == before && ends_with_error(
            flow,
            phase,
            action,
            ErrorCode::ImageNotFound,
            "Failed to resolve image bands: "@ + error.text(),
        ),
        (
            FlowPhase::Counting { image_id, requires_embedding, again },
            FlowEvent::Bands(Ok(count)),
        ) => {
            let resolved = flow.requested.clamped(count as nat);
            if again {
                after == before && asks_for_embedding(
                    phase,
                    action,
                    image_id@,
                    flow.requested,
                    resolved,
                    true,
                )
            } else {
                goes_on_with_bands(
                    flow,
                    before,
                    image_id@,
                    resolved,
                    requires_embedding,
                    after,
                    phase,
                    action,
                )
            }
        },
        (FlowPhase::Checking { image_id, bands, last }, FlowEvent::Prepared(there)) => if last {
            if there {
                loads_image(
                    flow,
                    before,
                    image_id@,
                    bands.requested,
                    bands.resolved,
                    true,
                    after,
                    phase,
                    action,
                )
            } else {
                after == before && ends_with_error(
                    flow,
                    phase,
                    action,
                    ErrorCode::EmbeddingRequired,
                    embedding_message(image_id@, bands.requested, bands.resolved),
                )
            }
        } else if there {
            after == before && asks_for_embedding(
                phase,
                action,
                image_id@,
                bands.requested,
                bands.resolved,
                true,
            )
        } else {
            after == before && counts_bands(phase, action, image_id@, true, true)
        },
        (
            FlowPhase::Loading { image_id, bands, requires_embedding },
            FlowEvent::Loaded(result),
        ) => pixels_loaded(
            flow,
            before,
            image_id@,
            bands.resolved,
            requires_embedding,
            result,
            after,
            phase,
            action,
        ),
        (FlowPhase::Running { embedding_key, width, height }, FlowEvent::Ran(result)) => model_ran(
            flow,
            before,
            codes,
            embedding_key@,
            width,
            height,
            result,
            after,
            phase,
            action,
        ),
        _ => false,
    }
}

// ----------------------------------------------------------------------------
// Taking a step
// ----------------------------------------------------------------------------

fn end_with_error(request_id: u32, code: ErrorCode, start: &str, detail: &str) -> (r: (
    FlowPhase,
    FlowAction,
))
    ensures
        r.0 is Done,
        r.1 matches FlowAction::Fail(reply) && reply.says(
            request_id,
            code,
            start@ + detail@,
            None,
        ),
{
    let mut message = start.to_owned();
    message.append(detail);
    (FlowPhase::Done, FlowAction::Fail(ErrorReply::error(request_id, code, message)))
}

fn push_bands(out: &mut String, bands: &SamBands)
    ensures
        final(out)@ == old(out)@ + bands_text(*bands),
{
    let ghost start = out@;
    out.append("[");
    push_decimal(out, bands.red as u64);
    out.append(", ");
    push_decimal(out, bands.green as u64);
    out.append(", ");
    push_decimal(out, bands.blue as u64);
    out.append("]");
    assert(out@ =~= start + bands_text(*bands));
}

fn missing_embedding(request_id: u32, image_id: &str, bands: &ResolvedBands) -> (r: (
    FlowPhase,
    FlowAction,
))
    ensures
        r.0 is Done,
        r.1 matches FlowAction::Fail(reply) && reply.says(
            request_id,
            ErrorCode::EmbeddingRequired,
            embedding_message(image_id@, bands.requested, bands.resolved),
            None,
        ),
{
    let mut message = "Model embedding not ready for image '".to_owned();
    message.append(image_id);
    message.append("' and bands ");
    push_bands(&mut message, &bands.requested);
    message.append(" (resolved ");
    push_bands(&mut message, &bands.resolved);
    message.append("). Call prepare_model first.");
    assert(message@ =~= embedding_message(image_id@, bands.requested, bands.resolved));
    (
        FlowPhase::Done,
        FlowAction::Fail(ErrorReply::error(request_id, ErrorCode::EmbeddingRequired, message)),
    )
}

fn ask_for_embedding(image_id: String, bands: ResolvedBands, last: bool) -> (r: (
    FlowPhase,
    FlowAction,
))
    requires
        bands.resolve(bands.requested, bands.resolved, image_id@),
    ensures
        asks_for_embedding(r.0, r.1, image_id@, bands.requested, bands.resolved, last),
{
    let embedding_key = bands.embedding_key.clone();
    (
        FlowPhase::Checking { image_id, bands, last },
        FlowAction::AskPrepared { embedding_key },
    )
}

fn count_bands(image_id: String, requires_embedding: bool, again: bool) -> (r: (
    FlowPhase,
    FlowAction,
))
    ensures
        counts_bands(r.0, r.1, image_id@, requires_embedding, again),
{
    let asked = image_id.clone();
    (
        FlowPhase::Counting { image_id, requires_embedding, again },
        FlowAction::CountBands { image_id: asked },
    )
}

impl InferenceFlow {
    fn run(
        &self,
        image_id: String,
        bands: ResolvedBands,
        requires_embedding: bool,
        pixels: Vec<u8>,
        width: u32,
        height: u32,
    ) -> (r: (FlowPhase, FlowAction))
        requires
            bands.resolve(bands.requested, bands.resolved, image_id@),
        ensures
            runs_model(
                *self,
                r.0,
                r.1,
                image_id@,
                bands.resolved,
                requires_embedding,
                pixels@,
                width,
                height,
            ),
    {
        let quick = self.task == FlowTask::Infer && requires_embedding;
        let name = if self.task == FlowTask::Infer && !requires_embedding {
            image_id
        } else {
            bands.embedding_key.clone()
        };
        let rgb_data = if quick {
            Vec::new()
        } else {
            pixels
        };
        (
            FlowPhase::Running { embedding_key: bands.embedding_key, width, height },
            FlowAction::Run(ImageContext { image_id: name, rgb_data, width, height }),
        )
    }

    fn load<T>(
        &self,
        streams: &mut ConnectionStreams<T>,
        image_id: String,
        bands: ResolvedBands,
        requires_embedding: bool,
    ) -> (r: (FlowPhase, FlowAction))
        requires
            old(streams).wf(),
            bands.resolve(bands.requested, bands.resolved, image_id@),
        ensures
            final(streams).wf(),
            loads_image(
                *self,
                *old(streams),
                image_id@,
                bands.requested,
                bands.resolved,
                requires_embedding,
                *final(streams),
                r.0,
                r.1,
            ),
    {
        let quick = self.task == FlowTask::Infer && requires_embedding;
        if quick {
            if let Some((width, height)) = streams.prepared_dimensions(
                bands.embedding_key.as_str(),
            ) {
                return self.run(image_id, bands, requires_embedding, Vec::new(), width, height);
            }
        }
        if bands.resolved.is_default_rgb() {
            if let Some(data) = streams.get_cached_image(image_id.as_str()) {
                let pixels = data.rgb_data.clone();
                assert(pixels@ =~= data.rgb_data@);
                let width: u32 = data.width;
                let height: u32 = data.height;
                return self.run(image_id, bands, requires_embedding, pixels, width, height);
            }
            let asked = image_id.clone();
            return (
                FlowPhase::Loading { image_id, bands, requires_embedding },
                FlowAction::LoadRgb { image_id: asked },
            );
        }
        let asked = image_id.clone();
        let selected = bands.resolved;
        (
            FlowPhase::Loading { image_id, bands, requires_embedding },
            FlowAction::LoadRgbWithBands { image_id: asked, bands: selected },
        )
    }

    fn go_on_with_bands<T>(
        &self,
        streams: &mut ConnectionStreams<T>,
        image_id: String,
        resolved: SamBands,
        requires_embedding: bool,
    ) -> (r: (FlowPhase, FlowAction))
        requires
            old(streams).wf(),
        ensures
            final(streams).wf(),
            goes_on_with_bands(
                *self,
                *old(streams),
                image_id@,
                resolved,
                requires_embedding,
                *final(streams),
                r.0,
                r.1,
            ),
    {
        let bands = ResolvedBands::new(self.requested, resolved, image_id.as_str());
        if self.task == FlowTask::Infer && requires_embedding {
            let last = self.requested.is_default_rgb();
            ask_for_embedding(image_id, bands, last)
        } else {
            self.load(streams, image_id, bands, requires_embedding)
        }
    }

    fn on_model<T>(&self, streams: &mut ConnectionStreams<T>, model: ModelLookup) -> (r: (
        FlowPhase,
        FlowAction,
    ))
        requires
            old(streams).wf(),
        ensures
            final(streams).wf(),
            model_looked_up(*self, *old(streams), model, *final(streams), r.0, r.1),
    {
        match model {
            ModelLookup::NoModels => {
                let r = end_with_error(
                    self.request_id,
                    ErrorCode::ModelNotFound,
                    "No models available on this server",
                    "",
                );
                proof {
                    reveal_strlit("");
                    assert("No models available on this server"@ + ""@
                        =~= "No models available on this server"@);
                }
                r
            },
            ModelLookup::NotFound => {
                let mut message = "Model '".to_owned();
                message.append(self.model_id.as_str());
                message.append("' not found");
                (
                    FlowPhase::Done,
                    FlowAction::Fail(
                        ErrorReply::error(self.request_id, ErrorCode::ModelNotFound, message),
                    ),
                )
            },
            ModelLookup::Found { requires_embedding, inputs } => {
                if self.task == FlowTask::Infer {
                    if let Err(cause) = inputs {
                        return end_with_error(
                            self.request_id,
                            ErrorCode::InvalidInput,
                            "Invalid inputs: ",
                            cause.as_str(),
                        );
                    }
                }
                let image = match &self.image_id {
                    Some(id) => Some(id.clone()),
                    None => match streams.active_image() {
                        Some(id) => Some(id.to_owned()),
                        None => None,
                    },
                };
                match image {
                    None => {
                        let message =
                            "No active image set. Provide image_id or call set_image first.".to_owned();
                        (
                            FlowPhase::Done,
                            FlowAction::Fail(
                                ErrorReply::error(
                                    self.request_id,
                                    ErrorCode::NoActiveImage,
                                    message,
                                ),
                            ),
                        )
                    },
                    Some(image_id) => {
                        assert(self.image(*streams) == Some(image_id@));
                        if self.requested.is_default_rgb() {
                            self.go_on_with_bands(
                                streams,
                                image_id,
                                self.requested,
                                requires_embedding,
                            )
                        } else {
                            count_bands(image_id, requires_embedding, false)
                        }
                    },
                }
            },
        }
    }

    fn on_pixels<T>(
        &self,
        streams: &mut ConnectionStreams<T>,
        image_id: String,
        bands: ResolvedBands,
        requires_embedding: bool,
        result: Result<LoadedRgb, Error>,
    ) -> (r: (FlowPhase, FlowAction))
        requires
            old(streams).wf(),
            bands.resolve(bands.requested, bands.resolved, image_id@),
        ensures
            final(streams).wf(),
            pixels_loaded(
                *self,
                *old(streams),
                image_id@,
                bands.resolved,
                requires_embedding,
                result,
                *final(streams),
                r.0,
                r.1,
            ),
    {
        let default = bands.resolved.is_default_rgb();
        match result {
            Err(error) => if default {
                end_with_error(
                    self.request_id,
                    ErrorCode::ImageNotFound,
                    "Failed to load image: ",
                    error.message().as_str(),
                )
            } else {
                end_with_error(
                    self.request_id,
                    ErrorCode::ImageNotFound,
                    "Failed to load image with bands: ",
                    error.message().as_str(),
                )
            },
            Ok(rgb) => {
                if default {
                    let kept = rgb.rgb_data.clone();
                    assert(kept@ =~= rgb.rgb_data@);
                    streams.cache_image(image_id.clone(), kept, rgb.width, rgb.height);
                }
                self.run(
                    image_id,
                    bands,
                    requires_embedding,
                    rgb.rgb_data,
                    rgb.width,
                    rgb.height,
                )
            },
        }
    }

    fn on_result<T>(
        &self,
        streams: &mut ConnectionStreams<T>,
        codes: &WireCodes,
        embedding_key: String,
        width: u32,
        height: u32,
        result: Result<String, String>,
    ) -> (r: (FlowPhase, FlowAction))
        requires
            old(streams).wf(),
        ensures
            final(streams).wf(),
            model_ran(
                *self,
                *old(streams),
                *codes,
                embedding_key@,
                width,
                height,
                result,
                *final(streams),
                r.0,
                r.1,
            ),
    {
        match (self.task, result) {
            (FlowTask::Prepare, Ok(_)) => {
                streams.cache_prepared_dimensions(embedding_key, width, height);
                let frame = encode_model_ready(codes, self.request_id, self.model_id.as_str());
                (FlowPhase::Done, FlowAction::Send(frame))
            },
            (FlowTask::Prepare, Err(cause)) => end_with_error(
                self.request_id,
                ErrorCode::ModelEncodeFailed,
                "Failed to prepare model: ",
                cause.as_str(),
            ),
            (FlowTask::Infer, Ok(json)) => {
                let frame = encode_infer_result(codes, self.request_id, json.as_str());
                (FlowPhase::Done, FlowAction::Send(frame))
            },
            (FlowTask::Infer, Err(cause)) => end_with_error(
                self.request_id,
                ErrorCode::ModelDecodeFailed,
                "Inference failed: ",
                cause.as_str(),
            ),
        }
    }

    /// Whether the key of an embedding is that of the image and its bands.
    pub open spec fn wf(self) -> bool {
        match self.phase {
            FlowPhase::Checking { image_id, bands, .. } => bands.resolve(
                bands.requested,
                bands.resolved,
                image_id@,
            ),
            FlowPhase::Loading { image_id, bands, .. } => bands.resolve(
                bands.requested,
                bands.resolved,
                image_id@,
            ),
            _ => true,
        }
    }
}

/// Takes a step: what is done next, given the answer to what was done last.
pub fn inference_step<T>(
    flow: InferenceFlow,
    streams: &mut ConnectionStreams<T>,
    codes: &WireCodes,
    event: FlowEvent,
) -> (r: (InferenceFlow, FlowAction))
    requires
        flow.wf(),
        flow.awaits(event),
        old(streams).wf(),
    ensures
        r.0.wf(),
        final(streams).wf(),
        r.0 == (InferenceFlow { phase: r.0.phase, ..flow }),
        steps(flow, *old(streams), *codes, event, *final(streams), r.0.phase, r.1),
{
    let mut flow = flow;
    let ghost start = flow;
    let mut phase = FlowPhase::Done;
    std::mem::swap(&mut phase, &mut flow.phase);
    let ghost given = phase;
    let (next, action) = match (phase, event) {
        (FlowPhase::Model, FlowEvent::Model(model)) => flow.on_model(streams, model),
        (
            FlowPhase::Counting { image_id, requires_embedding, again },
            FlowEvent::Bands(result),
        ) => match result {
            Err(error) => end_with_error(
                flow.request_id,
                ErrorCode::ImageNotFound,
                "Failed to resolve image bands: ",
                error.message().as_str(),
            ),
            Ok(count) => {
                let resolved = flow.requested.clamp_to_num_bands(count);
                if again {
                    let bands = ResolvedBands::new(flow.requested, resolved, image_id.as_str());
                    ask_for_embedding(image_id, bands, true)
                } else {
                    flow.go_on_with_bands(streams, image_id, resolved, requires_embedding)
                }
            },
        },
        (FlowPhase::Checking { image_id, bands, last }, FlowEvent::Prepared(there)) => if last {
            if there {
                flow.load(streams, image_id, bands, true)
            } else {
                missing_embedding(flow.request_id, image_id.as_str(), &bands)
            }
        } else if there {
            ask_for_embedding(image_id, bands, true)
        } else {
            count_bands(image_id, true, true)
        },
        (
            FlowPhase::Loading { image_id, bands, requires_embedding },
            FlowEvent::Loaded(result),
        ) => flow.on_pixels(streams, image_id, bands, requires_embedding, result),
        (FlowPhase::Running { embedding_key, width, height }, FlowEvent::Ran(result)) =>
            flow.on_result(streams, codes, embedding_key, width, height, result),
        _ => {
            assert(false);
            (FlowPhase::Done, FlowAction::Send(Vec::new()))
        },
    };
    assert(steps(start, *old(streams), *codes, event, *streams, next, action));
    flow.phase = next;
    (flow, action)
}

// ----------------------------------------------------------------------------
// Laws
// ----------------------------------------------------------------------------

/// A model is prepared on the pixels of the image: those that were loaded, or
/// those that are cached of it.
pub proof fn lemma_prepared_on_pixels<T>(
    flow: InferenceFlow,
    before: ConnectionStreams<T>,
    codes: WireCodes,
    event: FlowEvent,
    after: ConnectionStreams<T>,
    phase: FlowPhase,
    action: FlowAction,
)
    requires
        flow.task == FlowTask::Prepare,
        steps(flow, before, codes, event, after, phase, action),
        action is Run,
    ensures
        match event {
            FlowEvent::Loaded(Ok(rgb)) => action->Run_0.rgb_data@ == rgb.rgb_data@,
            _ => before.cached_image matches Some(data) && action->Run_0.rgb_data@
                == data.rgb_data@,
        },
{
}

/// An inference that needs an embedding is never run, and loads nothing, before
/// the model has said that it has the embedding of the image and bands.
pub proof fn lemma_embedding_comes_first<T>(
    flow: InferenceFlow,
    before: ConnectionStreams<T>,
    codes: WireCodes,
    event: FlowEvent,
    after: ConnectionStreams<T>,
    phase: FlowPhase,
    action: FlowAction,
)
    requires
        flow.task == FlowTask::Infer,
        steps(flow, before, codes, event, after, phase, action),
        match (flow.phase, event) {
            (FlowPhase::Model, FlowEvent::Model(ModelLookup::Found { requires_embedding, .. })) =>
                requires_embedding,
            (FlowPhase::Counting { requires_embedding, .. }, _) => requires_embedding,
            (FlowPhase::Checking { last, .. }, FlowEvent::Prepared(there)) => !(last && there),
            _ => false,
        },
    ensures
        !(action is Run),
        !(action is LoadRgb),
        !(action is LoadRgbWithBands),
        after == before,
{
}

/// After a model was prepared, an inference on the same image and bands finds the
/// dimensions without loading the image again, as long as the clock of uses has
/// not run over.
pub proof fn lemma_prepared_dimensions_are_found<T>(
    before: ConnectionStreams<T>,
    key: Seq<char>,
    width: u32,
    height: u32,
    after: ConnectionStreams<T>,
)
    requires
        before.wf(),
        before.ticks_fresh(),
        before.prepared_dimensions_tick < u64::MAX,
        dimensions_recorded(before, key, width, height, after),
    ensures
        crate::mux::lookup(after.prepared@, key) == Some(
            (width, height, crate::mux::next_tick(before.prepared_dimensions_tick)),
        ),
{
    let tick = crate::mux::next_tick(before.prepared_dimensions_tick);
    if crate::mux::lookup(before.prepared@, key) is Some || before.prepared@.len()
        < crate::mux::MAX_PREPARED_DIMENSIONS {
    } else {
        let gone = choose|gone: Seq<char>| #[trigger]
            crate::mux::evicted(before.prepared@, key, width, height, tick, after.prepared@, gone);
        crate::mux::lemma_eviction_is_lru(
            before.prepared@,
            before.prepared_dimensions_tick,
            key,
            width,
            height,
            after.prepared@,
            gone,
        );
    }
}

/// How many steps a request takes at most.
pub open spec fn steps_left(phase: FlowPhase) -> nat {
    match phase {
        FlowPhase::Model => 7,
        FlowPhase::Counting { again, .. } => if again {
            4
        } else {
            6
        },
        FlowPhase::Checking { last, .. } => if last {
            3
        } else {
            5
        },
        FlowPhase::Loading { .. } => 2,
        FlowPhase::Running { .. } => 1,
        FlowPhase::Done => 0,
    }
}

/// Every request is answered once: each step brings it nearer to its end, and it
/// ends with the one step that sends a frame or an error under its id.
pub proof fn lemma_requests_are_answered_once<T>(
    flow: InferenceFlow,
    before: ConnectionStreams<T>,
    codes: WireCodes,
    event: FlowEvent,
    after: ConnectionStreams<T>,
    phase: FlowPhase,
    action: FlowAction,
)
    requires
        steps(flow, before, codes, event, after, phase, action),
    ensures
        steps_left(phase) < steps_left(flow.phase),
        phase is Done <==> (action is Fail || action is Send),
        match action {
            FlowAction::Fail(reply) => reply.request_id == flow.request_id,
            FlowAction::Send(frame) => exists|kind: crate::protocol::ServerMessageType,
                payload: Seq<u8>|
                frame@ == #[trigger] crate::protocol::mux_frame(
                    codes,
                    kind,
                    flow.request_id,
                    payload,
                ),
            _ => true,
        },
{
}

/// The image that a request names is meant, whichever is active; without one it is the
/// active image; and without either there is none.
pub proof fn lemma_named_image_goes_first<T>(flow: InferenceFlow, streams: ConnectionStreams<T>)
    ensures
        flow.image_id matches Some(id) ==> flow.image(streams) == Some(id@),
        flow.image_id is None ==> (flow.image(streams) matches Some(id) ==> crate::mux::is_text(
            streams.active_image_id,
            id,
        )),
        flow.image(streams) is None <==> flow.image_id is None && streams.active_image_id is None,
{
}

/// Whether an event tells of a failure, or of an inference that cannot be run.
pub open spec fn flow_failed<T>(
    flow: InferenceFlow,
    streams: ConnectionStreams<T>,
    event: FlowEvent,
) -> bool {
    match event {
        FlowEvent::Model(ModelLookup::Found { inputs, .. }) => flow.image(streams) is None || (
        flow.task == FlowTask::Infer && inputs is Err),
        FlowEvent::Model(_) => true,
        FlowEvent::Bands(r) => r is Err,
        FlowEvent::Prepared(there) => !there && (flow.phase matches FlowPhase::Checking {
            last,
            ..
        } && last),
        FlowEvent::Loaded(r) => r is Err,
        FlowEvent::Ran(r) => r is Err,
    }
}

/// A request fails exactly where something went wrong, and the error's code says what:
/// the model, its inputs, the image, its embedding, or the model's own work.
pub proof fn lemma_errors_name_what_failed<T>(
    flow: InferenceFlow,
    before: ConnectionStreams<T>,
    codes: WireCodes,
    event: FlowEvent,
    after: ConnectionStreams<T>,
    phase: FlowPhase,
    action: FlowAction,
)
    requires
        steps(flow, before, codes, event, after, phase, action),
    ensures
        action is Fail <==> flow_failed(flow, before, event),
        action matches FlowAction::Fail(reply) ==> {
            &&& after == before
            &&& reply.retry_after_ms is None
            &&& match event {
                FlowEvent::Model(ModelLookup::Found { inputs, .. }) => reply.code == if flow.task
                    == FlowTask::Infer && inputs is Err {
                    ErrorCode::InvalidInput
                } else {
                    ErrorCode::NoActiveImage
                },
                FlowEvent::Model(_) => reply.code == ErrorCode::ModelNotFound,
                FlowEvent::Bands(_) | FlowEvent::Loaded(_) => reply.code
                    == ErrorCode::ImageNotFound,
                FlowEvent::Prepared(_) => reply.code == ErrorCode::EmbeddingRequired,
                FlowEvent::Ran(_) => reply.code == if flow.task == FlowTask::Prepare {
                    ErrorCode::ModelEncodeFailed
                } else {
                    ErrorCode::ModelDecodeFailed
                },
            }
        },
{
}

/// Once the bands of an image are counted, the request goes on with bands that the image
/// has: each one that was selected and exists is kept.
pub proof fn lemma_counted_bands_exist<T>(
    flow: InferenceFlow,
    before: ConnectionStreams<T>,
    codes: WireCodes,
    count: usize,
    after: ConnectionStreams<T>,
    phase: FlowPhase,
    action: FlowAction,
)
    requires
        flow.phase is Counting,
        0 < count <= u32::MAX,
        steps(
            flow,
            before,
            codes,
            FlowEvent::Bands(Ok::<usize, Error>(count)),
            after,
            phase,
            action,
        ),
    ensures
        match phase {
            FlowPhase::Checking { bands, .. } => is_selection_of(
                bands.resolved,
                flow.requested,
                count as nat,
            ),
            FlowPhase::Loading { bands, .. } => is_selection_of(
                bands.resolved,
                flow.requested,
                count as nat,
            ),
            FlowPhase::Running { .. } => true,
            _ => false,
        },
        action matches FlowAction::LoadRgbWithBands { bands, .. } ==> is_selection_of(
            bands,
            flow.requested,
            count as nat,
        ),
{
    crate::sam::lemma_clamped_bands(flow.requested, count as nat);
    crate::sam::lemma_existing_bands_are_kept(flow.requested, count as nat);
}

/// Whether bands are a selection of an image with so many bands: all exist, and those
/// that were requested and exist are kept.
pub open spec fn is_selection_of(bands: SamBands, requested: SamBands, count: nat) -> bool {
    &&& bands.red < count && bands.green < count && bands.blue < count
    &&& requested.red < count ==> bands.red == requested.red
    &&& requested.green < count ==> bands.green == requested.green
    &&& requested.blue < count ==> bands.blue == requested.blue
}

/// Pixels that were loaded are those that the model is run on, unless it works on an
/// embedding. They go with their own size, under the key of the image and its bands,
/// or under the image's own name where an inference needs no embedding. Those of the
/// first bands are cached for the image.
pub proof fn lemma_loaded_pixels_are_used<T>(
    flow: InferenceFlow,
    before: ConnectionStreams<T>,
    codes: WireCodes,
    rgb: LoadedRgb,
    after: ConnectionStreams<T>,
    phase: FlowPhase,
    action: FlowAction,
)
    requires
        steps(
            flow,
            before,
            codes,
            FlowEvent::Loaded(Ok::<LoadedRgb, Error>(rgb)),
            after,
            phase,
            action,
        ),
    ensures
        flow.phase matches FlowPhase::Loading { image_id, bands, requires_embedding } && {
            &&& phase matches FlowPhase::Running { embedding_key, width, height } && embedding_key@
                == bands.resolved.key(image_id@) && width == rgb.width && height == rgb.height
            &&& action matches FlowAction::Run(context) && context.width == rgb.width
                && context.height == rgb.height && context.image_id@ == (if flow.task
                == FlowTask::Infer && !requires_embedding {
                image_id@
            } else {
                bands.resolved.key(image_id@)
            }) && context.rgb_data@.len() == (if flow.task == FlowTask::Infer
                && requires_embedding {
                0
            } else {
                rgb.rgb_data@.len()
            }) && (!(flow.task == FlowTask::Infer && requires_embedding) ==> context.rgb_data@
                == rgb.rgb_data@)
            &&& bands.resolved.is_default() ==> (after.cached(image_id@) matches Some(data)
                && data.rgb_data@ == rgb.rgb_data@ && data.width == rgb.width && data.height
                == rgb.height)
            &&& !bands.resolved.is_default() ==> after == before
        },
{
}

/// The client gets the model's answer under its request's id: that the model it named
/// is ready, whose dimensions are then known under the embedding's key, or the result
/// of the inference, byte for byte.
pub proof fn lemma_answers_reach_the_client<T>(
    flow: InferenceFlow,
    before: ConnectionStreams<T>,
    codes: WireCodes,
    result: String,
    after: ConnectionStreams<T>,
    phase: FlowPhase,
    action: FlowAction,
)
    requires
        steps(
            flow,
            before,
            codes,
            FlowEvent::Ran(Ok::<String, String>(result)),
            after,
            phase,
            action,
        ),
        before.wf(),
        before.ticks_fresh(),
        before.prepared_dimensions_tick < u64::MAX,
        vstd::utf8::encode_utf8(flow.model_id@).len() <= u16::MAX,
    ensures
        action matches FlowAction::Send(frame) && {
            &&& crate::bytes::le_value(frame@.subrange(2, 6)) == flow.request_id
            &&& flow.task == FlowTask::Infer ==> frame@[1] == codes.infer_result && frame@.skip(6)
                == vstd::utf8::encode_utf8(result@) && after == before
            &&& flow.task == FlowTask::Prepare ==> frame@[1] == codes.model_ready
                && vstd::utf8::decode_utf8(frame@.skip(8)) == flow.model_id@
        },
        flow.task == FlowTask::Prepare ==> (flow.phase matches FlowPhase::Running {
            embedding_key,
            width,
            height,
        } && crate::mux::lookup(after.prepared@, embedding_key@) matches Some(entry) && entry.0
            == width && entry.1 == height),
{
    if let FlowPhase::Running { embedding_key, width, height } = flow.phase {
        if flow.task == FlowTask::Prepare {
            lemma_prepared_dimensions_are_found(before, embedding_key@, width, height, after);
            let payload = crate::protocol::prefixed_text(flow.model_id@);
            let frame = crate::protocol::mux_frame(
                codes,
                crate::protocol::ServerMessageType::ModelReady,
                flow.request_id,
                payload,
            );
            crate::protocol::lemma_mux_frame_reads_back(
                codes,
                crate::protocol::ServerMessageType::ModelReady,
                flow.request_id,
                payload,
            );
            crate::protocol::lemma_short_text_arrives(flow.model_id@);
            crate::protocol::lemma_prefixed_text_reads_back(flow.model_id@);
            assert(frame.skip(8) =~= frame.skip(6).skip(2));
        } else {
            crate::protocol::lemma_mux_frame_reads_back(
                codes,
                crate::protocol::ServerMessageType::InferResult,
                flow.request_id,
                vstd::utf8::encode_utf8(result@),
            );
        }
    }
}

/// An inference on an embedding whose dimensions are known is run at once, on no pixels,
/// under the embedding's key and with those dimensions.
pub proof fn lemma_known_dimensions_save_loading<T>(
    flow: InferenceFlow,
    before: ConnectionStreams<T>,
    codes: WireCodes,
    after: ConnectionStreams<T>,
    phase: FlowPhase,
    action: FlowAction,
)
    requires
        flow.task == FlowTask::Infer,
        steps(flow, before, codes, FlowEvent::Prepared(true), after, phase, action),
        flow.phase matches FlowPhase::Checking { image_id, bands, last } && last
            && crate::mux::lookup(before.prepared@, bands.resolved.key(image_id@)) is Some,
    ensures
        flow.phase matches FlowPhase::Checking { image_id, bands, last } && {
            let known = crate::mux::lookup(before.prepared@, bands.resolved.key(image_id@))->0;
            action matches FlowAction::Run(context) && context.image_id@ == bands.resolved.key(
                image_id@,
            ) && context.rgb_data@.len() == 0 && context.width == known.0 && context.height
                == known.1
        },
{
}

/// The text of a selection names its bands in order: red, green and blue.
pub proof fn lemma_bands_text_names_the_bands(bands: SamBands)
    ensures
        bands_text(bands).len() == crate::text::decimal(bands.red as nat).len()
            + crate::text::decimal(bands.green as nat).len() + crate::text::decimal(
            bands.blue as nat,
        ).len() + 6,
        bands_text(bands).subrange(
            1,
            1 + crate::text::decimal(bands.red as nat).len() as int,
        ) == crate::text::decimal(bands.red as nat),
        ({
            let green_at = 3 + crate::text::decimal(bands.red as nat).len() as int;
            let blue_at = green_at + 2 + crate::text::decimal(bands.green as nat).len();
            &&& bands_text(bands).subrange(
                green_at,
                green_at + crate::text::decimal(bands.green as nat).len(),
            ) == crate::text::decimal(bands.green as nat)
            &&& bands_text(bands).subrange(
                blue_at,
                blue_at + crate::text::decimal(bands.blue as nat).len(),
            ) == crate::text::decimal(bands.blue as nat)
        }),
{
    reveal_strlit("[");
    reveal_strlit(", ");
    reveal_strlit("]");
    let r = crate::text::decimal(bands.red as nat);
    let g = crate::text::decimal(bands.green as nat);
    let b = crate::text::decimal(bands.blue as nat);
    let green_at = 3 + r.len() as int;
    let blue_at = green_at + 2 + g.len();
    assert(bands_text(bands).subrange(1, 1 + r.len() as int) =~= r);
    assert(bands_text(bands).subrange(green_at, green_at + g.len()) =~= g);
    assert(bands_text(bands).subrange(blue_at, blue_at + b.len()) =~= b);
}

/// Looking dimensions up changes none of them.
pub proof fn lemma_lookups_change_no_dimensions<T>(
    before: ConnectionStreams<T>,
    key: Seq<char>,
    after: ConnectionStreams<T>,
    asked: Seq<char>,
)
    requires
        dimensions_looked_up(before, key, after),
    ensures
        crate::mux::lookup(before.prepared@, asked) is Some <==> crate::mux::lookup(
            after.prepared@,
            asked,
        ) is Some,
        crate::mux::lookup(before.prepared@, asked) matches Some(entry) ==> (crate::mux::lookup(
            after.prepared@,
            asked,
        )->0).0 == entry.0 && (crate::mux::lookup(after.prepared@, asked)->0).1 == entry.1,
        after.cached_image == before.cached_image,
        after.active_image_id == before.active_image_id,
        after.streams == before.streams,
        after.inferences == before.inferences,
{
}

/// A step is taken only for the event that is waited for, and a request that is over
/// waits for none.
pub proof fn lemma_only_awaited_events<T>(
    flow: InferenceFlow,
    before: ConnectionStreams<T>,
    codes: WireCodes,
    event: FlowEvent,
    other: FlowEvent,
    after: ConnectionStreams<T>,
    phase: FlowPhase,
    action: FlowAction,
)
    ensures
        steps(flow, before, codes, event, after, phase, action) ==> flow.awaits(event),
        flow.phase is Done ==> !flow.awaits(event),
        flow.awaits(event) && flow.awaits(other) ==> (event is Model <==> other is Model) && (
        event is Bands <==> other is Bands) && (event is Prepared <==> other is Prepared) && (
        event is Loaded <==> other is Loaded) && (event is Ran <==> other is Ran),
{
}

/// Once the model is found, whatever is done next is done for the image that is meant,
/// and the embedding that is asked for is that of the image and the requested bands.
pub proof fn lemma_steps_speak_of_the_image<T>(
    flow: InferenceFlow,
    before: ConnectionStreams<T>,
    codes: WireCodes,
    model: ModelLookup,
    after: ConnectionStreams<T>,
    phase: FlowPhase,
    action: FlowAction,
)
    requires
        steps(flow, before, codes, FlowEvent::Model(model), after, phase, action),
    ensures
        match action {
            FlowAction::CountBands { image_id } => flow.image(before) == Some(image_id@)
                && !flow.requested.is_default(),
            FlowAction::AskPrepared { embedding_key } => flow.requested.is_default()
                && embedding_key@ == flow.requested.key(flow.image(before)->0) && flow.task
                == FlowTask::Infer,
            FlowAction::LoadRgb { image_id } => flow.image(before) == Some(image_id@)
                && flow.requested.is_default(),
            FlowAction::LoadRgbWithBands { .. } => false,
            FlowAction::Run(context) => before.cached(flow.image(before)->0) matches Some(data)
                && context.rgb_data@ == data.rgb_data@ && context.width == data.width
                && context.height == data.height,
            FlowAction::Fail(_) => true,
            FlowAction::Send(_) => false,
        },
{
}

/// The pixels of the first three bands are loaded as such, or taken from the cache where
/// they are of that image; any other selection is loaded with its own bands.
pub proof fn lemma_loading_follows_the_bands<T>(
    flow: InferenceFlow,
    before: ConnectionStreams<T>,
    image: Seq<char>,
    requested: SamBands,
    resolved: SamBands,
    requires_embedding: bool,
    after: ConnectionStreams<T>,
    phase: FlowPhase,
    action: FlowAction,
)
    requires
        loads_image(
            flow,
            before,
            image,
            requested,
            resolved,
            requires_embedding,
            after,
            phase,
            action,
        ),
    ensures
        match action {
            FlowAction::LoadRgb { image_id } => image_id@ == image && resolved.is_default()
                && before.cached(image) is None,
            FlowAction::LoadRgbWithBands { image_id, bands } => image_id@ == image && bands
                == resolved && !resolved.is_default(),
            FlowAction::Run(context) => (resolved.is_default() && before.cached(image) is Some)
                || (flow.task == FlowTask::Infer && requires_embedding && crate::mux::lookup(
                before.prepared@,
                resolved.key(image),
            ) is Some),
            _ => false,
        },
        phase matches FlowPhase::Loading { bands, .. } ==> bands.embedding_key@ == resolved.key(
            image,
        ) && bands.requested == requested,
        phase matches FlowPhase::Running { embedding_key, .. } ==> embedding_key@ == resolved.key(
            image,
        ),
{
}

/// What a client is told whose embedding is missing names the image and the bands, the
/// requested ones before those that they were resolved to.
pub proof fn lemma_missing_embedding_is_named(
    image: Seq<char>,
    requested: SamBands,
    resolved: SamBands,
)
    ensures
        ({
            let message = embedding_message(image, requested, resolved);
            let requested_at = 37 + image.len() as int + 12;
            let resolved_at = requested_at + bands_text(requested).len() + 11;
            &&& message.subrange(37, 37 + image.len() as int) == image
            &&& message.subrange(requested_at, requested_at + bands_text(requested).len())
                == bands_text(requested)
            &&& message.subrange(resolved_at, resolved_at + bands_text(resolved).len())
                == bands_text(resolved)
        }),
{
    reveal_strlit("Model embedding not ready for image '");
    reveal_strlit("' and bands ");
    reveal_strlit(" (resolved ");
    let message = embedding_message(image, requested, resolved);
    let requested_at = 37 + image.len() as int + 12;
    let resolved_at = requested_at + bands_text(requested).len() + 11;
    assert(message.subrange(37, 37 + image.len() as int) =~= image);
    assert(message.subrange(requested_at, requested_at + bands_text(requested).len())
        =~= bands_text(requested));
    assert(message.subrange(resolved_at, resolved_at + bands_text(resolved).len())
        =~= bands_text(resolved));
}

/// Where the dimensions of a prepared image suffice, the embedding of the image with its
/// bands is asked for, and nothing is loaded yet; there is nothing further to try exactly
/// where the first three bands were requested. Otherwise no embedding is asked for.
pub proof fn lemma_prepared_images_are_asked_for<T>(
    flow: InferenceFlow,
    before: ConnectionStreams<T>,
    image: Seq<char>,
    resolved: SamBands,
    requires_embedding: bool,
    after: ConnectionStreams<T>,
    phase: FlowPhase,
    action: FlowAction,
)
    requires
        goes_on_with_bands(
            flow,
            before,
            image,
            resolved,
            requires_embedding,
            after,
            phase,
            action,
        ),
    ensures
        dimensions_suffice(flow.task, requires_embedding) <==> action is AskPrepared,
        action matches FlowAction::AskPrepared { embedding_key } ==> embedding_key@ == resolved.key(
            image,
        ) && after == before && phase is Checking,
        phase matches FlowPhase::Checking { image_id, bands, last } ==> image_id@ == image && (last
            <==> flow.requested == (SamBands { red: 0, green: 1, blue: 2 })),
{
}

} // verus!
