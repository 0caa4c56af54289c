use hvat_backend::error::Error;
use hvat_backend::inference::{
    inference_step, FlowAction, FlowEvent, FlowPhase, ImageContext, InferenceFlow, LoadedRgb,
    ModelLookup,
};
use hvat_backend::json::Json;
use hvat_backend::mux::{ConnectionStreams, InferModelRequest, PrepareModelRequest};
use hvat_backend::plain::{
    handle_client_message, plain_socket_event, plain_stream_levels, pyramid_building, sam_step,
    segmentation_rgb, PlainAction, PlainEvent, PlainMessage, PlainStep, SamAction, SamEvent, SamTask,
};
use hvat_backend::protocol::{ErrorCode, ErrorReply, WireCodes};
use hvat_backend::sam::{
    flatten_polygon, parse_sam_box, parse_sam_points, validate_inputs, ExecutionProvider,
    PromptError, SamBands,
};
use hvat_backend::streaming::LevelRequest;

type Streams = ConnectionStreams<()>;

fn codes() -> WireCodes {
    WireCodes {
        version: 2,
        metadata: 1,
        layer_chunk: 2,
        layer_complete: 3,
        level_complete: 4,
        error: 5,
        reset: 6,
        capabilities: 7,
        ping: 8,
        stream_complete: 9,
        stream_error: 10,
        image_set: 11,
        model_ready: 12,
        infer_progress: 13,
        infer_result: 14,
    }
}

fn number(n: u64) -> Json {
    Json::Number { unsigned: Some(n), signed: Some(n as i64) }
}

fn fraction() -> Json {
    Json::Number { unsigned: None, signed: None }
}

fn object(members: Vec<(&str, Json)>) -> Json {
    Json::Object(members.into_iter().map(|(k, v)| (k.to_string(), v)).collect())
}

fn bands_config(red: u64, green: u64, blue: u64) -> Json {
    object(vec![(
        "bands",
        object(vec![("red", number(red)), ("green", number(green)), ("blue", number(blue))]),
    )])
}

fn prepare(image_id: Option<&str>, config: Option<Json>) -> InferenceFlow {
    InferenceFlow::prepare(PrepareModelRequest {
        request_id: 5,
        model_id: "sam".to_string(),
        image_id: image_id.map(|id| id.to_string()),
        config,
    })
}

fn infer(image_id: Option<&str>, options: Json) -> InferenceFlow {
    InferenceFlow::infer(InferModelRequest {
        request_id: 6,
        model_id: "sam".to_string(),
        image_id: image_id.map(|id| id.to_string()),
        inputs: Json::Null,
        options,
    })
}

fn found(requires_embedding: bool) -> FlowEvent {
    FlowEvent::Model(ModelLookup::Found { requires_embedding, inputs: Ok(()) })
}

fn loaded(rgb_data: Vec<u8>) -> FlowEvent {
    FlowEvent::Loaded(Ok(LoadedRgb { rgb_data, width: 1, height: 1 }))
}

fn step(flow: InferenceFlow, streams: &mut Streams, event: FlowEvent) -> (InferenceFlow, FlowAction) {
    assert!(flow.is_awaiting(&event));
    inference_step(flow, streams, &codes(), event)
}

fn fail(flow: InferenceFlow, streams: &mut Streams, event: FlowEvent) -> ErrorReply {
    match step(flow, streams, event) {
        (flow, FlowAction::Fail(reply)) => {
            assert!(matches!(flow.phase, FlowPhase::Done));
            assert_eq!(reply.request_id, flow.request_id);
            reply
        }
        other => panic!("{:?}", other),
    }
}

fn context(action: FlowAction) -> ImageContext {
    match action {
        FlowAction::Run(context) => context,
        other => panic!("{:?}", other),
    }
}

#[test]
fn a_model_is_prepared_then_used() {
    let mut streams: Streams = ConnectionStreams::new(4, 2);
    streams.set_image("img".to_string());

    let (flow, action) = step(prepare(None, None), &mut streams, found(true));
    assert!(matches!(action, FlowAction::LoadRgb { ref image_id } if image_id == "img"));
    let (flow, action) = step(flow, &mut streams, loaded(vec![1, 2, 3]));
    let ctx = context(action);
    assert_eq!(ctx.image_id, "img#0:1:2");
    assert_eq!(ctx.rgb_data, vec![1, 2, 3]);
    let (flow, action) = step(flow, &mut streams, FlowEvent::Ran(Ok(String::new())));
    match action {
        FlowAction::Send(frame) => {
            assert_eq!(frame, vec![2, 12, 5, 0, 0, 0, 3, 0, b's', b'a', b'm'])
        }
        other => panic!("{:?}", other),
    }
    assert!(matches!(flow.phase, FlowPhase::Done));

    // The embedding is there, so the inference needs no pixels.
    let (flow, action) = step(infer(None, Json::Null), &mut streams, found(true));
    assert!(
        matches!(action, FlowAction::AskPrepared { ref embedding_key } if embedding_key == "img#0:1:2")
    );
    let (flow, action) = step(flow, &mut streams, FlowEvent::Prepared(true));
    let ctx = context(action);
    assert_eq!(ctx.image_id, "img#0:1:2");
    assert!(ctx.rgb_data.is_empty());
    assert_eq!((ctx.width, ctx.height), (1, 1));
    let (_, action) = step(flow, &mut streams, FlowEvent::Ran(Ok("{}".to_string())));
    match action {
        FlowAction::Send(frame) => assert_eq!(frame, vec![2, 14, 6, 0, 0, 0, b'{', b'}']),
        other => panic!("{:?}", other),
    }
}

#[test]
fn the_cached_image_is_used() {
    let mut streams: Streams = ConnectionStreams::new(4, 2);
    streams.set_image("img".to_string());
    streams.cache_image("img".to_string(), vec![7, 8, 9], 1, 1);
    let (_, action) = step(prepare(None, None), &mut streams, found(true));
    assert_eq!(context(action).rgb_data, vec![7, 8, 9]);
    // Without embedding the model is handed the image under its own name.
    let (_, action) = step(infer(None, Json::Null), &mut streams, found(false));
    let ctx = context(action);
    assert_eq!(ctx.image_id, "img");
    assert_eq!(ctx.rgb_data, vec![7, 8, 9]);
}

#[test]
fn selected_bands_are_clamped() {
    let mut streams: Streams = ConnectionStreams::new(4, 2);
    let flow = prepare(Some("img"), Some(bands_config(19, 1, 2)));
    let (flow, action) = step(flow, &mut streams, found(true));
    assert!(matches!(action, FlowAction::CountBands { ref image_id } if image_id == "img"));
    let (flow, action) = step(flow, &mut streams, FlowEvent::Bands(Ok(3)));
    match action {
        FlowAction::LoadRgbWithBands { image_id, bands } => {
            assert_eq!(image_id, "img");
            assert_eq!(bands, SamBands { red: 2, green: 1, blue: 2 });
        }
        other => panic!("{:?}", other),
    }
    let (_, action) = step(flow, &mut streams, loaded(vec![1, 1, 1]));
    assert_eq!(context(action).image_id, "img#2:1:2");
    assert!(streams.get_cached_image("img").is_none());
}

#[test]
fn a_missing_embedding_is_looked_for_again() {
    let mut streams: Streams = ConnectionStreams::new(4, 2);
    let (flow, _) = step(infer(Some("img"), bands_config(19, 1, 2)), &mut streams, found(true));
    let (flow, action) = step(flow, &mut streams, FlowEvent::Bands(Ok(3)));
    assert!(
        matches!(action, FlowAction::AskPrepared { ref embedding_key } if embedding_key == "img#2:1:2")
    );
    let (flow, action) = step(flow, &mut streams, FlowEvent::Prepared(false));
    assert!(matches!(action, FlowAction::CountBands { .. }));
    let (flow, action) = step(flow, &mut streams, FlowEvent::Bands(Ok(2)));
    assert!(
        matches!(action, FlowAction::AskPrepared { ref embedding_key } if embedding_key == "img#1:1:1")
    );
    let reply = fail(flow, &mut streams, FlowEvent::Prepared(false));
    assert_eq!(reply.code, ErrorCode::EmbeddingRequired);
    assert_eq!(
        reply.message,
        "Model embedding not ready for image 'img' and bands [19, 1, 2] (resolved [1, 1, 1]). Call prepare_model first."
    );
}

#[test]
fn failures_are_told() {
    let mut streams: Streams = ConnectionStreams::new(4, 2);
    let reply = fail(prepare(None, None), &mut streams, FlowEvent::Model(ModelLookup::NoModels));
    assert_eq!(reply.code, ErrorCode::ModelNotFound);
    assert_eq!(reply.message, "No models available on this server");
    let reply = fail(prepare(None, None), &mut streams, FlowEvent::Model(ModelLookup::NotFound));
    assert_eq!(reply.message, "Model 'sam' not found");
    let refused = FlowEvent::Model(ModelLookup::Found {
        requires_embedding: true,
        inputs: Err("no prompt".to_string()),
    });
    let reply = fail(infer(None, Json::Null), &mut streams, refused);
    assert_eq!(reply.code, ErrorCode::InvalidInput);
    assert_eq!(reply.message, "Invalid inputs: no prompt");
    let reply = fail(infer(None, Json::Null), &mut streams, found(true));
    assert_eq!(reply.code, ErrorCode::NoActiveImage);
    assert_eq!(
        reply.message,
        "No active image set. Provide image_id or call set_image first."
    );
    let missing = || Error::ImageNotFound("img".to_string());
    let (flow, _) = step(
        prepare(Some("img"), Some(bands_config(3, 4, 5))),
        &mut streams,
        found(true),
    );
    let reply = fail(flow, &mut streams, FlowEvent::Bands(Err(missing())));
    assert_eq!(reply.code, ErrorCode::ImageNotFound);
    assert_eq!(reply.message, "Failed to resolve image bands: Image not found: img");
    let (flow, _) = step(prepare(Some("img"), None), &mut streams, found(true));
    let reply = fail(flow, &mut streams, FlowEvent::Loaded(Err(missing())));
    assert_eq!(reply.message, "Failed to load image: Image not found: img");
    let (flow, _) = step(
        prepare(Some("img"), Some(bands_config(3, 4, 5))),
        &mut streams,
        found(true),
    );
    let (flow, _) = step(flow, &mut streams, FlowEvent::Bands(Ok(9)));
    let reply = fail(flow, &mut streams, FlowEvent::Loaded(Err(missing())));
    assert_eq!(reply.message, "Failed to load image with bands: Image not found: img");
    let (flow, _) = step(prepare(Some("img"), None), &mut streams, found(true));
    let (flow, _) = step(flow, &mut streams, loaded(vec![0, 0, 0]));
    let reply = fail(flow, &mut streams, FlowEvent::Ran(Err("boom".to_string())));
    assert_eq!(reply.code, ErrorCode::ModelEncodeFailed);
    assert_eq!(reply.message, "Failed to prepare model: boom");
    let (flow, _) = step(infer(Some("img"), Json::Null), &mut streams, found(false));
    let reply = fail(flow, &mut streams, FlowEvent::Ran(Err("boom".to_string())));
    assert_eq!(reply.code, ErrorCode::ModelDecodeFailed);
    assert_eq!(reply.message, "Inference failed: boom");
}

#[test]
fn prompts_are_checked() {
    let point = |label: Json| object(vec![("x", fraction()), ("y", number(2)), ("label", label)]);
    let points = |items: Vec<Json>| object(vec![("points", Json::Array(items))]);
    assert_eq!(validate_inputs(&object(vec![])), Err(PromptError::NoPrompt));
    assert_eq!(validate_inputs(&points(vec![])), Err(PromptError::NoPrompt));
    assert_eq!(validate_inputs(&object(vec![("box", Json::Null)])), Err(PromptError::NoPrompt));
    assert_eq!(validate_inputs(&object(vec![("box", Json::Bool(true))])), Ok(()));
    assert_eq!(validate_inputs(&points(vec![Json::Null])), Ok(()));
    assert_eq!(
        PromptError::NoPrompt.message(),
        "At least one prompt (points or box) is required"
    );
    assert_eq!(parse_sam_points(&object(vec![])), Ok(vec![]));
    assert_eq!(
        parse_sam_points(&points(vec![point(number(1)), point(number(0))])),
        Ok(vec![1, 0])
    );
    assert_eq!(
        parse_sam_points(&object(vec![("points", Json::Null)])),
        Err(PromptError::PointsNotAnArray)
    );
    assert_eq!(parse_sam_points(&points(vec![Json::Null])), Err(PromptError::PointWithoutX));
    assert_eq!(
        parse_sam_points(&points(vec![object(vec![("x", number(1))])])),
        Err(PromptError::PointWithoutY)
    );
    assert_eq!(
        parse_sam_points(&points(vec![point(fraction())])),
        Err(PromptError::PointWithoutLabel)
    );
    let boxed = |items: Vec<Json>| object(vec![("box", Json::Array(items))]);
    assert_eq!(parse_sam_box(&object(vec![])), Ok(false));
    assert_eq!(parse_sam_box(&object(vec![("box", Json::Null)])), Ok(false));
    assert_eq!(
        parse_sam_box(&boxed(vec![number(1), number(2), number(3), fraction()])),
        Ok(true)
    );
    assert_eq!(parse_sam_box(&boxed(vec![number(1)])), Err(PromptError::BoxLength));
    assert_eq!(
        parse_sam_box(&boxed(vec![number(1), number(2), Json::Null, number(4)])),
        Err(PromptError::BoxElement(2))
    );
    assert_eq!(PromptError::BoxElement(2).message(), "box[2] must be a number");
    assert_eq!(
        parse_sam_box(&object(vec![("box", number(1))])),
        Err(PromptError::BoxNotAnArray)
    );
    assert_eq!(flatten_polygon(&vec![(1u8, 2u8), (3, 4)]), vec![1, 2, 3, 4]);
}

#[test]
fn bands_are_configured() {
    assert_eq!(SamBands::from_config(None), SamBands::default_rgb());
    assert_eq!(
        SamBands::from_config(Some(&object(vec![("bands", object(vec![("red", number(7))]))]))),
        SamBands { red: 7, green: 1, blue: 2 }
    );
    let bands = SamBands { red: 9, green: 0, blue: 4 };
    assert!(!bands.is_default_rgb());
    assert_eq!(bands.embedding_key("i"), "i#9:0:4");
    assert_eq!(bands.clamp_to_num_bands(5), SamBands { red: 4, green: 0, blue: 4 });
    assert_eq!(bands.clamp_to_num_bands(0), SamBands::default_rgb());
}

#[test]
fn providers_are_named() {
    assert_eq!(ExecutionProvider::from_str("DirectML"), Some(ExecutionProvider::DirectML));
    assert_eq!(ExecutionProvider::from_str("auto"), None);
    assert_eq!(ExecutionProvider::default(), ExecutionProvider::Cpu);
    for provider in [
        ExecutionProvider::Cpu,
        ExecutionProvider::Cuda,
        ExecutionProvider::Rocm,
        ExecutionProvider::DirectML,
        ExecutionProvider::CoreML,
    ] {
        assert_eq!(ExecutionProvider::from_str(provider.name()), Some(provider));
    }
}

#[test]
fn segmentation_needs_an_engine() {
    match sam_step(SamTask::Segment, SamEvent::Engine(false)) {
        Err(Error::Internal(text)) => assert_eq!(text, "SAM is not enabled on this server"),
        other => panic!("{:?}", other),
    }
    let next = |task: SamTask, event: SamEvent| sam_step(task, event).unwrap();
    assert_eq!(next(SamTask::Embed, SamEvent::Engine(true)), SamAction::LookUp);
    assert_eq!(next(SamTask::Embed, SamEvent::Cached(Ok(true))), SamAction::Report);
    assert_eq!(next(SamTask::Segment, SamEvent::Cached(Ok(true))), SamAction::Decode);
    assert_eq!(next(SamTask::Segment, SamEvent::Cached(Ok(false))), SamAction::Load);
    assert_eq!(next(SamTask::Segment, SamEvent::Loaded(Ok(()))), SamAction::Encode);
    assert_eq!(next(SamTask::Embed, SamEvent::Encoded(Ok(()))), SamAction::StoreAndReport);
    assert_eq!(next(SamTask::Segment, SamEvent::Encoded(Ok(()))), SamAction::StoreAndDecode);
    assert_eq!(next(SamTask::Segment, SamEvent::Decoded(Ok(()))), SamAction::SendMasks);
    match sam_step(SamTask::Embed, SamEvent::Encoded(Err("x".to_string()))) {
        Err(Error::Internal(text)) => assert_eq!(text, "SAM encoding failed: x"),
        other => panic!("{:?}", other),
    }
    match sam_step(SamTask::Segment, SamEvent::Decoded(Err("x".to_string()))) {
        Err(Error::Internal(text)) => assert_eq!(text, "SAM decoding failed: x"),
        other => panic!("{:?}", other),
    }
}

#[test]
fn single_image_connections() {
    assert!(matches!(
        handle_client_message(PlainMessage::<u8>::StartStream { level: 2, progressive: false }),
        PlainAction::Stream { level: 2, progressive: false }
    ));
    assert!(matches!(handle_client_message(PlainMessage::<u8>::Cancel), PlainAction::Nothing));
    assert!(matches!(handle_client_message(PlainMessage::<u8>::SamEmbed), PlainAction::Embed));
    assert!(matches!(
        handle_client_message(PlainMessage::SamSegment { prompt: 4u8 }),
        PlainAction::Segment { prompt: 4 }
    ));
    assert_eq!(
        plain_stream_levels(9, 2, false),
        vec![LevelRequest { level: 9, send_reset: true }]
    );
    assert_eq!(plain_stream_levels(1, 2, true).len(), 2);
    assert_eq!(segmentation_rgb(&vec![vec![5, 6], vec![0, 0]], 2).unwrap(), vec![5, 5, 5, 6, 6, 6]);
    assert_eq!(
        segmentation_rgb(&vec![vec![1], vec![2], vec![3], vec![4]], 1).unwrap(),
        vec![1, 2, 3]
    );
    match segmentation_rgb(&Vec::new(), 0) {
        Err(Error::Internal(text)) => assert_eq!(text, "Image has no bands"),
        other => panic!("{:?}", other),
    }
}

#[test]
fn a_single_image_connection_sorts_what_it_receives() {
    let text = |message: PlainMessage<u8>| PlainEvent::Text(Ok(message));
    assert!(matches!(
        plain_socket_event(true, text(PlainMessage::Pong { timestamp: 1 })),
        PlainStep::RecordPong
    ));
    assert!(matches!(
        plain_socket_event(true, text(PlainMessage::SamSegment { prompt: 7 })),
        PlainStep::Handle(PlainMessage::SamSegment { prompt: 7 })
    ));
    match plain_socket_event::<u8>(true, PlainEvent::Text(Err("bad".to_string()))) {
        PlainStep::Reply(message) => assert_eq!(message, "Invalid message: bad"),
        other => panic!("{:?}", other),
    }
    assert!(matches!(plain_socket_event::<u8>(true, PlainEvent::Close), PlainStep::Stop));
    assert!(matches!(plain_socket_event::<u8>(true, PlainEvent::Failed), PlainStep::Stop));
    assert!(matches!(plain_socket_event::<u8>(true, PlainEvent::Other), PlainStep::Continue));
    assert!(matches!(
        plain_socket_event(false, text(PlainMessage::Cancel)),
        PlainStep::Stop
    ));
}

#[test]
fn a_pyramid_that_is_being_built_is_reported() {
    let reply = pyramid_building("42");
    assert_eq!(reply.request_id, 0);
    assert_eq!(reply.code, ErrorCode::PyramidNotReady);
    assert_eq!(reply.message, "Image pyramid is being built (42% complete)");
    assert_eq!(reply.retry_after_ms, Some(5000));
}
