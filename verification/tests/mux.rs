use hvat_backend::connection::{
    current_timestamp_ms, elapsed_pong_seconds, handle_socket_event, ping_enabled, ping_step,
    next_timestamp_ms, pong_timeout_exceeded, reject_max_connections, stream_failure,
    timestamp_ms, KeepaliveClock, PingStep, ReceiveStep, SessionState, SocketEvent,
    WebSocketState,
};
use hvat_backend::config::ServerConfig;
use hvat_backend::error::Error;
use hvat_backend::json::Json;
use hvat_backend::mux::{
    handle_message, handle_mux_message, ActiveInference, ActivePrepare, ActiveStream,
    ClientMessage, ConnectionStreams, MuxAction, MAX_PREPARED_DIMENSIONS,
};
use hvat_backend::protocol::{ErrorCode, ErrorReply, WireCodes};

fn codes() -> WireCodes {
    WireCodes {
        version: 2,
        metadata: 1,
        layer_chunk: 2,
        layer_complete: 3,
        level_complete: 4,
        error: 5,
        reset: 6,
        capabilities: 7,
        ping: 8,
        stream_complete: 9,
        stream_error: 10,
        image_set: 11,
        model_ready: 12,
        infer_progress: 13,
        infer_result: 14,
    }
}

fn connection() -> ConnectionStreams<u32> {
    ConnectionStreams::new(2, 1)
}

fn failure(action: MuxAction<u32>) -> ErrorReply {
    match action {
        MuxAction::Fail(reply) => reply,
        other => panic!("{:?}", other),
    }
}

#[test]
fn prepared_dimensions_eviction_is_lru_by_access() {
    let mut streams: ConnectionStreams<()> = ConnectionStreams::new(4, 2);

    for i in 0..MAX_PREPARED_DIMENSIONS {
        streams.cache_prepared_dimensions(format!("k{}", i), i as u32, i as u32);
    }

    // Touch k0 so it is no longer the least-recently-used entry.
    assert_eq!(streams.prepared_dimensions("k0"), Some((0, 0)));

    // Insert one more key and ensure k1 (the true LRU) is evicted.
    streams.cache_prepared_dimensions("k_new".to_string(), 999, 999);
    assert!(streams.prepared_dimensions("k1").is_none());
    assert_eq!(streams.prepared_dimensions("k0"), Some((0, 0)));
    assert_eq!(streams.prepared_dimensions("k_new"), Some((999, 999)));
    assert_eq!(streams.prepared_count(), MAX_PREPARED_DIMENSIONS);
}

#[test]
fn set_image_keeps_prepared_dimensions_for_other_images() {
    let mut streams: ConnectionStreams<()> = ConnectionStreams::new(4, 2);
    streams.cache_prepared_dimensions("img_a#0:1:2".to_string(), 100, 200);
    streams.cache_prepared_dimensions("img_b#0:1:2".to_string(), 300, 400);

    streams.set_image("img_a".to_string());
    streams.set_image("img_b".to_string());

    assert_eq!(streams.prepared_dimensions("img_a#0:1:2"), Some((100, 200)));
    assert_eq!(streams.prepared_dimensions("img_b#0:1:2"), Some((300, 400)));
}

#[test]
fn switching_images_drops_the_cached_one() {
    let mut streams = connection();
    streams.set_image("a".to_string());
    streams.cache_image("a".to_string(), vec![1, 2, 3], 1, 1);
    streams.set_image("a".to_string());
    assert_eq!(streams.get_cached_image("a").unwrap().rgb_data, vec![1, 2, 3]);
    assert!(streams.get_cached_image("b").is_none());
    streams.set_image("b".to_string());
    assert!(streams.get_cached_image("a").is_none());
    assert_eq!(streams.active_image(), Some("b"));
}

#[test]
fn recording_a_key_again_replaces_it() {
    let mut streams = connection();
    streams.cache_prepared_dimensions("k".to_string(), 1, 2);
    streams.cache_prepared_dimensions("k".to_string(), 3, 4);
    assert_eq!(streams.prepared_count(), 1);
    assert_eq!(streams.prepared_dimensions("k"), Some((3, 4)));
    assert_eq!(streams.prepared_dimensions("other"), None);
}

#[test]
fn an_image_is_set_and_streamed() {
    let mut streams = connection();
    let stream = |request_id: u32| ClientMessage::StreamImage {
        request_id,
        level: 3,
        progressive: true,
    };
    let reply = failure(handle_mux_message(&mut streams, &codes(), stream(1)));
    assert_eq!(reply.code, ErrorCode::NoActiveImage);
    assert_eq!(reply.message, "No active image set. Call set_image first.");
    assert_eq!(reply.request_id, 1);

    let set = ClientMessage::SetImage { request_id: 9, image_id: "img".to_string() };
    match handle_mux_message(&mut streams, &codes(), set) {
        MuxAction::Send(frame) => {
            assert_eq!(frame, vec![2, 11, 9, 0, 0, 0, 3, 0, b'i', b'm', b'g'])
        }
        other => panic!("{:?}", other),
    }
    for request_id in 0..2 {
        match handle_mux_message(&mut streams, &codes(), stream(request_id)) {
            MuxAction::StartStream { request_id: id, image_id, level, progressive } => {
                assert_eq!((id, image_id.as_str(), level, progressive), (request_id, "img", 3, true));
                streams.insert(id, ActiveStream { task: 70 + id, image_id });
            }
            other => panic!("{:?}", other),
        }
    }
    let reply = failure(handle_mux_message(&mut streams, &codes(), stream(5)));
    assert_eq!(reply.code, ErrorCode::RateLimited);
    assert_eq!(reply.message, "Maximum concurrent streams (2) reached");
    assert_eq!(reply.retry_after_ms, Some(1000));

    let cancel = |request_id: u32| ClientMessage::CancelStream { request_id };
    match handle_mux_message(&mut streams, &codes(), cancel(1)) {
        MuxAction::Abort(task) => assert_eq!(task, 71),
        other => panic!("{:?}", other),
    }
    assert!(matches!(
        handle_mux_message(&mut streams, &codes(), cancel(1)),
        MuxAction::Nothing
    ));
    assert!(streams.can_start_stream());
    streams.remove(0);
    assert!(streams.cancel_all().is_empty());
}

#[test]
fn inferences_come_before_preparations() {
    let mut streams = connection();
    let prepare = |request_id: u32| ClientMessage::PrepareModel {
        request_id,
        model_id: "m".to_string(),
        image_id: None,
        config: None,
    };
    let infer = |request_id: u32| ClientMessage::Infer {
        request_id,
        model_id: "m".to_string(),
        image_id: Some("i".to_string()),
        inputs: Json::Null,
        options: Json::Null,
    };
    match handle_mux_message(&mut streams, &codes(), prepare(1)) {
        MuxAction::StartPrepare { request, aborted } => {
            assert!(aborted.is_empty());
            streams.insert_prepare(
                request.request_id,
                ActivePrepare { task: 11, model_id: request.model_id },
            );
        }
        other => panic!("{:?}", other),
    }
    match handle_mux_message(&mut streams, &codes(), prepare(2)) {
        MuxAction::StartPrepare { aborted, .. } => assert_eq!(aborted[&1].task, 11),
        other => panic!("{:?}", other),
    }
    streams.insert_prepare(2, ActivePrepare { task: 12, model_id: "m".to_string() });
    match handle_mux_message(&mut streams, &codes(), infer(3)) {
        MuxAction::StartInference { request, aborted } => {
            assert_eq!(request.image_id, Some("i".to_string()));
            assert_eq!(aborted[&2].task, 12);
            streams.insert_inference(3, ActiveInference { task: 13, model_id: request.model_id });
        }
        other => panic!("{:?}", other),
    }
    streams.insert_prepare(4, ActivePrepare { task: 14, model_id: "m".to_string() });
    let reply = failure(handle_mux_message(&mut streams, &codes(), infer(5)));
    assert_eq!(reply.code, ErrorCode::ModelBusy);
    assert_eq!(reply.message, "Maximum concurrent inferences (1) reached");
    assert_eq!(reply.retry_after_ms, Some(100));
    assert_eq!(streams.cancel_all_prepares().len(), 1);
    let cancel = ClientMessage::CancelInfer { request_id: 3 };
    assert!(matches!(
        handle_mux_message(&mut streams, &codes(), cancel),
        MuxAction::Abort(13)
    ));
    assert!(streams.can_start_inference());
    streams.remove_inference(3);
    streams.remove_prepare(4);
    assert!(streams.cancel_all_inferences().is_empty());
}

#[test]
fn backends_without_models_refuse_inference() {
    let mut streams = connection();
    let reply = failure(handle_message(
        &mut streams,
        &codes(),
        ClientMessage::CancelInfer { request_id: 6 },
    ));
    assert_eq!(reply.request_id, 6);
    assert_eq!(reply.code, ErrorCode::InvalidAction);
    assert_eq!(reply.message, "Inference is not supported by this backend");
    let set = ClientMessage::SetImage { request_id: 1, image_id: "x".to_string() };
    assert!(matches!(handle_message(&mut streams, &codes(), set), MuxAction::Send(_)));
    assert!(matches!(
        handle_message(&mut streams, &codes(), ClientMessage::Pong { timestamp: 1 }),
        MuxAction::Nothing
    ));
}

#[test]
fn connections_keep_their_limit() {
    let config = ServerConfig { max_connections: 2, ..ServerConfig::default() };
    let mut state = WebSocketState::new(config);
    assert_eq!(state.try_acquire_connection(), Some(0));
    assert_eq!(state.try_acquire_connection(), Some(1));
    assert_eq!(state.try_acquire_connection(), None);
    assert_eq!(state.connection_count(), 2);
    state.release_connection();
    assert_eq!(state.connection_count(), 1);
    assert_eq!(state.try_acquire_connection(), Some(2));
    let reply = reject_max_connections(2);
    assert_eq!(reply.request_id, 0);
    assert_eq!(reply.code, ErrorCode::MaxConnectionsReached);
    assert_eq!(reply.message, "Server at maximum connections (2). Please try again later.");
    assert_eq!(reply.retry_after_ms, Some(5000));
}

#[test]
fn silent_clients_time_out() {
    assert_eq!(elapsed_pong_seconds(1_000, 3_999), 2);
    assert_eq!(elapsed_pong_seconds(5_000, 1_000), 0);
    assert!(!pong_timeout_exceeded(0, 90_999, 90));
    assert!(pong_timeout_exceeded(0, 91_000, 90));
    assert!(!ping_enabled(0));
    assert!(ping_enabled(1));
    assert!(matches!(ping_step(&codes(), false, 0, 0, 90), PingStep::Stop));
    assert!(matches!(
        ping_step(&codes(), true, 0, 100_000, 90),
        PingStep::TimedOut { elapsed_secs: 100 }
    ));
    match ping_step(&codes(), true, 0, 5, 90) {
        PingStep::Send(frame) => {
            assert_eq!(frame, vec![2, 8, 0, 0, 0, 0, 5, 0, 0, 0, 0, 0, 0, 0])
        }
        other => panic!("{:?}", other),
    }
}

#[test]
fn received_texts_are_answered() {
    let text = |message: ClientMessage| SocketEvent::Text(Ok(message));
    assert!(matches!(
        handle_socket_event(true, text(ClientMessage::Pong { timestamp: 1 })),
        ReceiveStep::RecordPong
    ));
    assert!(matches!(
        handle_socket_event(true, text(ClientMessage::CancelStream { request_id: 4 })),
        ReceiveStep::Handle(ClientMessage::CancelStream { request_id: 4 })
    ));
    match handle_socket_event(true, SocketEvent::Text(Err("bad".to_string()))) {
        ReceiveStep::Reply(reply) => {
            assert_eq!(reply.request_id, 0);
            assert_eq!(reply.code, ErrorCode::InvalidRequest);
            assert_eq!(reply.message, "Invalid message: bad");
        }
        other => panic!("{:?}", other),
    }
    assert!(matches!(handle_socket_event(true, SocketEvent::Other), ReceiveStep::Continue));
    assert!(matches!(handle_socket_event(true, SocketEvent::Close), ReceiveStep::Stop));
    assert!(matches!(handle_socket_event(true, SocketEvent::Failed), ReceiveStep::Stop));
    assert!(matches!(handle_socket_event(false, SocketEvent::Other), ReceiveStep::Stop));
    let reply = stream_failure(3, &Error::ImageNotFound("x".to_string()));
    assert_eq!(reply.code, ErrorCode::InternalError);
    assert_eq!(reply.message, "Image not found: x");
}

#[test]
fn time_stamps_are_milliseconds() {
    assert_eq!(timestamp_ms(None), 0);
    assert_eq!(timestamp_ms(Some(12)), 12);
    assert_eq!(timestamp_ms(Some((1u128 << 64) + 7)), 7);
    let now = std::time::SystemTime::now()
        .duration_since(std::time::SystemTime::UNIX_EPOCH)
        .unwrap()
        .as_millis() as u64;
    let mut clock = KeepaliveClock::new();
    assert_eq!(clock.last_ms, clock.start_ms);
    let first = current_timestamp_ms(&mut clock);
    let second = current_timestamp_ms(&mut clock);
    assert!(first >= now && first < now + 60_000);
    assert!(first <= second);
    assert_eq!(clock.last_ms, second);
    assert_eq!(next_timestamp_ms(100, 100, 9), 109);
    assert_eq!(next_timestamp_ms(100, 150, 9), 150);
    assert_eq!(next_timestamp_ms(u64::MAX - 1, 5, 9), u64::MAX);
    let session = SessionState::default();
    assert_eq!((session.active_streams, session.memory_used), (0, 0));
    assert!(session.last_activity.elapsed().as_secs() < 60);
}
