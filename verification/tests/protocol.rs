use hvat_backend::frame::FrameBuilder;
use hvat_backend::protocol::{
    encode_all_complete, encode_capabilities, encode_capabilities_v2, encode_error,
    encode_image_set, encode_infer_progress, encode_infer_result, encode_layer_chunk,
    encode_layer_chunk_mux, encode_layer_complete, encode_layer_complete_mux,
    encode_level_complete, encode_level_complete_mux, encode_model_ready, encode_ping,
    encode_plain_ping, encode_reset, encode_reset_mux, encode_stream_complete,
    encode_stream_error, truncate_utf8_to_u16, ErrorCode, ErrorReply, ServerMessageType,
    StreamMetadata, WireCodes,
};

const PROTOCOL_VERSION: u8 = 2;

fn codes() -> WireCodes {
    WireCodes {
        version: PROTOCOL_VERSION,
        metadata: 0x01,
        layer_chunk: 0x02,
        layer_complete: 0x03,
        level_complete: 0x04,
        error: 0x05,
        reset: 0x06,
        capabilities: 0x07,
        ping: 0x08,
        stream_complete: 0x09,
        stream_error: 0x0a,
        image_set: 0x0b,
        model_ready: 0x0c,
        infer_progress: 0x0d,
        infer_result: 0x0e,
    }
}

fn byte(kind: ServerMessageType) -> u8 {
    codes().to_byte(kind)
}

fn request_id(frame: &[u8]) -> u32 {
    u32::from_le_bytes([frame[2], frame[3], frame[4], frame[5]])
}

#[test]
fn encodes_header_and_payload() {
    let bytes = FrameBuilder::new()
        .with_header(2, 0x01, 42)
        .push_u16_le(7)
        .push_u32_le(99)
        .finish();

    assert_eq!(bytes[0], 2);
    assert_eq!(bytes[1], 0x01);
    assert_eq!(u32::from_le_bytes([bytes[2], bytes[3], bytes[4], bytes[5]]), 42);
    assert_eq!(u16::from_le_bytes([bytes[6], bytes[7]]), 7);
    assert_eq!(u32::from_le_bytes([bytes[8], bytes[9], bytes[10], bytes[11]]), 99);
}

#[test]
fn frame_builder_appends_every_width() {
    let bytes = FrameBuilder::new()
        .with_header(1, 2, 3)
        .reserve_payload(15)
        .push_u8(0xaa)
        .push_u64_le(0x0102_0304_0506_0708)
        .extend_bytes(&[9, 9])
        .finish();
    assert_eq!(
        bytes,
        vec![1, 2, 3, 0, 0, 0, 0xaa, 8, 7, 6, 5, 4, 3, 2, 1, 9, 9]
    );
}

#[test]
fn test_reset_encoding() {
    let reset = encode_reset(&codes());
    assert_eq!(reset.len(), 2);
    assert_eq!(reset[0], PROTOCOL_VERSION);
    assert_eq!(reset[1], byte(ServerMessageType::Reset));
}

#[test]
fn test_metadata_encoding() {
    let meta = StreamMetadata {
        width: 1024,
        height: 768,
        num_bands: 10,
        num_layers: 3,
        full_width: 2048,
        full_height: 1536,
    };
    let bytes = meta.to_bytes(&codes());

    assert_eq!(bytes.len(), 26);
    assert_eq!(bytes[0], PROTOCOL_VERSION);
    assert_eq!(bytes[1], byte(ServerMessageType::Metadata));
    assert_eq!(u32::from_le_bytes([bytes[2], bytes[3], bytes[4], bytes[5]]), 1024);
    assert_eq!(u32::from_le_bytes([bytes[6], bytes[7], bytes[8], bytes[9]]), 768);
}

#[test]
fn test_layer_chunk_encoding() {
    let data = vec![255u8, 128, 64, 32];
    let chunk = encode_layer_chunk(&codes(), 0, 0, 10, &data);

    assert_eq!(chunk[0], PROTOCOL_VERSION);
    assert_eq!(chunk[1], byte(ServerMessageType::LayerChunk));
    assert_eq!(u16::from_le_bytes([chunk[2], chunk[3]]), 0);
    assert_eq!(&chunk[12..], &data[..]);
}

#[test]
fn test_error_encoding() {
    let error = ErrorReply::retryable(
        0,
        ErrorCode::PyramidNotReady,
        "Pyramid is building".to_string(),
        5000,
    );
    let encoded = encode_error(&codes(), error.message.as_bytes());
    assert_eq!(encoded[0], PROTOCOL_VERSION);
    assert_eq!(encoded[1], byte(ServerMessageType::Error));
    assert_eq!(&encoded[2..], b"Pyramid is building");
    assert_eq!(error.retry_after_ms, Some(5000));
}

fn capabilities_json(name: &str, streams: u64, models: Vec<&str>) -> Vec<u8> {
    let mut server = serde_json::Map::new();
    server.insert("name".to_string(), serde_json::Value::from(name));
    let mut limits = serde_json::Map::new();
    limits.insert("max_concurrent_streams".to_string(), serde_json::Value::from(streams));
    let mut all = serde_json::Map::new();
    all.insert("protocol_version".to_string(), serde_json::Value::from(PROTOCOL_VERSION));
    all.insert("server".to_string(), serde_json::Value::Object(server));
    all.insert("limits".to_string(), serde_json::Value::Object(limits));
    all.insert("models".to_string(), serde_json::Value::from(models));
    serde_json::to_vec(&serde_json::Value::Object(all)).unwrap()
}

#[test]
fn test_capabilities_encoding() {
    let encoded = encode_capabilities(&codes(), &capabilities_json("hvat-axum", 4, vec!["sam-tiny"]));

    assert_eq!(encoded[0], PROTOCOL_VERSION);
    assert_eq!(encoded[1], byte(ServerMessageType::Capabilities));
    assert_eq!(request_id(&encoded), 0);

    let decoded: serde_json::Value = serde_json::from_slice(&encoded[6..]).unwrap();
    assert_eq!(decoded["protocol_version"], PROTOCOL_VERSION);
    assert_eq!(decoded["server"]["name"], "hvat-axum");
    assert_eq!(decoded["limits"]["max_concurrent_streams"], 4);
    assert_eq!(decoded["models"].as_array().unwrap().len(), 1);
    assert_eq!(decoded["models"][0], "sam-tiny");
}

#[test]
fn test_capabilities_encoding_v2() {
    let encoded = encode_capabilities_v2(&codes(), &capabilities_json("test-backend", 4, vec![]));
    assert_eq!(encoded[0], PROTOCOL_VERSION);
    assert_eq!(encoded[1], byte(ServerMessageType::Capabilities));
    assert_eq!(request_id(&encoded), 0);

    let decoded: serde_json::Value = serde_json::from_slice(&encoded[6..]).unwrap();
    assert_eq!(decoded["protocol_version"], PROTOCOL_VERSION);
    assert_eq!(decoded["server"]["name"], "test-backend");
}

#[test]
fn test_ping_encoding() {
    let timestamp = 123_456_789_u64;
    let encoded = encode_ping(&codes(), timestamp);
    assert_eq!(encoded[0], PROTOCOL_VERSION);
    assert_eq!(encoded[1], byte(ServerMessageType::Ping));
    assert_eq!(request_id(&encoded), 0);
    assert_eq!(
        u64::from_le_bytes([
            encoded[6], encoded[7], encoded[8], encoded[9], encoded[10], encoded[11], encoded[12],
            encoded[13]
        ]),
        timestamp
    );
    assert_eq!(encoded.len(), 14);
}

#[test]
fn plain_ping_has_no_request_id() {
    let encoded = encode_plain_ping(&codes(), 1);
    assert_eq!(
        encoded,
        vec![PROTOCOL_VERSION, byte(ServerMessageType::Ping), 1, 0, 0, 0, 0, 0, 0, 0]
    );
}

#[test]
fn test_reset_mux_encoding() {
    let reset = encode_reset_mux(&codes(), 42);
    assert_eq!(reset.len(), 6);
    assert_eq!(reset[0], PROTOCOL_VERSION);
    assert_eq!(reset[1], byte(ServerMessageType::Reset));
    assert_eq!(request_id(&reset), 42);
}

#[test]
fn protocol_test_reset_mux_encoding() {
    let reset = encode_reset_mux(&codes(), 42);
    assert_eq!(reset.len(), 6);
    assert_eq!(reset[0], PROTOCOL_VERSION);
    assert_eq!(reset[1], byte(ServerMessageType::Reset));
    assert_eq!(request_id(&reset), 42);
}

#[test]
fn test_metadata_mux_encoding() {
    let meta = StreamMetadata {
        width: 1024,
        height: 768,
        num_bands: 10,
        num_layers: 3,
        full_width: 2048,
        full_height: 1536,
    };
    let bytes = meta.to_bytes_mux(&codes(), 123);

    assert_eq!(bytes.len(), 30);
    assert_eq!(bytes[0], PROTOCOL_VERSION);
    assert_eq!(bytes[1], byte(ServerMessageType::Metadata));
    assert_eq!(request_id(&bytes), 123);
    assert_eq!(u32::from_le_bytes([bytes[6], bytes[7], bytes[8], bytes[9]]), 1024);
    assert_eq!(u32::from_le_bytes([bytes[26], bytes[27], bytes[28], bytes[29]]), 1536);
}

#[test]
fn test_layer_chunk_mux_encoding() {
    let data = vec![255u8, 128, 64, 32];
    let chunk = encode_layer_chunk_mux(&codes(), 42, 0, 0, 10, &data);

    assert_eq!(chunk[0], PROTOCOL_VERSION);
    assert_eq!(chunk[1], byte(ServerMessageType::LayerChunk));
    assert_eq!(request_id(&chunk), 42);
    assert_eq!(u16::from_le_bytes([chunk[6], chunk[7]]), 0);
    assert_eq!(&chunk[16..], &data[..]);
}

#[test]
fn test_stream_complete_encoding() {
    let complete = encode_stream_complete(&codes(), 99);
    assert_eq!(complete.len(), 6);
    assert_eq!(complete[0], PROTOCOL_VERSION);
    assert_eq!(complete[1], byte(ServerMessageType::StreamComplete));
    assert_eq!(request_id(&complete), 99);
}

#[test]
fn protocol_test_stream_complete_encoding() {
    let complete = encode_stream_complete(&codes(), 99);
    assert_eq!(complete.len(), 6);
    assert_eq!(complete[0], PROTOCOL_VERSION);
    assert_eq!(complete[1], byte(ServerMessageType::StreamComplete));
    assert_eq!(request_id(&complete), 99);
}

#[test]
fn test_stream_error_encoding() {
    let error = ErrorReply::error(42, ErrorCode::ImageNotFound, "Image not found".to_string());
    let encoded = encode_stream_error(&codes(), error.request_id, error.message.as_bytes());

    assert_eq!(encoded[0], PROTOCOL_VERSION);
    assert_eq!(encoded[1], byte(ServerMessageType::StreamError));
    assert_eq!(request_id(&encoded), 42);
    assert_eq!(&encoded[6..], b"Image not found");
    assert_eq!(error.code, ErrorCode::ImageNotFound);
    assert_eq!(error.retry_after_ms, None);
}

#[test]
fn test_model_ready_encoding() {
    let encoded = encode_model_ready(&codes(), 77, "sam-base");
    assert_eq!(encoded[0], PROTOCOL_VERSION);
    assert_eq!(encoded[1], byte(ServerMessageType::ModelReady));
    assert_eq!(request_id(&encoded), 77);

    let payload_len = u16::from_le_bytes([encoded[6], encoded[7]]) as usize;
    assert_eq!(payload_len, "sam-base".len());
    assert_eq!(&encoded[8..], b"sam-base");
}

#[test]
fn test_infer_progress_encoding() {
    let encoded = encode_infer_progress(&codes(), 5, 42, "embedding");
    assert_eq!(encoded[0], PROTOCOL_VERSION);
    assert_eq!(encoded[1], byte(ServerMessageType::InferProgress));
    assert_eq!(request_id(&encoded), 5);
    assert_eq!(encoded[6], 42);

    let len = u16::from_le_bytes([encoded[7], encoded[8]]) as usize;
    assert_eq!(len, "embedding".len());
    assert_eq!(&encoded[9..], b"embedding");
}

#[test]
fn test_infer_result_encoding() {
    let payload = r#"{"ok":true}"#;
    let encoded = encode_infer_result(&codes(), 9, payload);
    assert_eq!(encoded[0], PROTOCOL_VERSION);
    assert_eq!(encoded[1], byte(ServerMessageType::InferResult));
    assert_eq!(request_id(&encoded), 9);
    assert_eq!(&encoded[6..], payload.as_bytes());
}

#[test]
fn image_set_carries_the_image() {
    let encoded = encode_image_set(&codes(), 7, "img");
    assert_eq!(
        encoded,
        vec![PROTOCOL_VERSION, byte(ServerMessageType::ImageSet), 7, 0, 0, 0, 3, 0, b'i', b'm', b'g']
    );
}

#[test]
fn long_texts_are_cut_at_a_character() {
    assert_eq!(truncate_utf8_to_u16("short"), "short");
    // 32767 characters of two bytes, then one that would reach byte 65536.
    let long = "é".repeat(32_768);
    assert_eq!(truncate_utf8_to_u16(&long).len(), 65_534);
    let encoded = encode_image_set(&codes(), 1, &long);
    assert_eq!(u16::from_le_bytes([encoded[6], encoded[7]]) as usize, 65_534);
    assert_eq!(encoded.len(), 8 + 65_534);
}

#[test]
fn completions_carry_their_number() {
    assert_eq!(
        encode_layer_complete(&codes(), 0x0102),
        vec![PROTOCOL_VERSION, byte(ServerMessageType::LayerComplete), 2, 1]
    );
    assert_eq!(
        encode_level_complete(&codes(), 3),
        vec![PROTOCOL_VERSION, byte(ServerMessageType::LevelComplete), 3]
    );
    assert_eq!(
        encode_layer_complete_mux(&codes(), 1, 0x0102),
        vec![PROTOCOL_VERSION, byte(ServerMessageType::LayerComplete), 1, 0, 0, 0, 2, 1]
    );
    assert_eq!(
        encode_level_complete_mux(&codes(), 1, 3),
        vec![PROTOCOL_VERSION, byte(ServerMessageType::LevelComplete), 1, 0, 0, 0, 3]
    );
    assert_eq!(encode_all_complete(&codes())[0], PROTOCOL_VERSION);
}
