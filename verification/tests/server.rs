use hvat_backend::bytes::{push_le, read_le};
use hvat_backend::capabilities::{
    build_default_capabilities, build_plain_capabilities, build_server_capabilities,
    sam_capability, sam_model_name, DownloadMode,
};
use hvat_backend::config::{BaseCliArgs, CliArgs, ServerConfig};
use hvat_backend::error::Error;
use hvat_backend::json::Json;
use hvat_backend::ordering::{sort_by_path, text_le};
use hvat_backend::catalog::ImageInfo;
use hvat_backend::project_state::{
    check_project_state_bundle, check_project_state_length, project_state_failure,
    project_state_path, project_state_temp_path, validate_project_state_payload, StateStep,
    MAX_PROJECT_STATE_BYTES,
};
use hvat_backend::sam::ExecutionProvider;
use hvat_backend::sam_config;
use hvat_backend::status::StatusCode;
use hvat_backend::text::{
    contains_char, decimal_string, find_from, join, parse_usize, push_hex_fixed,
    push_padded_decimal, replace_char, same_text, split, starts_with, to_chars, trim,
};
use hvat_backend::startup::{sam_failure, sam_startup};

#[test]
fn default_capabilities_use_single_zip_download_mode() {
    let caps = build_default_capabilities(&ServerConfig::default(), 2, 8, "0.1.0".to_string());
    assert!(caps.features.downloads);
    assert_eq!(caps.download_mode, DownloadMode::SingleZip);
    assert!(!caps.supports_chunked_downloads());
}

#[test]
fn streaming_default_capabilities_use_single_zip_download_mode() {
    let caps = build_default_capabilities(&ServerConfig::default(), 2, 8, "0.1.0".to_string());
    assert!(caps.features.downloads);
    assert_eq!(caps.download_mode, DownloadMode::SingleZip);
    assert!(!caps.supports_chunked_downloads());
}

#[test]
fn default_capabilities_follow_the_configuration() {
    let config = ServerConfig { max_user_streams: 7, ..ServerConfig::default() };
    let caps = build_default_capabilities(&config, 2, 8, "0.1.0".to_string());
    assert_eq!(caps.server.name, "hvat-backend-simple");
    assert_eq!(caps.server.version, "0.1.0");
    assert_eq!(caps.limits.max_concurrent_streams, 7);
    assert_eq!(caps.limits.max_image_size, 2 * 1024 * 1024 * 1024);
    assert_eq!(caps.limits.max_concurrent_inferences, 0);
    assert_eq!(caps.features.thumbnails, Some(true));
}

#[test]
fn capabilities_without_models_disable_inference_and_sam() {
    let config = ServerConfig::default();
    let caps = build_server_capabilities(
        config.max_cache_memory,
        config.max_user_streams,
        Vec::new(),
        2,
        8,
        "0.1.0".to_string(),
    );
    assert!(caps.features.streaming);
    assert!(caps.features.project_state);
    assert!(caps.features.downloads);
    assert!(caps.supports_chunked_downloads());
    assert!(!caps.features.inference);
    assert!(!caps.features.sam);
    assert!(caps.models.is_empty());
    assert!(caps.find_sam_prompt_model().is_none());
}

#[test]
fn capabilities_with_a_model_offer_it() {
    let model = sam_capability("sam-base".to_string(), sam_model_name("Tiny"));
    let second = sam_capability("sam-other".to_string(), sam_model_name("Large"));
    let caps = build_server_capabilities(1, 4, vec![model, second], 2, 8, "0".to_string());
    assert!(caps.features.inference && caps.features.sam);
    assert_eq!(caps.limits.max_concurrent_inferences, 2);
    let found = caps.find_sam_prompt_model().unwrap();
    assert_eq!(found.id, "sam-base");
    assert_eq!(found.name, "Segment Anything (Tiny)");
    assert_eq!(found.inputs[1].field_type, "bbox");
    assert_eq!(found.embedding_time_ms, 1000);
    let plain = build_plain_capabilities(5, 4, Some("Tiny".to_string()), 2, 8);
    assert!(plain.sam_enabled);
    assert_eq!(plain.sam_model, "Tiny");
    assert_eq!(build_plain_capabilities(5, 4, None, 2, 8).sam_model, "");
}

fn base_args(name: Option<&str>, data_dir: &str) -> BaseCliArgs {
    BaseCliArgs {
        port: 1,
        data_dir: data_dir.to_string(),
        cache_dir: "c".to_string(),
        max_cache_mb: 3,
        max_streams: 4,
        max_connections: 5,
        ping_interval: 6,
        connection_timeout: 7,
        chunk_rows: 0,
        name: name.map(|n| n.to_string()),
    }
}

#[test]
fn configuration_follows_the_arguments() {
    let config = ServerConfig::from_cli(CliArgs { base: base_args(None, "./images/set/") });
    assert_eq!(config.project_name, "set");
    assert_eq!(config.max_cache_memory, 3 * 1024 * 1024);
    assert_eq!(config.stream_chunk_rows, 1);
    assert_eq!((config.ping_interval_secs, config.connection_timeout_secs), (6, 7));
    assert_eq!(ServerConfig::from_base_cli(base_args(Some("n"), "d")).project_name, "n");
    assert_eq!(ServerConfig::from_base_cli(base_args(None, "/")).project_name, "project");
}

fn sam_args() -> sam_config::CliArgs {
    sam_config::CliArgs {
        port: 1,
        data_dir: "d".to_string(),
        cache_dir: "c".to_string(),
        max_cache_mb: 1,
        max_user_mb: 2,
        max_streams: 4,
        max_connections: 5,
        ping_interval: 6,
        connection_timeout: 7,
        chunk_rows: 0,
        pyramid_concurrency: 0,
        name: None,
        sam_enabled: false,
        sam_model_dir: None,
        sam_variant: "tiny".to_string(),
        sam_provider: "auto".to_string(),
        sam_cache_size: 50,
    }
}

fn environment() -> sam_config::SamEnvironment<u8> {
    sam_config::SamEnvironment {
        default_model_dir: "models".to_string(),
        default_variant: 1,
        detected_provider: ExecutionProvider::Cuda,
    }
}

#[test]
fn segmentation_flags_need_segmentation() {
    type Config = sam_config::ServerConfig<u8>;
    assert!(Config::validate_sam_flags(&sam_args()).is_ok());
    let flags = sam_config::CliArgs {
        sam_variant: "large".to_string(),
        sam_model_dir: Some("m".to_string()),
        sam_cache_size: 3,
        ..sam_args()
    };
    let message = Config::validate_sam_flags(&flags).unwrap_err();
    assert_eq!(
        message,
        "\n\nERROR: SAM flags specified without --sam-enabled!\n\n\
         The following SAM flags were set:\n  \
         --sam-variant=large\n  --sam-model-dir=m\n  --sam-cache-size=3\n\n\
         But --sam-enabled was not specified (defaults to false).\n\n\
         To enable SAM, add --sam-enabled to your command:\n  \
         cargo run -p hvat_axum -- --sam-enabled \
         --sam-variant=large --sam-model-dir=m --sam-cache-size=3\n\n"
    );
    let enabled = sam_config::CliArgs { sam_enabled: true, ..flags };
    assert!(Config::validate_sam_flags(&enabled).is_ok());
    let config = Config::from_cli(enabled, Some(9), environment());
    assert_eq!(config.sam_model_dir, "m");
    assert_eq!(config.sam_variant, 9);
    assert_eq!(config.sam_provider, ExecutionProvider::Cuda);
    assert_eq!(config.stream_chunk_rows, 0);
    assert_eq!(config.pyramid_concurrency, 1);
    assert_eq!(config.max_user_memory, 2 * 1024 * 1024);
}

#[test]
fn segmentation_defaults() {
    type Config = sam_config::ServerConfig<u8>;
    let named = sam_config::CliArgs {
        sam_enabled: true,
        sam_provider: "what".to_string(),
        ..sam_args()
    };
    let config = Config::from_cli(named, None, environment());
    assert_eq!(config.sam_provider, ExecutionProvider::Cpu);
    assert_eq!(config.sam_variant, 1);
    assert_eq!(config.sam_model_dir, "models");
    let config = Config::with_defaults(environment());
    assert_eq!(config.max_user_memory, 500 * 1024 * 1024);
    assert_eq!(config.sam_provider, ExecutionProvider::Cpu);
    assert!(!config.sam_enabled);
}

#[test]
fn project_state_is_checked() {
    assert_eq!(project_state_path("d"), "d/.hvat/project_annotations.hvatbundle.json");
    assert_eq!(project_state_temp_path("d"), "d/.hvat/project_annotations.hvatbundle.tmp");
    assert!(validate_project_state_payload(Some(1), None));
    assert!(validate_project_state_payload(Some(0), Some(2)));
    assert!(!validate_project_state_payload(Some(0), None));
    let (status, message) = check_project_state_length(0).unwrap_err();
    assert_eq!((status, message.as_str()), (StatusCode::BadRequest, "Request body is empty"));
    assert!(check_project_state_length(MAX_PROJECT_STATE_BYTES).is_ok());
    let (status, message) = check_project_state_length(MAX_PROJECT_STATE_BYTES + 1).unwrap_err();
    assert_eq!(status, StatusCode::PayloadTooLarge);
    assert_eq!(message, "Project state payload exceeds limit of 67108864 bytes");
    assert!(check_project_state_bundle(true).is_ok());
    assert_eq!(
        check_project_state_bundle(false).unwrap_err().1,
        "Invalid native project bundle payload"
    );
    let (status, message) = project_state_failure(StateStep::Read, true, "gone");
    assert_eq!((status, message.as_str()), (StatusCode::NotFound, "No saved project state"));
    assert_eq!(
        project_state_failure(StateStep::Read, false, "e").1,
        "Failed to read saved project state: e"
    );
    assert_eq!(
        project_state_failure(StateStep::CreateDirectory, false, "e").1,
        "Failed to create state directory: e"
    );
    assert_eq!(
        project_state_failure(StateStep::WriteTemp, false, "e").1,
        "Failed to write temporary project state: e"
    );
    assert_eq!(
        project_state_failure(StateStep::Finalize, true, "e").1,
        "Failed to finalize project state save: e"
    );
}

#[test]
fn errors_are_answered() {
    let cases = [
        (Error::ImageNotFound("x".to_string()), "Image not found: x", 404),
        (Error::ProjectNotFound("x".to_string()), "Project not found: x", 404),
        (Error::UnsupportedFormat("x".to_string()), "Unsupported format: x", 400),
        (Error::InvalidImageData("x".to_string()), "Invalid image data: x", 400),
        (Error::PyramidNotReady("x".to_string()), "Pyramid not ready: x", 202),
        (Error::Io("x".to_string()), "IO error: x", 500),
        (Error::Image("x".to_string()), "Image processing error: x", 500),
        (Error::Internal("x".to_string()), "Internal error: x", 500),
    ];
    for (error, message, status) in cases {
        assert_eq!(error.message(), message);
        assert_eq!(error.status().as_u16(), status);
    }
}

#[test]
fn texts_are_taken_apart() {
    assert_eq!(trim("\u{a0}\t a b \u{3000}"), "a b");
    assert_eq!(split("a,,b", ','), vec!["a", "", "b"]);
    assert_eq!(join(&vec!["a".to_string(), "b".to_string()], "--"), "a--b");
    assert_eq!(replace_char("a\\b", '\\', '/'), "a/b");
    assert!(starts_with("id:1", "id:"));
    assert!(contains_char("a:b", ':'));
    assert!(same_text("é", "é") && !same_text("e", "é"));
    assert_eq!(decimal_string(0), "0");
    assert_eq!(decimal_string(u64::MAX), "18446744073709551615");
    assert_eq!(parse_usize("+12"), Some(12));
    assert_eq!(parse_usize("99999999999999999999"), None);
    assert_eq!(parse_usize("-1"), None);
    let mut out = String::new();
    push_padded_decimal(&mut out, 7, 3);
    push_hex_fixed(&mut out, 255, 4);
    assert_eq!(out, "00700ff");
    assert_eq!(find_from(&to_chars("abab"), &to_chars("ab"), 1), Some(2));
}

#[test]
fn numbers_are_little_endian() {
    let mut bytes = Vec::new();
    push_le(&mut bytes, 0x0102_0304, 4);
    assert_eq!(bytes, vec![4, 3, 2, 1]);
    assert_eq!(read_le(&bytes, 0, 4), 0x0102_0304);
    assert_eq!(read_le(&bytes, 1, 2), 0x0203);
}

#[test]
fn sorting_is_stable() {
    let item = |path: &str, id: &str| ImageInfo {
        id: id.to_string(),
        name: String::new(),
        path: path.to_string(),
        format: String::new(),
    };
    let sorted = sort_by_path(vec![item("b", "1"), item("a", "2"), item("b", "3"), item("a", "4")]);
    let ids: Vec<&str> = sorted.iter().map(|i| i.id.as_str()).collect();
    assert_eq!(ids, vec!["2", "4", "1", "3"]);
    assert!(text_le("Z", "a"));
}

#[test]
fn json_members_are_found() {
    let value = Json::Object(vec![(
        "a".to_string(),
        Json::Number { unsigned: None, signed: Some(-3) },
    )]);
    let member = value.get("a").unwrap();
    assert_eq!(member.as_i64(), Some(-3));
    assert_eq!(member.as_u64(), None);
    assert!(member.is_number());
    assert!(value.get("b").is_none());
    assert!(Json::Null.is_null());
}

#[test]
fn an_enabled_engine_must_be_there() {
    assert_eq!(sam_startup(false, Err("x".to_string())), Ok(false));
    assert_eq!(sam_startup(true, Ok(())), Ok(true));
    assert_eq!(sam_startup(true, Err("no models".to_string())), Err("no models".to_string()));
    let text = sam_failure("no models", "/m", "enc.onnx", "dec.onnx");
    assert!(text.contains("could not be initialized:\nno models\n\n"));
    assert!(text.contains("directory: /m\nExpected files:\n- enc.onnx\n- dec.onnx\n\nTo fix"));
}
