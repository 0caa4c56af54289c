use hvat_backend::protocol::{StreamMetadata, WireCodes};
use hvat_backend::pyramid::builder::{
    build_steps, number_levels, pyramid_metadata, BuildStep, DefaultBandPacker, LevelInfo,
    PackedLevel, PyramidMetadata,
};
use hvat_backend::pyramid::levels::{
    calculate_level_dimensions, calculate_level_size, calculate_num_levels,
    calculate_pyramid_levels, next_level_size, LevelSize,
};
use hvat_backend::pyramid::storage::{
    building_mark, encode_level, failed_mark, get_status, has_pyramid, image_hash_text,
    parse_level, ready_mark, FilesystemStorage, LevelFileError, PyramidStatus,
};
use hvat_backend::error::Error;
use hvat_backend::startup::{
    concurrency_limit, pregenerate_step, pyramid_task_step, tally, BuildEvent, BuildTask,
    PregenEvent, PregenOutcome, PregenStep, PregenTally,
};
use hvat_backend::streaming::{
    batch_stage, cached_max_level, check_layers, layer_frames, level_batch, level_ending,
    level_opening, level_source, num_layers, plain_level_source, plain_pyramid_stream_level,
    pyramid_stream_level, send_failure, source_max_level, source_stream_levels, source_stream_metadata,
    stream_levels,
    FrameStage, FrameStyle, LevelRequest, LevelSource, SendFailure,
};

#[test]
fn test_calculate_num_levels() {
    assert_eq!(calculate_num_levels(256, 256), 1);
    assert_eq!(calculate_num_levels(128, 128), 1);
    assert_eq!(calculate_num_levels(512, 512), 2);
    assert_eq!(calculate_num_levels(1024, 1024), 3);
    assert_eq!(calculate_num_levels(4096, 4096), 5);
}

#[test]
fn test_calculate_level_dimensions() {
    let (w, h) = calculate_level_dimensions(1024, 1024, 0);
    assert_eq!((w, h), (1024, 1024));
    let (w, h) = calculate_level_dimensions(1024, 1024, 1);
    assert_eq!((w, h), (512, 512));
    let (w, h) = calculate_level_dimensions(1024, 1024, 2);
    assert_eq!((w, h), (256, 256));
}

#[test]
fn test_calculate_level_size() {
    assert_eq!(calculate_level_size(1024, 1024, 0), (1024, 1024));
    assert_eq!(calculate_level_size(1024, 1024, 1), (512, 512));
    assert_eq!(calculate_level_size(1024, 1024, 2), (256, 256));
}

#[test]
fn level_counts_at_the_edges() {
    assert_eq!(calculate_num_levels(0, 0), 1);
    assert_eq!(calculate_num_levels(257, 1), 2);
    assert_eq!(calculate_num_levels(1, 513), 3);
    assert_eq!(calculate_num_levels(u32::MAX, 1), 25);
    assert_eq!(calculate_level_size(1024, 3, 4), (64, 1));
    assert_eq!(calculate_level_size(u32::MAX, u32::MAX, 31), (1, 1));
    assert_eq!(calculate_level_size(u32::MAX, 7, 32), (1, 1));
    assert_eq!(calculate_level_dimensions(u32::MAX, 7, u32::MAX), (1, 1));
    assert_eq!(calculate_level_size(0, 5, 0), (0, 5));
    assert_eq!(source_max_level(1024, 1024), 2);
}

#[test]
fn levels_halve_rounding_up() {
    assert_eq!(
        calculate_pyramid_levels(513, 100),
        vec![
            LevelSize { level: 0, width: 513, height: 100 },
            LevelSize { level: 1, width: 257, height: 50 },
            LevelSize { level: 2, width: 129, height: 25 },
        ]
    );
    assert_eq!(next_level_size(513, 100), Some((257, 50)));
    assert_eq!(next_level_size(256, 256), None);
}

#[test]
fn level_files_round_trip() {
    let layers = vec![(0u32, vec![1u8, 2, 3]), (7, vec![]), (9, vec![255])];
    let data = encode_level(&layers);
    assert_eq!(&data[..4], &3u32.to_le_bytes());
    assert_eq!(parse_level(&data).unwrap(), layers);
    let mut cut = data.clone();
    cut.pop();
    assert_eq!(parse_level(&cut), Err(LevelFileError::TruncatedLayer));
    for n in 0..data.len() {
        assert!(parse_level(&data[..n].to_vec()).is_err());
    }
    assert_eq!(parse_level(&vec![1, 0, 0]), Err(LevelFileError::TooSmall));
    assert_eq!(parse_level(&vec![1, 0, 0, 0, 9]), Err(LevelFileError::TruncatedFile));
    assert!(!LevelFileError::TooSmall.message().is_empty());
}

#[test]
fn status_marks_are_read_back() {
    assert_eq!(get_status(&None), PyramidStatus::Pending);
    assert_eq!(get_status(&Some(building_mark())), PyramidStatus::Building);
    assert_eq!(get_status(&Some(ready_mark())), PyramidStatus::Ready);
    assert_eq!(get_status(&Some(failed_mark("disk full"))), PyramidStatus::Failed);
    assert_eq!(get_status(&Some("what".to_string())), PyramidStatus::Pending);
    assert!(has_pyramid(&Some(ready_mark())));
    assert!(!has_pyramid(&None));
}

#[test]
fn pyramids_are_stored_by_hash() {
    let storage = FilesystemStorage::new("cache".to_string());
    assert_eq!(storage.pyramid_dir("ab"), "cache/ab");
    assert_eq!(storage.metadata_path("ab"), "cache/ab/meta.json");
    assert_eq!(storage.level_path("ab", 3), "cache/ab/level_3.bin");
    assert_ne!(storage.level_path("ab", 3), storage.level_path("ab", 4));
    assert_eq!(storage.status_path("ab"), "cache/ab/status");
    assert_eq!(storage.progress_path("ab"), "cache/ab/progress.json");
    assert_eq!(image_hash_text(0xabc), "0000000000000abc");
}

fn packed(width: u32, height: u32) -> PackedLevel {
    let size = (4 * width * height) as usize;
    PackedLevel { width, height, layers: vec![(0, vec![1; size]), (1, vec![2; size])] }
}

#[test]
fn built_levels_are_described() {
    let _packer = DefaultBandPacker::new();
    let levels = number_levels(vec![packed(4, 2), packed(2, 1)]);
    assert_eq!(levels[1].level, 1);
    assert_eq!(levels[1].num_layers, 2);
    assert_eq!(levels[0].size_bytes(), 64);
    let meta = pyramid_metadata(4, 2, 5, &levels, "hash", 77);
    assert_eq!(meta.full_width, 4);
    assert_eq!(meta.num_bands, 5);
    assert_eq!(meta.source_hash, "hash");
    assert_eq!(meta.created_at, 77);
    assert_eq!(meta.levels[1].size_bytes, 16);
    assert_eq!(
        build_steps(2),
        vec![
            BuildStep::MarkBuilding,
            BuildStep::SaveLevel(0),
            BuildStep::SaveLevel(1),
            BuildStep::SaveMetadata,
            BuildStep::MarkReady,
        ]
    );
}

#[test]
fn progressive_streams_grow_to_their_target() {
    let level = |level: u32, send_reset: bool| LevelRequest { level, send_reset };
    assert_eq!(stream_levels(0, 2, true), vec![level(2, true), level(1, false), level(0, false)]);
    assert_eq!(stream_levels(1, 2, true), vec![level(2, true), level(1, false)]);
    assert_eq!(stream_levels(9, 2, true), vec![level(2, true)]);
    assert_eq!(stream_levels(1, 2, false), vec![level(1, true)]);
    assert_eq!(stream_levels(9, 2, false), vec![level(2, true)]);
    assert_eq!(
        source_stream_levels(0, 2, true),
        vec![level(2, true), level(1, false), level(0, false)]
    );
    assert_eq!(source_stream_levels(1, 2, true), vec![level(2, true), level(1, false)]);
    assert_eq!(source_stream_levels(2, 2, false), vec![level(2, true)]);
}

#[test]
fn levels_come_from_the_pyramid_once_it_is_ready() {
    assert_eq!(level_source(PyramidStatus::Ready, false), LevelSource::Pyramid);
    assert_eq!(
        level_source(PyramidStatus::Building, false),
        LevelSource::Source { start_build: false }
    );
    assert_eq!(
        level_source(PyramidStatus::Failed, false),
        LevelSource::Source { start_build: true }
    );
    assert_eq!(
        level_source(PyramidStatus::Pending, true),
        LevelSource::Source { start_build: false }
    );
    assert_eq!(plain_level_source(PyramidStatus::Building, false), LevelSource::NotReady);
}

fn metadata() -> PyramidMetadata {
    let level = |level: u32, width: u32, height: u32| LevelInfo {
        level,
        width,
        height,
        num_layers: 2,
        size_bytes: 1,
    };
    PyramidMetadata {
        full_width: 512,
        full_height: 300,
        num_bands: 3,
        levels: vec![level(0, 512, 300), level(1, 256, 150)],
        source_hash: "h".to_string(),
        created_at: 0,
    }
}

#[test]
fn cached_levels_are_clamped() {
    assert_eq!(cached_max_level(&metadata()), 1);
    let (level, meta) = pyramid_stream_level(&metadata(), 7, 8).unwrap();
    assert_eq!(level, 1);
    assert_eq!(
        meta,
        StreamMetadata {
            width: 256,
            height: 150,
            num_bands: 3,
            num_layers: 2,
            full_width: 512,
            full_height: 300,
        }
    );
    let empty = PyramidMetadata { levels: Vec::new(), ..metadata() };
    match pyramid_stream_level(&empty, 0, 8) {
        Err(Error::Internal(text)) => assert_eq!(text, "Pyramid level 0 not found"),
        other => panic!("{:?}", other),
    }
    match plain_pyramid_stream_level(&empty, 0, 8) {
        Err(Error::Internal(text)) => {
            assert_eq!(text, "Pyramid level 0 not found (available: 0-0)")
        }
        other => panic!("{:?}", other),
    }
}

fn codes() -> WireCodes {
    WireCodes {
        version: 2,
        metadata: 1,
        layer_chunk: 2,
        layer_complete: 3,
        level_complete: 4,
        error: 5,
        reset: 6,
        capabilities: 7,
        ping: 8,
        stream_complete: 9,
        stream_error: 10,
        image_set: 11,
        model_ready: 12,
        infer_progress: 13,
        infer_result: 14,
    }
}

#[test]
fn a_level_is_sent_in_order() {
    let meta = source_stream_metadata(1, 5, 3, 2, 10);
    assert_eq!(meta.num_layers, 2);
    assert_eq!((meta.width, meta.height, meta.full_width, meta.full_height), (1, 5, 2, 10));
    let layers = vec![(0u32, (0u8..20).collect::<Vec<u8>>()), (1, vec![9; 20])];
    assert!(check_layers(&layers, 1, 5));
    assert!(!check_layers(&layers, 2, 5));
    let request = LevelRequest { level: 1, send_reset: true };
    let style = FrameStyle::Mux(5);
    let opening = level_batch(&codes(), style, request, &meta, &layers, 2, 0);
    assert_eq!(opening, level_opening(&codes(), style, true, &meta));
    assert_eq!(opening.len(), 2);
    assert_eq!(opening[0][1], 6);
    let first = level_batch(&codes(), style, request, &meta, &layers, 2, 1);
    // Rows 0..2, 2..4, 4..5 and the end of the layer.
    assert_eq!(first.len(), 4);
    assert_eq!(first, layer_frames(&codes(), style, 0, &layers[0].1, 1, 5, 2));
    let mut together = Vec::new();
    for frame in &first[..3] {
        assert_eq!(frame[1], 2);
        together.extend_from_slice(&frame[16..]);
    }
    assert_eq!(together, layers[0].1);
    assert_eq!(first[3][1], 3);
    let last = level_batch(&codes(), style, request, &meta, &layers, 2, 3);
    assert_eq!(last, vec![level_ending(&codes(), style, 1)]);
    assert_eq!(batch_stage(request, 2, 0, 0), FrameStage::Reset);
    assert_eq!(batch_stage(request, 2, 0, 1), FrameStage::Metadata);
    assert_eq!(batch_stage(request, 2, 2, 0), FrameStage::Layer);
    assert_eq!(batch_stage(request, 2, 3, 0), FrameStage::End);
    let plain = layer_frames(&codes(), FrameStyle::Plain, 0, &layers[0].1, 1, 5, 100);
    assert_eq!(plain.len(), 2);
    assert_eq!(&plain[0][12..], &layers[0].1[..]);
}

#[test]
fn lost_clients_are_noticed_where_it_matters() {
    match send_failure(FrameStage::Reset) {
        SendFailure::Fail(Error::Internal(text)) => assert_eq!(text, "Failed to send reset"),
        other => panic!("{:?}", other),
    }
    match send_failure(FrameStage::Metadata) {
        SendFailure::Fail(Error::Internal(text)) => assert_eq!(text, "Failed to send metadata"),
        other => panic!("{:?}", other),
    }
    assert!(matches!(send_failure(FrameStage::Layer), SendFailure::Stop));
    assert!(matches!(send_failure(FrameStage::End), SendFailure::Ignore));
}

#[test]
fn at_least_two_layers() {
    assert_eq!(num_layers(0), 2);
    assert_eq!(num_layers(8), 2);
    assert_eq!(num_layers(9), 3);
}

#[test]
fn pyramids_are_built_beforehand() {
    let finish = |outcome: PregenOutcome, mark: bool| PregenStep::Finish { outcome, mark };
    assert_eq!(pregenerate_step(PregenEvent::Hashed(true)), PregenStep::CheckStatus);
    assert_eq!(
        pregenerate_step(PregenEvent::Hashed(false)),
        finish(PregenOutcome::Failed, false)
    );
    assert_eq!(
        pregenerate_step(PregenEvent::Status(PyramidStatus::Building)),
        finish(PregenOutcome::Skipped, false)
    );
    assert_eq!(
        pregenerate_step(PregenEvent::Status(PyramidStatus::Failed)),
        PregenStep::FindLoader
    );
    assert_eq!(pregenerate_step(PregenEvent::Loader(true)), PregenStep::Load);
    assert_eq!(pregenerate_step(PregenEvent::Loaded(true)), PregenStep::Build);
    assert_eq!(
        pregenerate_step(PregenEvent::Saved(true)),
        finish(PregenOutcome::Generated, false)
    );
    assert_eq!(
        pregenerate_step(PregenEvent::Saved(false)),
        finish(PregenOutcome::Failed, true)
    );
    let outcomes = vec![
        PregenOutcome::Generated,
        PregenOutcome::Failed,
        PregenOutcome::Generated,
        PregenOutcome::Skipped,
    ];
    assert_eq!(tally(&outcomes), PregenTally { generated: 2, skipped: 1, failed: 1 });
    assert_eq!(concurrency_limit(0), 1);
    assert_eq!(concurrency_limit(3), 3);
}

#[test]
fn builds_note_why_they_failed() {
    assert!(matches!(pyramid_task_step(BuildEvent::Loader(true)), BuildTask::Load));
    assert!(matches!(pyramid_task_step(BuildEvent::Loader(false)), BuildTask::Finish));
    assert!(matches!(pyramid_task_step(BuildEvent::Loaded(Ok(()))), BuildTask::Build));
    match pyramid_task_step(BuildEvent::Saved(Err("full".to_string()))) {
        BuildTask::MarkFailed(cause) => assert_eq!(cause, "full"),
        other => panic!("{:?}", other),
    }
}
