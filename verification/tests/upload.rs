use hvat_backend::status::StatusCode;
use hvat_backend::upload::{
    build_upload_relative_path, enforce_file_count_limit, normalize_upload_path,
    split_upload_segments, upload_failure, FileUpload, UploadSession, UploadStep,
    MAX_UPLOAD_FILES, MAX_UPLOAD_FILE_BYTES,
};
use hvat_backend::upload_flow::{upload_step, UploadAction, UploadEvent, UploadField, UploadFlow};

#[test]
fn split_upload_segments_rejects_parent_traversal() {
    let err = split_upload_segments("../secret.png", false).expect_err("must fail");
    assert_eq!(err.0, StatusCode::BadRequest);
}

#[test]
fn split_upload_segments_normalizes_slashes() {
    let segments =
        split_upload_segments(r"folder\\nested/file.png", false).expect("should normalize");
    assert_eq!(segments, vec!["folder", "nested", "file.png"]);
}

#[test]
fn build_upload_relative_path_with_target_root() {
    let path = build_upload_relative_path("incoming", "sub/a.png").expect("should build");
    assert_eq!(path, "incoming/sub/a.png");
}

#[test]
fn normalize_upload_path_allows_empty_root() {
    let path = normalize_upload_path("", true).expect("should allow empty");
    assert!(path.is_empty());
}

#[test]
fn upload_paths_are_refused() {
    let message = |raw: &str| split_upload_segments(raw, false).unwrap_err().1;
    assert_eq!(message(""), "Upload path is empty");
    assert_eq!(message(" ./ "), "Upload path is empty");
    assert_eq!(message("/abs"), "Absolute upload paths are not allowed");
    assert_eq!(message("\\abs"), "Absolute upload paths are not allowed");
    assert_eq!(message("a/.."), "Upload path contains parent traversal ('..')");
    assert_eq!(message("a\0b"), "Upload path contains NUL byte");
    assert_eq!(message("c:/x"), "Upload path contains invalid ':' character");
    assert!(split_upload_segments("./", true).unwrap().is_empty());
    assert_eq!(normalize_upload_path(" a / . / b ", false).unwrap(), "a/b");
}

#[test]
fn normalising_twice_changes_nothing() {
    let once = normalize_upload_path("x\\ y /./z", false).unwrap();
    assert_eq!(once, "x/y/z");
    assert_eq!(normalize_upload_path(&once, false).unwrap(), once);
}

#[test]
fn uploads_keep_their_limits() {
    assert!(enforce_file_count_limit(MAX_UPLOAD_FILES).is_ok());
    let (status, message) = enforce_file_count_limit(MAX_UPLOAD_FILES + 1).unwrap_err();
    assert_eq!(status, StatusCode::PayloadTooLarge);
    assert_eq!(message, "Upload exceeds maximum of 2000 files");

    let mut session = UploadSession::new();
    let mut upload = session.begin_file(Some("a.png".to_string())).unwrap();
    assert!(session.accept_chunk(&mut upload, MAX_UPLOAD_FILE_BYTES).is_ok());
    let (status, message) = session.accept_chunk(&mut upload, 1).unwrap_err();
    assert_eq!(status, StatusCode::PayloadTooLarge);
    assert_eq!(message, "File 'a.png' exceeds per-file limit (536870912 bytes)");

    let mut session = UploadSession::new();
    for _ in 0..4 {
        let mut upload = session.begin_file(Some("a.png".to_string())).unwrap();
        assert!(session.accept_chunk(&mut upload, MAX_UPLOAD_FILE_BYTES).is_ok());
    }
    let mut upload = session.begin_file(Some("a.png".to_string())).unwrap();
    let (_, message) = session.accept_chunk(&mut upload, 1).unwrap_err();
    assert_eq!(message, "Upload exceeds total limit (2147483648 bytes)");
}

#[test]
fn temporary_names_are_fresh() {
    let upload = FileUpload { relative_path: "d/a.png".to_string(), file_bytes: 0 };
    assert_eq!(upload.temp_name_with("t"), ".a.png.uploading-t");
    let one = upload.fresh_temp_name();
    let two = upload.fresh_temp_name();
    assert!(one.starts_with(".a.png.uploading-"));
    assert_eq!(one.len(), ".a.png.uploading-".len() + 36);
    assert_ne!(one, two);
    assert_eq!(upload.check_not_empty().unwrap_err().1, "Uploaded file 'd/a.png' is empty");
    assert_eq!(upload.check_type(false).unwrap_err().1, "Unsupported file type: d/a.png");
}

#[test]
fn failed_steps_are_explained() {
    let (status, message) = upload_failure(UploadStep::NextField, "", "cut");
    assert_eq!((status, message.as_str()), (StatusCode::BadRequest, "Invalid multipart payload: cut"));
    let (status, message) = upload_failure(UploadStep::Finalize, "a.png", "disk");
    assert_eq!(status, StatusCode::InternalServerError);
    assert_eq!(message, "Failed to finalize upload 'a.png': disk");
}

#[test]
fn an_upload_runs_to_its_end() {
    let (flow, action) = upload_step(
        UploadFlow::start(),
        UploadEvent::NextField(Ok(Some(UploadField::TargetRoot))),
    );
    assert!(matches!(action, UploadAction::ReadText));
    let (flow, action) = upload_step(flow, UploadEvent::Text(Ok("in\\coming".to_string())));
    assert!(matches!(action, UploadAction::ReadField));
    let (flow, action) = upload_step(
        flow,
        UploadEvent::NextField(Ok(Some(UploadField::File {
            file_name: Some("a.png".to_string()),
        }))),
    );
    assert!(matches!(action, UploadAction::CheckType(ref path) if path == "in/coming/a.png"));
    let (flow, action) = upload_step(flow, UploadEvent::TypeSupported(true));
    match action {
        UploadAction::OpenTemp(path, temp) => {
            assert_eq!(path, "in/coming/a.png");
            assert!(temp.starts_with(".a.png.uploading-"));
        }
        other => panic!("{:?}", other),
    }
    let (flow, action) = upload_step(flow, UploadEvent::Opened(Ok(())));
    assert!(matches!(action, UploadAction::ReadChunk));
    let (flow, action) = upload_step(flow, UploadEvent::Chunk(Ok(Some(5))));
    assert!(matches!(action, UploadAction::WriteChunk));
    let (flow, action) = upload_step(flow, UploadEvent::Written(Ok(())));
    assert!(matches!(action, UploadAction::ReadChunk));
    let (flow, action) = upload_step(flow, UploadEvent::Chunk(Ok(None)));
    assert!(matches!(action, UploadAction::FlushTemp));
    let (flow, action) = upload_step(flow, UploadEvent::Flushed(Ok(())));
    assert!(matches!(action, UploadAction::RenameTemp(ref path) if path == "in/coming/a.png"));
    let (flow, action) = upload_step(flow, UploadEvent::Renamed(Ok(())));
    assert!(matches!(action, UploadAction::ReadField));
    let (_, action) = upload_step(flow, UploadEvent::NextField(Ok(None)));
    match action {
        UploadAction::Accept(files) => {
            assert_eq!(files.uploaded_count(), 1);
            assert_eq!(files.files, vec!["in/coming/a.png".to_string()]);
        }
        other => panic!("{:?}", other),
    }
}

#[test]
fn an_upload_is_refused() {
    let (_, action) = upload_step(UploadFlow::start(), UploadEvent::NextField(Ok(None)));
    match action {
        UploadAction::Reject { status, message, remove_temp } => {
            assert_eq!(status, StatusCode::BadRequest);
            assert_eq!(message, "No files were uploaded");
            assert!(!remove_temp);
        }
        other => panic!("{:?}", other),
    }
    let (flow, _) = upload_step(
        UploadFlow::start(),
        UploadEvent::NextField(Ok(Some(UploadField::File {
            file_name: Some("a.png".to_string()),
        }))),
    );
    let (flow, _) = upload_step(flow, UploadEvent::TypeSupported(true));
    let (flow, _) = upload_step(flow, UploadEvent::Opened(Ok(())));
    let (_, action) = upload_step(flow, UploadEvent::Chunk(Ok(None)));
    match action {
        UploadAction::Reject { message, remove_temp, .. } => {
            assert_eq!(message, "Uploaded file 'a.png' is empty");
            assert!(remove_temp);
        }
        other => panic!("{:?}", other),
    }
}

#[test]
fn accepted_files_are_told_in_order() {
    let mut flow = UploadFlow::start();
    for name in ["b.png", "sub/a.png"] {
        let field = UploadField::File { file_name: Some(name.to_string()) };
        for event in [
            UploadEvent::NextField(Ok(Some(field))),
            UploadEvent::TypeSupported(true),
            UploadEvent::Opened(Ok(())),
            UploadEvent::Chunk(Ok(Some(1))),
            UploadEvent::Written(Ok(())),
            UploadEvent::Chunk(Ok(None)),
            UploadEvent::Flushed(Ok(())),
            UploadEvent::Renamed(Ok(())),
        ] {
            flow = upload_step(flow, event).0;
        }
    }
    match upload_step(flow, UploadEvent::NextField(Ok(None))).1 {
        UploadAction::Accept(stored) => assert_eq!(stored.files, vec!["b.png", "sub/a.png"]),
        other => panic!("{:?}", other),
    }
}
