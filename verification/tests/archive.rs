use std::io::{Cursor, Read};
use std::path::PathBuf;

use hvat_backend::archive::{
    build_chunked_download_plan, build_images_zip, build_project_archive, build_whole_images_zip,
    build_whole_project_archive, collect_image_entries, download_plan_response,
    partition_image_entries, requires_zip64, resolve_part_size_bytes,
    sanitize_filename_component, select_part, sorted_image_entries, ArchiveError, DownloadQuery,
    FileContents, ImageEntry, UnreadFile, ZIP32_MAX_BYTES,
};
use hvat_backend::catalog::{DirNode, FileNode};

const MB: u64 = 1024 * 1024;

fn file(relative: &str, size_bytes: u64) -> DirNode {
    DirNode::File(FileNode {
        relative_path: relative.to_string(),
        file_name: None,
        extension: None,
        supported: true,
        size_bytes,
        path: PathBuf::from(format!("/data/{}", relative)),
    })
}

fn entry(relative: &str, size_bytes: u64) -> ImageEntry {
    ImageEntry {
        relative_path: relative.to_string(),
        file_path: PathBuf::from(relative),
        size_bytes,
    }
}

fn unzip(bytes: Vec<u8>, name: &str) -> String {
    let mut archive = zip::ZipArchive::new(Cursor::new(bytes)).expect("open generated archive");
    let mut zipped = archive.by_name(name).expect("zip entry exists");
    let mut content = String::new();
    zipped.read_to_string(&mut content).expect("read zipped content");
    content
}

#[test]
fn zip64_enabled_for_entries_over_4gib() {
    assert!(!requires_zip64(ZIP32_MAX_BYTES));
    assert!(requires_zip64(ZIP32_MAX_BYTES + 1));
}

#[test]
fn archive_zip64_enabled_for_entries_over_4gib() {
    assert!(!requires_zip64(ZIP32_MAX_BYTES));
    assert!(requires_zip64(ZIP32_MAX_BYTES + 1));
}

#[test]
fn build_images_zip_writes_expected_entry_contents() {
    let entries = vec![entry("nested/source.bin", 6)];
    let zip_bytes = build_images_zip(&entries, &|_: &ImageEntry| {
        FileContents::Bytes(b"abc123".to_vec())
    })
    .expect("build zip");
    assert_eq!(unzip(zip_bytes, "nested/source.bin"), "abc123");
}

#[test]
fn build_images_zip_error_includes_relative_path_context() {
    let entries = vec![entry("missing.bin", 16)];
    let err = build_images_zip(&entries, &|e: &ImageEntry| FileContents::OpenFailed {
        path: format!("{:?}", e.file_path),
        error: "no such file".to_string(),
    })
    .expect_err("missing file should fail");
    assert!(err.contains("Failed to open"));
    assert!(err.contains("missing.bin"));
}

#[test]
fn zip_members_keep_order_mode_and_bytes() {
    let entries = vec![entry("b.bin", 3), entry("a.bin", 0)];
    let bytes = build_images_zip(&entries, &|e: &ImageEntry| {
        FileContents::Bytes(e.relative_path.clone().into_bytes())
    })
    .unwrap();
    let mut archive = zip::ZipArchive::new(Cursor::new(bytes)).unwrap();
    assert_eq!(archive.len(), 2);
    let first = archive.by_index(0).unwrap();
    assert_eq!(first.name(), "b.bin");
    assert_eq!(first.compression(), zip::CompressionMethod::Stored);
    assert_eq!(first.unix_mode().unwrap() & 0o777, 0o644);
    assert_eq!(first.size(), 5);
}

#[test]
fn duplicate_and_unreadable_members_fail() {
    let twice = vec![entry("a.bin", 1), entry("a.bin", 1)];
    let err = build_images_zip(&twice, &|_: &ImageEntry| FileContents::Bytes(vec![1])).unwrap_err();
    assert_eq!(
        err,
        "Failed to add 'a.bin' to zip: invalid Zip archive: Duplicate filename: a.bin"
    );
    let err = build_images_zip(&vec![entry("r.bin", 1)], &|_: &ImageEntry| {
        FileContents::ReadFailed("broken".to_string())
    })
    .unwrap_err();
    assert!(err.contains("r.bin") && err.contains("broken"));
}

#[test]
fn the_first_file_that_cannot_be_opened_is_named() {
    let entries = vec![entry("a.bin", 1), entry("b.bin", 1), entry("c.bin", 1)];
    let err = build_images_zip(&entries, &|e: &ImageEntry| {
        if e.relative_path == "a.bin" {
            FileContents::Bytes(vec![1])
        } else {
            FileContents::OpenFailed { path: "p".to_string(), error: "gone".to_string() }
        }
    })
    .unwrap_err();
    assert_eq!(err, "Failed to open 'b.bin' from 'p': gone");
    let nodes = vec![file("b.png", 1), file("a.png", 1)];
    let failed = build_project_archive(&nodes, "p", &|_: &ImageEntry| FileContents::OpenFailed {
        path: "p".to_string(),
        error: "gone".to_string(),
    });
    match failed {
        Err(ArchiveError::BuildFailed(message)) => {
            assert_eq!(message, "Failed to open 'a.png' from 'p': gone")
        }
        other => panic!("{:?}", other),
    }
}

#[test]
fn files_that_are_read_whole_are_archived() {
    let entries = vec![entry("b.bin", ZIP32_MAX_BYTES + 1), entry("a.bin", 0)];
    let bytes = build_whole_images_zip(&entries, &|e: &ImageEntry| {
        Ok(e.relative_path.clone().into_bytes())
    })
    .unwrap();
    assert_eq!(unzip(bytes, "a.bin"), "a.bin");
    let twice = vec![entry("a.bin", 1), entry("a.bin", 1)];
    assert_eq!(
        build_whole_images_zip(&twice, &|_: &ImageEntry| Ok(vec![1])).unwrap_err(),
        "Failed to add file to zip: invalid Zip archive: Duplicate filename: a.bin"
    );
    let unread = |e: &ImageEntry| {
        if e.relative_path == "a.png" {
            Ok(vec![1])
        } else {
            Err(UnreadFile { path: "\"p\"".to_string(), error: "gone".to_string() })
        }
    };
    let nodes = vec![file("b.png", 1), file("a.png", 1)];
    match build_whole_project_archive(&nodes, "p", &unread) {
        Err(ArchiveError::BuildFailed(message)) => {
            assert_eq!(message, "Failed to read \"p\": gone")
        }
        other => panic!("{:?}", other),
    }
    let archive = build_whole_project_archive(&vec![file("a.png", 1)], "p", &unread).unwrap();
    assert_eq!(archive.filename, "p_images.zip");
    assert!(matches!(
        build_whole_project_archive(&Vec::new(), "p", &unread),
        Err(ArchiveError::NoImages)
    ));
}

#[test]
fn announced_large_files_can_be_archived() {
    let entries = vec![entry("large.bin", ZIP32_MAX_BYTES + 1), entry("empty.bin", 0)];
    let bytes = build_images_zip(&entries, &|e: &ImageEntry| {
        FileContents::Bytes(if e.size_bytes > 0 { b"abc".to_vec() } else { Vec::new() })
    })
    .unwrap();
    assert_eq!(unzip(bytes.clone(), "large.bin"), "abc");
    assert_eq!(unzip(bytes, "empty.bin"), "");
    let none = build_images_zip(&Vec::new(), &|_: &ImageEntry| FileContents::Bytes(Vec::new()));
    assert!(none.is_ok());
}

#[test]
fn project_archive_is_named_after_the_project() {
    let nodes = vec![file("b.png", 1), file("a.png", 1)];
    let archive = build_project_archive(&nodes, " my:project ", &|e: &ImageEntry| {
        FileContents::Bytes(e.relative_path.clone().into_bytes())
    })
    .unwrap();
    assert_eq!(archive.filename, "my_project_images.zip");
    assert_eq!(unzip(archive.bytes, "a.png"), "a.png");
    let none = build_project_archive(&Vec::new(), "p", &|_: &ImageEntry| {
        FileContents::Bytes(Vec::new())
    });
    assert!(matches!(none, Err(ArchiveError::NoImages)));
}

#[test]
fn file_names_are_sanitised() {
    assert_eq!(sanitize_filename_component("a/b\\c:d*e?f\"g<h>i|j"), "a_b_c_d_e_f_g_h_i_j");
    assert_eq!(sanitize_filename_component("  "), "project");
    assert_eq!(sanitize_filename_component(" x "), "x");
}

#[test]
fn part_sizes_are_clamped() {
    assert_eq!(resolve_part_size_bytes(None), 256 * MB);
    assert_eq!(resolve_part_size_bytes(Some(1)), 16 * MB);
    assert_eq!(resolve_part_size_bytes(Some(5000)), 1024 * MB);
    assert_eq!(resolve_part_size_bytes(Some(100)), 100 * MB);
    assert_eq!(DownloadQuery::default().part_size_mb, None);
}

#[test]
fn parts_hold_what_fits() {
    let entries = vec![entry("a", 4), entry("b", 6), entry("c", 1), entry("d", 20), entry("e", 0)];
    let parts = partition_image_entries(entries, 10);
    let names: Vec<Vec<String>> = parts
        .iter()
        .map(|p| p.iter().map(|e| e.relative_path.clone()).collect())
        .collect();
    assert_eq!(names, vec![vec!["a", "b"], vec!["c"], vec!["d"], vec!["e"]]);
    assert!(partition_image_entries(Vec::new(), 10).is_empty());
}

#[test]
fn download_plans_add_up() {
    let nodes = vec![file("b.png", 9 * MB), file("a.png", 8 * MB), file("c.png", 1)];
    assert_eq!(collect_image_entries(&nodes)[0].relative_path, "b.png");
    assert_eq!(sorted_image_entries(&nodes)[0].relative_path, "a.png");
    let plan = build_chunked_download_plan(&nodes, "demo", 16 * MB).unwrap();
    let response = download_plan_response(&plan);
    assert_eq!(response.total_files, 3);
    assert_eq!(response.total_bytes, 17 * MB + 1);
    assert_eq!(response.part_size_bytes, 16 * MB);
    assert_eq!(response.part_count, 2);
    assert_eq!(response.parts[0].filename, "demo_images_part001.zip");
    assert_eq!(response.parts[0].file_count, 1);
    assert_eq!(response.parts[1].index, 1);
    assert_eq!(response.parts[1].total_bytes, 9 * MB + 1);
    let refused = select_part(plan, 2).unwrap_err();
    assert_eq!(refused, "Invalid download part index 2 (available parts: 2)");
    let plan = build_chunked_download_plan(&nodes, "demo", 16 * MB).unwrap();
    assert_eq!(select_part(plan, 1).unwrap().entries.len(), 2);
    assert!(matches!(
        build_chunked_download_plan(&Vec::new(), "demo", MB),
        Err(ArchiveError::NoImages)
    ));
}
