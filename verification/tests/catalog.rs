use std::path::PathBuf;

use hvat_backend::catalog::{
    collect_supported_image_paths, count_supported_images, decode_relative_path_from_image_id,
    encode_image_id_from_relative, find_by_url_safe_id, find_image, find_supported_image_by_id,
    from_hex_digit, list_images, list_supported_images, make_url_safe, stable_candidate, DirNode,
    FileNode, ImageMatch,
};
use hvat_backend::error::Error;
use hvat_backend::ordering::text_le;
use hvat_backend::paths::{extension, file_name, is_safe_relative_path, join};

fn file(relative: &str, supported: bool) -> DirNode {
    DirNode::File(FileNode {
        relative_path: relative.to_string(),
        file_name: file_name(relative),
        extension: extension(relative),
        supported,
        size_bytes: 3,
        path: PathBuf::from(format!("/data/{}", relative)),
    })
}

#[test]
fn test_make_url_safe() {
    assert_eq!(make_url_safe("hello"), "hello");
    assert_eq!(make_url_safe("hello world"), "hello_world");
    assert_eq!(make_url_safe("path/to/file.png"), "path_to_file_png");
    assert_eq!(make_url_safe("file-name_123"), "file-name_123");
    assert_eq!(make_url_safe(""), "");
    assert_eq!(make_url_safe("a/b/c"), "a_b_c");
    assert_eq!(make_url_safe("日本語"), "日本語");
}

#[test]
fn test_make_url_safe_preserves_alphanumeric() {
    let input = "abcdefghijklmnopqrstuvwxyzABCDEFGHIJKLMNOPQRSTUVWXYZ0123456789";
    assert_eq!(make_url_safe(input), input);
}

#[test]
fn test_make_url_safe_special_chars() {
    assert_eq!(make_url_safe("file.png"), "file_png");
    assert_eq!(make_url_safe("path\\to\\file"), "path_to_file");
    assert_eq!(make_url_safe("file name (1).jpg"), "file_name__1__jpg");
}

#[test]
fn make_url_safe_preserves_alphanumerics() {
    let input = "abcdefghijklmnopqrstuvwxyzABCDEFGHIJKLMNOPQRSTUVWXYZ0123456789";
    assert_eq!(make_url_safe(input), input);
}

#[test]
fn catalog_make_url_safe_preserves_alphanumerics() {
    let input = "abcdefghijklmnopqrstuvwxyzABCDEFGHIJKLMNOPQRSTUVWXYZ0123456789";
    assert_eq!(make_url_safe(input), input);
}

#[test]
fn make_url_safe_replaces_special_chars() {
    assert_eq!(make_url_safe("file.png"), "file_png");
    assert_eq!(make_url_safe("path/to/file"), "path_to_file");
    assert_eq!(make_url_safe("path\\to\\file"), "path_to_file");
    assert_eq!(make_url_safe("file name (1).jpg"), "file_name__1__jpg");
}

#[test]
fn catalog_make_url_safe_replaces_special_chars() {
    assert_eq!(make_url_safe("file.png"), "file_png");
    assert_eq!(make_url_safe("path/to/file"), "path_to_file");
    assert_eq!(make_url_safe("path\\to\\file"), "path_to_file");
    assert_eq!(make_url_safe("file name (1).jpg"), "file_name__1__jpg");
}

#[test]
fn make_url_safe_keeps_unicode_letters() {
    assert_eq!(make_url_safe("日本語"), "日本語");
}

#[test]
fn catalog_make_url_safe_keeps_unicode_letters() {
    assert_eq!(make_url_safe("日本語"), "日本語");
}

#[test]
fn stable_image_id_roundtrip() {
    let relative = "nested/path/日本語 file.png";
    let encoded = encode_image_id_from_relative(relative);
    assert!(encoded.starts_with("id:"));
    assert_eq!(decode_relative_path_from_image_id(&encoded), Some(relative.to_string()));
}

#[test]
fn catalog_stable_image_id_roundtrip() {
    let relative = "nested/path/日本語 file.png";
    let encoded = encode_image_id_from_relative(relative);
    assert!(encoded.starts_with("id:"));
    assert_eq!(decode_relative_path_from_image_id(&encoded), Some(relative.to_string()));
}

#[test]
fn stable_image_ids_avoid_legacy_collisions() {
    let a = "a/b.png";
    let b = "a_b.png";
    assert_eq!(make_url_safe(a), make_url_safe(b));
    assert_ne!(encode_image_id_from_relative(a), encode_image_id_from_relative(b));
}

#[test]
fn catalog_stable_image_ids_avoid_legacy_collisions() {
    let a = "a/b.png";
    let b = "a_b.png";
    assert_eq!(make_url_safe(a), make_url_safe(b));
    assert_ne!(encode_image_id_from_relative(a), encode_image_id_from_relative(b));
}

#[test]
fn find_supported_image_by_id_accepts_stable_and_legacy_ids() {
    let nodes = vec![DirNode::Directory(vec![file("sub/file.png", true)])];
    let listed = list_supported_images(&nodes);
    assert_eq!(listed.len(), 1);
    let stable_id = listed[0].id.clone();

    assert_eq!(stable_candidate(&stable_id), Some("sub/file.png".to_string()));
    match find_supported_image_by_id(&nodes, &stable_id, true) {
        Some(ImageMatch::Candidate(path)) => assert_eq!(path, "sub/file.png"),
        other => panic!("stable id should resolve: {:?}", other),
    }

    let legacy_id = make_url_safe("sub/file.png");
    match find_supported_image_by_id(&nodes, &legacy_id, false) {
        Some(ImageMatch::Listed(path)) => assert_eq!(path, PathBuf::from("/data/sub/file.png")),
        other => panic!("legacy id should resolve: {:?}", other),
    }
}

#[test]
fn every_listed_id_resolves_to_its_own_file() {
    let nodes = vec![file("b c.png", true), file("b_c.png", true), file("x/b.png", true)];
    for info in list_supported_images(&nodes) {
        assert_eq!(stable_candidate(&info.id), Some(info.path.clone()));
        match find_supported_image_by_id(&nodes, &info.id, true) {
            Some(ImageMatch::Candidate(path)) => assert_eq!(path, info.path),
            other => panic!("{:?}", other),
        }
    }
}

#[test]
fn image_ids_are_hexadecimal() {
    assert_eq!(encode_image_id_from_relative("a/B"), "id:612f42");
    assert_eq!(from_hex_digit('f'), Some(15));
    assert_eq!(from_hex_digit('F'), Some(15));
    assert_eq!(from_hex_digit('g'), None);
    assert_eq!(decode_relative_path_from_image_id("id:61"), Some("a".to_string()));
    assert_eq!(decode_relative_path_from_image_id("61"), None);
    assert_eq!(decode_relative_path_from_image_id("id:6"), None);
    assert_eq!(decode_relative_path_from_image_id("id:zz"), None);
    // Not UTF-8.
    assert_eq!(decode_relative_path_from_image_id("id:ff"), None);
}

#[test]
fn unsafe_candidates_are_not_followed() {
    assert_eq!(stable_candidate(&encode_image_id_from_relative("../secret.png")), None);
    assert_eq!(stable_candidate(&encode_image_id_from_relative("/etc/x.png")), None);
    assert!(is_safe_relative_path("a/b.png"));
    assert!(!is_safe_relative_path(""));
    assert!(!is_safe_relative_path("a/../b.png"));
}

#[test]
fn images_are_listed_by_path() {
    let nodes = vec![
        file("b.PNG", true),
        file("notes.txt", false),
        DirNode::Directory(vec![file("a/é.npy", true), file("a/z", true)]),
    ];
    assert_eq!(count_supported_images(&nodes), 3);
    let paths = collect_supported_image_paths(&nodes);
    assert_eq!(paths.len(), 3);
    let listed = list_images(&nodes);
    let rows: Vec<(String, String, String, String)> = listed
        .into_iter()
        .map(|i| (i.id, i.name, i.path, i.format))
        .collect();
    assert_eq!(rows[0].2, "a/z");
    assert_eq!(rows[0].3, "UNKNOWN");
    assert_eq!(
        rows[1],
        ("a_é_npy".to_string(), "é.npy".to_string(), "a/é.npy".to_string(), "NPY".to_string())
    );
    assert_eq!(rows[2].0, "b_PNG");
    assert!(text_le("a/z", "a/é.npy"));
    assert!(!text_le("b", "a"));
}

#[test]
fn url_safe_ids_find_the_first_file() {
    let nodes = vec![file("a_b.png", true), DirNode::Directory(vec![file("a/b.png", true)])];
    assert_eq!(find_by_url_safe_id(&nodes, "a_b_png"), Some(PathBuf::from("/data/a_b.png")));
    assert_eq!(find_by_url_safe_id(&nodes, "missing"), None);
    assert_eq!(find_image(&nodes, "a_b_png").unwrap(), PathBuf::from("/data/a_b.png"));
    match find_image(&nodes, "missing") {
        Err(Error::ImageNotFound(id)) => assert_eq!(id, "missing"),
        other => panic!("{:?}", other),
    }
}

#[test]
fn path_parts() {
    assert_eq!(file_name("a/b.png"), Some("b.png".to_string()));
    assert_eq!(file_name("a/b/"), Some("b".to_string()));
    assert_eq!(file_name("a/./"), Some("a".to_string()));
    assert_eq!(file_name("a/.."), None);
    assert_eq!(file_name("/"), None);
    assert_eq!(extension("a/b.tar.gz"), Some("gz".to_string()));
    assert_eq!(extension("a.b/c"), None);
    assert_eq!(extension(".hidden"), None);
    assert_eq!(extension("x."), Some("".to_string()));
    assert_eq!(join("a", "b"), "a/b");
    assert_eq!(join("a/", "b"), "a/b");
    assert_eq!(join("", "b"), "b");
    assert_eq!(join("a", "/b"), "/b");
}
