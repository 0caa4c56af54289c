use hvat_backend::error::Error;
use hvat_backend::images::{
    check_thumbnail_ready, content_disposition, header_bytes, image_failure, metadata_response,
    raw_content_disposition, server_info, thumbnail_level, thumbnail_of_level, ImageStep,
};
use hvat_backend::loaders::{
    check_shape, npy_band_data, npy_metadata, split_rgba, standard_metadata, BandData, ColorKind,
    DefaultLoader, ImageLoader, ImageLoaderRegistry, ImageMetadata, NpyLoader,
    StandardImageLoader,
};
use hvat_backend::npy::{
    npy_header_extent, parse_dtype_from_header, parse_npy_header, parse_shape_from_header,
    NpyDtype, NpyHeader, NpyHeaderError,
};
use hvat_backend::pixels::{
    encode_png, interleave, load_image_rgb, load_image_rgb_with_bands, thumbnail_png,
    thumbnail_rgba, PngError,
};
use hvat_backend::pyramid::builder::{LevelInfo, PyramidMetadata};
use hvat_backend::pyramid::storage::PyramidStatus;
use hvat_backend::sam::SamBands;
use hvat_backend::status::StatusCode;

fn info(level: u32, width: u32, height: u32) -> LevelInfo {
    LevelInfo { level, width, height, num_layers: 2, size_bytes: 0 }
}

fn pyramid(levels: Vec<LevelInfo>) -> PyramidMetadata {
    PyramidMetadata {
        full_width: 2,
        full_height: 1,
        num_bands: 3,
        levels,
        source_hash: String::new(),
        created_at: 0,
    }
}

fn meta() -> ImageMetadata {
    ImageMetadata {
        width: 600,
        height: 2,
        num_bands: 3,
        filename: "a.png".to_string(),
        format: "PNG".to_string(),
    }
}

#[test]
fn metadata_describes_the_pyramid() {
    let response = metadata_response("id".to_string(), meta(), PyramidStatus::Pending, None);
    assert_eq!(response.id, "id");
    assert_eq!(response.name, "a.png");
    assert_eq!((response.width, response.height, response.bands), (600, 2, 3));
    assert_eq!(response.pyramid.status, "pending");
    assert_eq!(response.pyramid.levels.len(), 3);
    assert_eq!(response.pyramid.levels[2].width, 150);
    let cached = pyramid(vec![info(0, 9, 8)]);
    let response = metadata_response("id".to_string(), meta(), PyramidStatus::Ready, Some(cached));
    assert_eq!(response.pyramid.status, "ready");
    assert_eq!(response.pyramid.levels.len(), 1);
    assert_eq!(response.pyramid.levels[0].width, 9);
    let status = |status: PyramidStatus| {
        metadata_response(String::new(), meta(), status, None).pyramid.status
    };
    assert_eq!(status(PyramidStatus::Ready), "pending");
    assert_eq!(status(PyramidStatus::Building), "building");
    assert_eq!(status(PyramidStatus::Failed), "failed");
}

#[test]
fn thumbnails_are_png() {
    assert!(check_thumbnail_ready(PyramidStatus::Ready).is_ok());
    let (status, message) = check_thumbnail_ready(PyramidStatus::Building).unwrap_err();
    assert_eq!((status, message.as_str()), (StatusCode::NotFound, "Thumbnail not ready"));
    let smallest = thumbnail_level(&pyramid(vec![info(0, 2, 1), info(1, 1, 1)])).unwrap();
    assert_eq!(smallest.level, 1);
    assert_eq!(thumbnail_level(&pyramid(vec![])).unwrap_err().1, "No pyramid levels");

    let pixels = vec![1u8, 2, 3, 255, 4, 5, 6, 128];
    let png = thumbnail_of_level(&info(0, 2, 1), &vec![(0, pixels.clone())]).unwrap();
    assert_ne!(png, pixels);
    let decoded = image::load_from_memory(&png).unwrap().to_rgba8();
    assert_eq!((decoded.width(), decoded.height()), (2, 1));
    assert_eq!(decoded.into_raw(), pixels);

    let message = |level: LevelInfo, layers: Vec<(u32, Vec<u8>)>| {
        let (status, message) = thumbnail_of_level(&level, &layers).unwrap_err();
        assert_eq!(status, StatusCode::InternalServerError);
        message
    };
    assert_eq!(message(info(0, 2, 1), vec![]), "No layer data");
    assert_eq!(
        message(info(0, 2, 1), vec![(0, vec![0; 7])]),
        "Data size mismatch: got 7 expected 8"
    );
    assert_eq!(
        message(info(0, u32::MAX, u32::MAX), vec![(0, vec![])]),
        "Thumbnail dimensions too large: 4294967295x4294967295"
    );
    assert!(message(info(0, 0, 1), vec![(0, vec![])]).starts_with("PNG encode error: "));
}

#[test]
fn thumbnails_are_made_of_bands() {
    let colors = vec![vec![1u8, 2], vec![3, 4], vec![5, 6], vec![7, 8]];
    assert_eq!(thumbnail_rgba(&colors, 2), vec![1, 3, 5, 255, 2, 4, 6, 255]);
    let grey = vec![vec![9u8], vec![1]];
    assert_eq!(thumbnail_rgba(&grey, 1), vec![9, 9, 9, 255]);
    let png = thumbnail_png(&colors, 2, 1).unwrap();
    let decoded = image::load_from_memory(&png).unwrap().to_rgba8();
    assert_eq!(decoded.into_raw(), vec![1, 3, 5, 255, 2, 4, 6, 255]);
    assert!(matches!(thumbnail_png(&grey, 0, 0), Err(Error::Internal(text)) if text.starts_with("PNG encode failed: ")));
    assert!(matches!(encode_png(1, 1, vec![1]), Err(PngError::TooFew)));
    assert!(encode_png(1, 1, vec![1, 2, 3, 4, 5]).is_ok());
}

#[test]
fn bands_become_pixels() {
    assert_eq!(interleave(&vec![1, 2], &vec![3, 4], &vec![5, 6], 2), vec![1, 3, 5, 2, 4, 6]);
    let bands = vec![vec![1u8, 2], vec![3, 4], vec![5, 6], vec![7, 8]];
    assert_eq!(load_image_rgb(&bands, 2, 1).unwrap(), vec![1, 3, 5, 2, 4, 6]);
    assert_eq!(load_image_rgb(&vec![vec![9, 8]], 2, 1).unwrap(), vec![9, 9, 9, 8, 8, 8]);
    match load_image_rgb(&vec![vec![9], vec![8]], 1, 1) {
        Err(Error::Internal(text)) => assert_eq!(text, "Image has 2 bands, expected 1 or 3+"),
        other => panic!("{:?}", other),
    }
    let (rgb, used) =
        load_image_rgb_with_bands(&bands, 2, 1, SamBands { red: 9, green: 0, blue: 1 });
    assert_eq!(used, SamBands { red: 3, green: 0, blue: 1 });
    assert_eq!(rgb, vec![7, 1, 3, 8, 2, 4]);
}

#[test]
fn failures_of_images_are_answered() {
    let (status, message) = image_failure(ImageStep::Find, "Image not found: x");
    assert_eq!(status, StatusCode::NotFound);
    assert_eq!(message, "Image not found: Image not found: x");
    assert_eq!(image_failure(ImageStep::Hash, "e").1, "Hash error: e");
    assert_eq!(image_failure(ImageStep::LoadMetadata, "e").1, "Metadata error: e");
    assert_eq!(image_failure(ImageStep::LoadLevel, "e").1, "Level load error: e");
    assert_eq!(image_failure(ImageStep::ReadFile, "e").1, "Read error: e");
    assert_eq!(image_failure(ImageStep::BuildHeader, "e").1, "Invalid header value: e");
    assert_eq!(image_failure(ImageStep::BuildArchive, "e").1, "Failed to build image archive: e");
    assert_eq!(
        image_failure(ImageStep::BuildArchivePart, "e").1,
        "Failed to build image archive part: e"
    );
}

#[test]
fn files_are_offered_under_their_name() {
    assert_eq!(content_disposition("a.zip"), "attachment; filename=\"a.zip\"");
    assert_eq!(raw_content_disposition("d/a\"b.png"), "attachment; filename=\"a_b.png\"");
    assert_eq!(raw_content_disposition(".."), "attachment; filename=\"image.bin\"");
    let info = server_info("p".to_string(), &Vec::new(), "1".to_string());
    assert_eq!((info.name.as_str(), info.image_count, info.version.as_str()), ("p", 0, "1"));
}

#[test]
fn names_without_control_characters_can_be_offered() {
    let offered = content_disposition("\u{fc}\t1.zip");
    assert_eq!(header_bytes(&offered), Ok(offered.as_bytes().to_vec()));
    let refused = Err((
        StatusCode::InternalServerError,
        "Invalid header value: failed to parse header value".to_string(),
    ));
    assert_eq!(header_bytes(&content_disposition("a\nb.zip")), refused);
    assert_eq!(header_bytes(&content_disposition("a\u{7f}.zip")), refused);
}

#[test]
fn loaders_go_by_extension() {
    let registry = ImageLoaderRegistry::with_defaults();
    assert_eq!(registry.find_loader("a/b.PNG"), Some(0));
    assert_eq!(registry.find_loader("a/b.Npy"), Some(1));
    assert_eq!(registry.find_loader("a/npy"), None);
    assert!(registry.supports("x.tif"));
    assert!(!registry.supports("x.txt"));
    assert_eq!(registry.loaders().len(), 2);
    for ext in ["png", "jpg", "jpeg", "gif", "webp", "bmp", "tiff", "tif"] {
        assert!(StandardImageLoader::is_supported_extension(ext));
    }
    assert!(!StandardImageLoader::is_supported_extension("npy"));
    assert!(NpyLoader::new().supports("a.npy"));
    let mut own: ImageLoaderRegistry<DefaultLoader> = ImageLoaderRegistry::new();
    assert!(!own.supports("a.npy"));
    own.register(DefaultLoader::Npy(NpyLoader::default()));
    assert!(own.supports("a.npy"));
}

#[test]
fn standard_images_are_described() {
    let meta = standard_metadata(3, 4, ColorKind::Colors, "d/é.Tif");
    assert_eq!((meta.width, meta.height, meta.num_bands), (3, 4, 3));
    assert_eq!((meta.filename.as_str(), meta.format.as_str()), ("é.Tif", "TIF"));
    assert_eq!(standard_metadata(1, 1, ColorKind::La16, "x").num_bands, 1);
    assert_eq!(standard_metadata(1, 1, ColorKind::L8, "x").format, "UNKNOWN");
    let (red, green, blue) = split_rgba(&vec![1, 2, 3, 4, 5, 6, 7, 8]);
    assert_eq!((red, green, blue), (vec![1, 5], vec![2, 6], vec![3, 7]));
    let data = BandData { width: 1, height: 1, bands: vec![vec![0u8]; 9] };
    assert_eq!((data.num_bands(), data.num_layers()), (9, 3));
}

fn npy(version: u8, header: &[u8]) -> Vec<u8> {
    let mut bytes = b"\x93NUMPY".to_vec();
    bytes.extend_from_slice(&[version, 0]);
    if version == 1 {
        bytes.extend_from_slice(&(header.len() as u16).to_le_bytes());
    } else {
        bytes.extend_from_slice(&(header.len() as u32).to_le_bytes());
    }
    bytes.extend_from_slice(header);
    bytes
}

fn rejected<T: std::fmt::Debug>(r: Result<T, NpyHeaderError>) -> String {
    match r {
        Err(NpyHeaderError::Rejected(Error::InvalidImageData(text))) => text,
        Err(NpyHeaderError::Rejected(Error::Io(text))) => text,
        other => panic!("{:?}", other),
    }
}

#[test]
fn npy_headers_are_parsed() {
    let header = b"{'descr': '<f4', 'fortran_order': False, 'shape': (15, 200, 320), }\n";
    let parsed = parse_npy_header(&npy(1, header)).unwrap();
    assert_eq!(parsed.dtype, NpyDtype::F32);
    assert_eq!(parsed.shape, vec![15, 200, 320]);
    assert_eq!(parse_npy_header(&npy(2, header)).unwrap().shape, vec![15, 200, 320]);
    assert_eq!(npy_header_extent(&npy(1, header)).unwrap(), (10, header.len()));
    assert_eq!(npy_header_extent(&npy(2, b"x")[..12]).unwrap(), (12, 1));
    let meta = npy_metadata(&parsed, "d/cube.npy").unwrap();
    assert_eq!((meta.num_bands, meta.height, meta.width), (15, 200, 320));
    assert_eq!((meta.filename.as_str(), meta.format.as_str()), ("cube.npy", "NPY"));
    // Bytes that are not UTF-8 do not keep a header from being read.
    let odd = b"\xff{'descr': '|u1', 'shape': (1, 2, 3)}";
    assert_eq!(parse_npy_header(&npy(1, odd)).unwrap().dtype, NpyDtype::U8);
}

#[test]
fn npy_headers_are_refused() {
    let whole = npy(1, b"{'descr': '<f4', 'shape': (1,)}");
    assert_eq!(rejected(parse_npy_header(b"\x93NUM")), "failed to fill whole buffer");
    assert_eq!(rejected(parse_npy_header(b"NOTNUMPY")), "Not a valid NPY file");
    assert_eq!(rejected(parse_npy_header(&whole[..9])), "failed to fill whole buffer");
    assert_eq!(rejected(parse_npy_header(&whole[..20])), "failed to fill whole buffer");
    assert_eq!(rejected(parse_npy_header(&npy(1, b"{}"))), "No 'descr' in NPY header");
    assert_eq!(
        rejected(parse_dtype_from_header("'descr': 5")),
        "Cannot parse dtype from NPY header"
    );
    assert_eq!(
        rejected(parse_dtype_from_header("'descr': '<c8'")),
        "Unsupported NPY dtype: <c8"
    );
    assert_eq!(parse_dtype_from_header("\"descr\": \">i2\"").unwrap(), NpyDtype::I16);
    assert_eq!(rejected(parse_shape_from_header("x")), "No 'shape' in NPY header");
    assert_eq!(rejected(parse_shape_from_header("'shape': 3")), "No shape tuple in NPY header");
    assert_eq!(
        rejected(parse_shape_from_header("'shape': (3")),
        "Unclosed shape tuple in NPY header"
    );
    assert_eq!(rejected(parse_shape_from_header("'shape': (a,)")), "Empty shape in NPY header");
    assert!(matches!(
        parse_shape_from_header("'shape': )3("),
        Err(NpyHeaderError::ShapeClosesEarly)
    ));
    assert_eq!(parse_shape_from_header("'shape': ( 3 , x,+4)").unwrap(), vec![3, 4]);
}

#[test]
fn arrays_have_three_dimensions() {
    let header = |shape: Vec<usize>| NpyHeader { dtype: NpyDtype::U8, shape };
    match check_shape(&vec![1, 2]) {
        Err(Error::InvalidImageData(text)) => {
            assert_eq!(text, "Expected 3D array (B, H, W), got 2D")
        }
        other => panic!("{:?}", other),
    }
    assert!(npy_metadata(&header(vec![1]), "x").is_err());
    let data = npy_band_data(&header(vec![1, 2, 3]), vec![vec![0u8; 6]]).unwrap();
    assert_eq!((data.height, data.width, data.bands.len()), (2, 3, 1));
    match npy_band_data::<u8>(&header(vec![0, 2, 3]), vec![]) {
        Err(Error::InvalidImageData(text)) => assert_eq!(text, "NPY file has no bands"),
        other => panic!("{:?}", other.is_ok()),
    }
}
