//! What is answered of single images: their metadata, their thumbnails and their
//! original files.

use vstd::prelude::*;

use crate::catalog::{count_supported_images, DirNode};
use crate::loaders::ImageMetadata;
use crate::paths::file_name;
use crate::pixels::{encode_png, PngError};
use crate::pyramid::builder::{LevelInfo, PyramidMetadata};
use crate::pyramid::levels::{calculate_pyramid_levels, LevelSize};
use crate::pyramid::storage::PyramidStatus;
use crate::status::StatusCode;
use crate::text::{push_decimal, replace_char};

verus! {

/// Server/project information.
#[derive(Debug)]
pub struct ServerInfo {
    /// Project name.
    pub name: String,
    /// Total number of images.
    pub image_count: usize,
    /// Server version.
    pub version: String,
}

/// Whether this is the information of a project with these files.
pub open spec fn informs_of(
    info: ServerInfo,
    name: String,
    files: Seq<crate::catalog::FileNode>,
    version: String,
) -> bool {
    &&& info.name == name
    &&& info.image_count == files.len()
    &&& info.version == version
}

/// The images that are counted are those that are listed.
pub proof fn lemma_counted_images_are_listed(
    info: ServerInfo,
    name: String,
    files: Seq<crate::catalog::FileNode>,
    version: String,
    infos: Seq<crate::catalog::ImageInfo>,
)
    requires
        informs_of(info, name, files, version),
        crate::catalog::is_listing(infos, files),
    ensures
        info.image_count == infos.len(),
        info.name == name,
        info.version == version,
{
}

/// The information of a project with these files.
pub fn server_info(name: String, nodes: &Vec<DirNode>, version: String) -> (info: ServerInfo)
    ensures
        informs_of(info, name, crate::catalog::supported_files(nodes@), version),
{
    ServerInfo { name, image_count: count_supported_images(nodes), version }
}

// ----------------------------------------------------------------------------
// Metadata
// ----------------------------------------------------------------------------

/// Pyramid status and level information.
#[derive(Debug)]
pub struct PyramidInfo {
    /// "ready", "building", "pending" or "failed".
    pub status: String,
    /// Available pyramid levels.
    pub levels: Vec<LevelSize>,
}

/// Image metadata response.
#[derive(Debug)]
pub struct ImageMetadataResponse {
    pub id: String,
    pub name: String,
    pub format: String,
    pub width: u32,
    pub height: u32,
    pub bands: usize,
    pub pyramid: PyramidInfo,
}

/// The sizes of cached levels.
pub open spec fn cached_sizes(levels: Seq<LevelInfo>) -> Seq<LevelSize> {
    levels.map_values(
        |l: LevelInfo| LevelSize { level: l.level, width: l.width, height: l.height },
    )
}

/// Whether these are the levels of an image of this size.
pub open spec fn calculated_sizes(width: u32, height: u32, levels: Seq<LevelSize>) -> bool {
    &&& crate::pyramid::levels::is_level_count(
        crate::pyramid::levels::larger(width, height) as nat,
        levels.len(),
    )
    &&& forall|i: int|
        0 <= i < levels.len() ==> #[trigger] levels[i] == crate::pyramid::levels::level_size(
            width,
            height,
            i as nat,
        )
}

/// Whether a pyramid is described as it should be: by its cached levels where it
/// is ready and they can be read, else by those that the image will have.
pub open spec fn describes_pyramid(
    info: PyramidInfo,
    status: PyramidStatus,
    cached: Option<PyramidMetadata>,
    width: u32,
    height: u32,
) -> bool {
    if status == PyramidStatus::Ready && cached is Some {
        info.status@ == "ready"@ && info.levels@ == cached_sizes((cached->0).levels@)
    } else {
        &&& info.status@ == match status {
            PyramidStatus::Building => "building"@,
            PyramidStatus::Failed => "failed"@,
            PyramidStatus::Ready | PyramidStatus::Pending => "pending"@,
        }
        &&& calculated_sizes(width, height, info.levels@)
    }
}

fn cached_level_sizes(levels: &Vec<LevelInfo>) -> (out: Vec<LevelSize>)
    ensures
        out@ == cached_sizes(levels@),
{
    let mut out: Vec<LevelSize> = Vec::new();
    let mut i: usize = 0;
    while i < levels.len()
        invariant
            i <= levels@.len(),
            out@ == cached_sizes(levels@.take(i as int)),
        decreases levels@.len() - i,
    {
        out.push(
            LevelSize {
                level: levels[i].level,
                width: levels[i].width,
                height: levels[i].height,
            },
        );
        i = i + 1;
        assert(out@ =~= cached_sizes(levels@.take(i as int)));
    }
    assert(levels@.take(i as int) =~= levels@);
    out
}

/// Whether this is what is answered of an image.
pub open spec fn answers_metadata(
    response: ImageMetadataResponse,
    image_id: String,
    meta: ImageMetadata,
    status: PyramidStatus,
    cached: Option<PyramidMetadata>,
) -> bool {
    &&& response.id == image_id
    &&& response.name == meta.filename
    &&& response.format == meta.format
    &&& response.width == meta.width
    &&& response.height == meta.height
    &&& response.bands == meta.num_bands
    &&& describes_pyramid(response.pyramid, status, cached, meta.width, meta.height)
}

/// The first level that is told of an image whose pyramid is not ready has the size that
/// is told of the image.
pub proof fn lemma_first_level_has_the_images_size(
    response: ImageMetadataResponse,
    image_id: String,
    meta: ImageMetadata,
    status: PyramidStatus,
    cached: Option<PyramidMetadata>,
)
    requires
        answers_metadata(response, image_id, meta, status, cached),
        status != PyramidStatus::Ready,
    ensures
        response.pyramid.levels@.len() > 0,
        response.pyramid.levels@[0].width == response.width,
        response.pyramid.levels@[0].height == response.height,
        response.width == meta.width,
        response.bands == meta.num_bands,
        response.id == image_id,
{
    assert(response.pyramid.levels@[0] == crate::pyramid::levels::level_size(
        meta.width,
        meta.height,
        0,
    ));
}

/// The metadata of an image. `cached` is the metadata of its pyramid, where that
/// is ready and can be read.
pub fn metadata_response(
    image_id: String,
    meta: ImageMetadata,
    status: PyramidStatus,
    cached: Option<PyramidMetadata>,
) -> (response: ImageMetadataResponse)
    ensures
        answers_metadata(response, image_id, meta, status, cached),
{
    let pyramid = match (status, cached) {
        (PyramidStatus::Ready, Some(pyramid)) => PyramidInfo {
            status: "ready".to_owned(),
            levels: cached_level_sizes(&pyramid.levels),
        },
        (PyramidStatus::Building, _) => PyramidInfo {
            status: "building".to_owned(),
            levels: calculate_pyramid_levels(meta.width, meta.height),
        },
        (PyramidStatus::Failed, _) => PyramidInfo {
            status: "failed".to_owned(),
            levels: calculate_pyramid_levels(meta.width, meta.height),
        },
        _ => PyramidInfo {
            status: "pending".to_owned(),
            levels: calculate_pyramid_levels(meta.width, meta.height),
        },
    };
    ImageMetadataResponse {
        id: image_id,
        name: meta.filename,
        format: meta.format,
        width: meta.width,
        height: meta.height,
        bands: meta.num_bands,
        pyramid,
    }
}

// ----------------------------------------------------------------------------
// Failures
// ----------------------------------------------------------------------------

/// A step in answering for an image.
#[derive(Clone, Copy, Debug, PartialEq, Eq, Structural)]
pub enum ImageStep {
    Find,
    Hash,
    LoadMetadata,
    LoadLevel,
    EncodePng,
    ReadFile,
    BuildHeader,
    BuildArchive,
    BuildArchivePart,
}

/// How a failed step is answered.
pub open spec fn image_failure_spec(step: ImageStep, cause: Seq<char>) -> (StatusCode, Seq<char>) {
    match step {
        ImageStep::Find => (StatusCode::NotFound, "Image not found: "@ + cause),
        ImageStep::Hash => (StatusCode::InternalServerError, "Hash error: "@ + cause),
        ImageStep::LoadMetadata => (StatusCode::InternalServerError, "Metadata error: "@ + cause),
        ImageStep::LoadLevel => (StatusCode::InternalServerError, "Level load error: "@ + cause),
        ImageStep::EncodePng => (StatusCode::InternalServerError, "PNG encode error: "@ + cause),
        ImageStep::ReadFile => (StatusCode::InternalServerError, "Read error: "@ + cause),
        ImageStep::BuildHeader => (
            StatusCode::InternalServerError,
            "Invalid header value: "@ + cause,
        ),
        ImageStep::BuildArchive => (
            StatusCode::InternalServerError,
            "Failed to build image archive: "@ + cause,
        ),
        ImageStep::BuildArchivePart => (
            StatusCode::InternalServerError,
            "Failed to build image archive part: "@ + cause,
        ),
    }
}

/// Answers a failed step.
pub fn image_failure(step: ImageStep, cause: &str) -> (r: (StatusCode, String))
    ensures
        (r.0, r.1@) == image_failure_spec(step, cause@),
{
    let (status, start) = match step {
        ImageStep::Find => (StatusCode::NotFound, "Image not found: "),
        ImageStep::Hash => (StatusCode::InternalServerError, "Hash error: "),
        ImageStep::LoadMetadata => (StatusCode::InternalServerError, "Metadata error: "),
        ImageStep::LoadLevel => (StatusCode::InternalServerError, "Level load error: "),
        ImageStep::EncodePng => (StatusCode::InternalServerError, "PNG encode error: "),
        ImageStep::ReadFile => (StatusCode::InternalServerError, "Read error: "),
        ImageStep::BuildHeader => (StatusCode::InternalServerError, "Invalid header value: "),
        ImageStep::BuildArchive => (
            StatusCode::InternalServerError,
            "Failed to build image archive: ",
        ),
        ImageStep::BuildArchivePart => (
            StatusCode::InternalServerError,
            "Failed to build image archive part: ",
        ),
    };
    let mut message = start.to_owned();
    message.append(cause);
    (status, message)
}

fn internal<T>(message: String) -> (r: Result<T, (StatusCode, String)>)
    ensures
        is_failure(r, StatusCode::InternalServerError, message@),
{
    Err((StatusCode::InternalServerError, message))
}

/// Whether a result is this failure.
pub open spec fn is_failure<T>(
    r: Result<T, (StatusCode, String)>,
    status: StatusCode,
    message: Seq<char>,
) -> bool {
    r matches Err(failure) && failure.0 == status && failure.1@ == message
}

// ----------------------------------------------------------------------------
// Thumbnails
// ----------------------------------------------------------------------------

/// Whether the thumbnail of an image can be given out: its pyramid must be ready.
pub open spec fn has_thumbnail(status: PyramidStatus) -> bool {
    status == PyramidStatus::Ready
}

/// Thumbnails are given out exactly where levels are streamed from the pyramid.
pub proof fn lemma_thumbnails_come_from_pyramids(status: PyramidStatus, build_running: bool)
    ensures
        has_thumbnail(status) <==> crate::streaming::source_of(status, build_running) is Pyramid,
        has_thumbnail(crate::pyramid::storage::status_of(Some("ready"@))),
        !has_thumbnail(crate::pyramid::storage::status_of(None)),
{
    crate::pyramid::storage::lemma_status_round_trip(Seq::empty());
}

/// Only the thumbnail of a ready pyramid is given out.
pub fn check_thumbnail_ready(status: PyramidStatus) -> (r: Result<(), (StatusCode, String)>)
    ensures
        if has_thumbnail(status) {
            r is Ok
        } else {
            is_failure(r, StatusCode::NotFound, "Thumbnail not ready"@)
        },
{
    if status == PyramidStatus::Ready {
        Ok(())
    } else {
        Err((StatusCode::NotFound, "Thumbnail not ready".to_owned()))
    }
}

/// The level that serves as thumbnail: the last, which is the smallest.
pub open spec fn smallest_level(levels: Seq<LevelInfo>) -> LevelInfo {
    levels.last()
}

/// Where each level of a pyramid is no larger than the one before, no level is smaller
/// than the one that serves as thumbnail, and it is one of them.
pub proof fn lemma_thumbnails_are_smallest(levels: Seq<LevelInfo>, i: int)
    requires
        forall|a: int, b: int|
            0 <= a <= b < levels.len() ==> (#[trigger] levels[b]).width <= (
            #[trigger] levels[a]).width && levels[b].height <= levels[a].height,
        0 <= i < levels.len(),
    ensures
        levels.contains(smallest_level(levels)),
        smallest_level(levels).width <= levels[i].width,
        smallest_level(levels).height <= levels[i].height,
{
    assert(levels[levels.len() - 1] == smallest_level(levels));
}

/// The level that serves as thumbnail: the last, which is the smallest.
pub fn thumbnail_level(metadata: &PyramidMetadata) -> (r: Result<LevelInfo, (StatusCode, String)>)
    ensures
        if metadata.levels@.len() == 0 {
            is_failure(r, StatusCode::InternalServerError, "No pyramid levels"@)
        } else {
            r == Ok::<LevelInfo, (StatusCode, String)>(smallest_level(metadata.levels@))
        },
{
    let count: usize = metadata.levels.len();
    if count == 0 {
        return internal("No pyramid levels".to_owned());
    }
    Ok(metadata.levels[count - 1])
}

/// Whether a thumbnail is given out as it should be: the first layer of the level,
/// as PNG, if it has the level's size.
pub open spec fn gives_thumbnail(
    level: LevelInfo,
    layers: Seq<(u32, Vec<u8>)>,
    r: Result<Vec<u8>, (StatusCode, String)>,
) -> bool {
    let expected = 4 * level.width * level.height;
    if layers.len() == 0 {
        is_failure(r, StatusCode::InternalServerError, "No layer data"@)
    } else if expected > usize::MAX {
        is_failure(
            r,
            StatusCode::InternalServerError,
            "Thumbnail dimensions too large: "@ + crate::text::decimal(level.width as nat) + "x"@
                + crate::text::decimal(level.height as nat),
        )
    } else if layers[0].1@.len() != expected {
        is_failure(
            r,
            StatusCode::InternalServerError,
            "Data size mismatch: got "@ + crate::text::decimal(layers[0].1@.len()) + " expected "@
                + crate::text::decimal(expected as nat),
        )
    } else if 4 * level.width > usize::MAX {
        is_failure(
            r,
            StatusCode::InternalServerError,
            "Failed to create image from RGBA data"@,
        )
    } else {
        match crate::pixels::png_of(level.width, level.height, layers[0].1@) {
            Ok(bytes) => r matches Ok(png) && png@ == bytes,
            Err(cause) => is_failure(
                r,
                StatusCode::InternalServerError,
                "PNG encode error: "@ + cause,
            ),
        }
    }
}

/// The thumbnail of an image as PNG, from the layers of its smallest level.
pub fn thumbnail_of_level(level: &LevelInfo, layers: &Vec<(u32, Vec<u8>)>) -> (r: Result<
    Vec<u8>,
    (StatusCode, String),
>)
    ensures
        gives_thumbnail(*level, layers@, r),
{
    if layers.len() == 0 {
        return internal("No layer data".to_owned());
    }
    proof {
        assert(4 * level.width * level.height <= 4 * u32::MAX * u32::MAX) by (nonlinear_arith)
            requires
                level.width <= u32::MAX,
                level.height <= u32::MAX,
        ;
    }
    let expected: u128 = 4 * (level.width as u128) * (level.height as u128);
    if expected > usize::MAX as u128 {
        let mut message = "Thumbnail dimensions too large: ".to_owned();
        push_decimal(&mut message, level.width as u64);
        message.append("x");
        push_decimal(&mut message, level.height as u64);
        return internal(message);
    }
    let data = layers[0].1.clone();
    assert(data@ =~= layers@[0].1@);
    if data.len() as u128 != expected {
        let mut message = "Data size mismatch: got ".to_owned();
        push_decimal(&mut message, data.len() as u64);
        message.append(" expected ");
        push_decimal(&mut message, expected as u64);
        return internal(message);
    }
    assert(data@.take(4 * level.width * level.height) =~= data@);
    match encode_png(level.width, level.height, data) {
        Ok(png) => Ok(png),
        Err(PngError::TooFew) => internal("Failed to create image from RGBA data".to_owned()),
        Err(PngError::Failed(cause)) => Err(image_failure(ImageStep::EncodePng, cause.as_str())),
    }
}

// ----------------------------------------------------------------------------
// Original files
// ----------------------------------------------------------------------------

/// The header with which a file is offered under a name.
pub open spec fn attachment(name: Seq<char>) -> Seq<char> {
    "attachment; filename=\""@ + name + "\""@
}

/// The header with which a file is offered under a name.
pub fn content_disposition(name: &str) -> (out: String)
    ensures
        out@ == attachment(name@),
{
    let mut out = "attachment; filename=\"".to_owned();
    out.append(name);
    out.append("\"");
    out
}

/// The name under which an original image is offered: its own without quotes.
pub open spec fn offered_name(path: Seq<char>) -> Seq<char> {
    crate::text::replace_char_spec(
        match crate::paths::file_name_spec(path) {
            Some(name) => name,
            None => "image.bin"@,
        },
        '"',
        '_',
    )
}

/// An image is offered under its own name where that has no quotes; no name that is
/// offered has any.
pub proof fn lemma_images_are_offered_by_name(path: Seq<char>)
    ensures
        !offered_name(path).contains('"'),
        crate::paths::file_name_spec(path) matches Some(name) ==> offered_name(path).len()
            == name.len() && (!name.contains('"') ==> offered_name(path) == name),
{
    if let Some(name) = crate::paths::file_name_spec(path) {
        if !name.contains('"') {
            assert forall|i: int| 0 <= i < name.len() implies offered_name(path)[i] == name[i] by {
                assert(name.contains(name[i]));
            }
            assert(offered_name(path) =~= name);
        }
    }
}

/// The header with which an original image is offered, under its own name without
/// quotes.
pub fn raw_content_disposition(path: &str) -> (out: String)
    ensures
        out@ == attachment(offered_name(path@)),
{
    let name = match file_name(path) {
        Some(name) => name,
        None => "image.bin".to_owned(),
    };
    content_disposition(replace_char(name.as_str(), '"', '_').as_str())
}

/// Whether a text can be the value of a header: it has no control characters but
/// tabs.
pub open spec fn fits_header(text: Seq<char>) -> bool {
    forall|i: int|
        0 <= i < text.len() ==> ((#[trigger] text[i]) as u32 >= 32 || text[i] == '\t')
            && text[i] as u32 != 127
}

/// Trusted: `HeaderValue::from_str` accepts a text without bytes below 32, other
/// than tabs, and without the byte 127. In UTF-8 only control characters have such
/// bytes. `HeaderValue::as_bytes` gives the bytes of the text back. Any other text
/// is refused with a fixed message.
#[verifier::external_body]
fn header_value(text: &str) -> (r: Result<Vec<u8>, String>)
    ensures
        match r {
            Ok(bytes) => fits_header(text@) && bytes@ == vstd::utf8::encode_utf8(text@),
            Err(cause) => !fits_header(text@) && cause@ == "failed to parse header value"@,
        },
{
    match axum::http::HeaderValue::from_str(text) {
        Ok(value) => Ok(value.as_bytes().to_vec()),
        Err(e) => Err(e.to_string()),
    }
}

/// The bytes of a header's value, or the answer where a text cannot be one.
pub fn header_bytes(text: &str) -> (r: Result<Vec<u8>, (StatusCode, String)>)
    ensures
        if fits_header(text@) {
            r matches Ok(bytes) && bytes@ == vstd::utf8::encode_utf8(text@)
        } else {
            is_failure(
                r,
                StatusCode::InternalServerError,
                "Invalid header value: "@ + "failed to parse header value"@,
            )
        },
{
    match header_value(text) {
        Ok(bytes) => Ok(bytes),
        Err(cause) => Err(image_failure(ImageStep::BuildHeader, cause.as_str())),
    }
}

/// A file can be offered exactly under the names without control characters.
pub proof fn lemma_offered_names_fit(name: Seq<char>)
    ensures
        fits_header(attachment(name)) <==> fits_header(name),
{
    reveal_strlit("attachment; filename=\"");
    reveal_strlit("\"");
    let start = "attachment; filename=\""@;
    if fits_header(attachment(name)) {
        assert forall|i: int| 0 <= i < name.len() implies ((#[trigger] name[i]) as u32 >= 32
            || name[i] == '\t') && name[i] as u32 != 127 by {
            assert(name[i] == attachment(name)[start.len() + i]);
        }
    }
}

/// The name under which an original image is offered has no quotes, so that the
/// header ends where it should.
pub proof fn lemma_offered_name_has_no_quotes(name: Seq<char>)
    ensures
        !crate::text::replace_char_spec(name, '"', '_').contains('"'),
{
}

// ----------------------------------------------------------------------------
// Laws
// ----------------------------------------------------------------------------

/// The sizes of cached levels are those of the levels, one for one.
pub proof fn lemma_cached_sizes(levels: Seq<LevelInfo>, i: int)
    requires
        0 <= i < levels.len(),
    ensures
        cached_sizes(levels).len() == levels.len(),
        cached_sizes(levels)[i].level == levels[i].level,
        cached_sizes(levels)[i].width == levels[i].width,
        cached_sizes(levels)[i].height == levels[i].height,
{
}

/// The status that a client is told is the one that a status file with that word stands
/// for; a ready pyramid whose levels cannot be read is told as pending. The first level
/// is the image itself.
pub proof fn lemma_told_status(
    info: PyramidInfo,
    status: PyramidStatus,
    cached: Option<PyramidMetadata>,
    width: u32,
    height: u32,
)
    requires
        describes_pyramid(info, status, cached, width, height),
    ensures
        info.status@ == "ready"@ <==> status == PyramidStatus::Ready && cached is Some,
        info.status@ == "building"@ <==> status == PyramidStatus::Building,
        info.status@ == "failed"@ <==> status == PyramidStatus::Failed,
        info.status@ == "ready"@ || info.status@ == "building"@ ==> status
            == crate::pyramid::storage::status_of(Some(info.status@)),
        info.status@ == "ready"@ ==> info.levels@.len() == (cached->0).levels@.len(),
        info.status@ != "ready"@ ==> info.levels@.len() > 0 && info.levels@[0] == (LevelSize {
            level: 0,
            width,
            height,
        }),
{
    reveal_strlit("ready");
    reveal_strlit("building");
    reveal_strlit("failed");
    reveal_strlit("pending");
    assert("ready"@[0] == 'r');
    assert("building"@[0] == 'b');
    assert("failed"@[0] == 'f');
    assert("pending"@[0] == 'p');
    crate::pyramid::storage::lemma_status_round_trip(Seq::empty());
    if !(status == PyramidStatus::Ready && cached is Some) {
        assert(info.levels@[0] == crate::pyramid::levels::level_size(width, height, 0));
    }
}

/// Every failure is told with its cause at the end. Only an image that is not found is
/// the client's mistake; everything else is the server's.
pub proof fn lemma_failures_tell_their_cause(step: ImageStep, cause: Seq<char>)
    ensures
        ({
            let (status, message) = image_failure_spec(step, cause);
            &&& message.len() >= cause.len()
            &&& message.skip(message.len() - cause.len()) == cause
            &&& status == StatusCode::NotFound <==> step == ImageStep::Find
            &&& status == StatusCode::NotFound || status == StatusCode::InternalServerError
        }),
{
    let message = image_failure_spec(step, cause).1;
    assert(message.skip(message.len() - cause.len()) =~= cause);
}

/// A thumbnail that is given out is the PNG of the level's first layer, which then has
/// the level's size; no other failure than the server's is told.
pub proof fn lemma_thumbnails_have_their_size(
    level: LevelInfo,
    layers: Seq<(u32, Vec<u8>)>,
    r: Result<Vec<u8>, (StatusCode, String)>,
)
    requires
        gives_thumbnail(level, layers, r),
    ensures
        r matches Ok(png) ==> layers.len() > 0 && layers[0].1@.len() == 4 * level.width
            * level.height && crate::pixels::png_of(level.width, level.height, layers[0].1@) == Ok::<
            Seq<u8>,
            Seq<char>,
        >(png@),
        r matches Err(failure) ==> failure.0 == StatusCode::InternalServerError,
        layers.len() == 0 || layers[0].1@.len() != 4 * level.width * level.height ==> r is Err,
{
}

/// The name under which a file is offered stands in the header between quotes, so
/// different names make different headers.
pub proof fn lemma_offered_names_differ(a: Seq<char>, b: Seq<char>)
    ensures
        attachment(a).len() == a.len() + 23,
        attachment(a).subrange(22, 22 + a.len() as int) == a,
        attachment(a)[21] == '"',
        attachment(a).last() == '"',
        attachment(a) == attachment(b) ==> a == b,
{
    reveal_strlit("attachment; filename=\"");
    reveal_strlit("\"");
    assert(attachment(a).subrange(22, 22 + a.len() as int) =~= a);
    assert(attachment(b).subrange(22, 22 + b.len() as int) =~= b);
    assert(attachment(b).len() == b.len() + 23);
}

/// What a client is told of a failure says which step failed.
pub proof fn lemma_failed_steps_are_told_apart(a: ImageStep, b: ImageStep, cause: Seq<char>)
    requires
        image_failure_spec(a, cause).1 == image_failure_spec(b, cause).1,
    ensures
        a == b,
{
    reveal_strlit("Image not found: ");
    reveal_strlit("Hash error: ");
    reveal_strlit("Metadata error: ");
    reveal_strlit("Level load error: ");
    reveal_strlit("PNG encode error: ");
    reveal_strlit("Read error: ");
    reveal_strlit("Invalid header value: ");
    reveal_strlit("Failed to build image archive: ");
    reveal_strlit("Failed to build image archive part: ");
    let one = image_failure_spec(a, cause).1;
    let two = image_failure_spec(b, cause).1;
    assert(one.len() == two.len());
    assert(one[0] == two[0]);
}

} // verus!
