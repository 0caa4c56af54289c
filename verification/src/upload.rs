//! Uploads of images into the data directory: the paths that clients may name,
//! and the limits that an upload keeps.

use vstd::prelude::*;

use crate::status::StatusCode;
use crate::text::{contains_char, join, push_decimal, replace_char, same_text, split, to_chars, trim};

verus! {

/// The multipart field that names the destination folder.
pub const UPLOAD_FIELD_TARGET_ROOT: &'static str = "target_root";

/// The multipart field that carries a file.
pub const UPLOAD_FIELD_FILES: &'static str = "files";

pub const MAX_UPLOAD_FILES: usize = 2_000;

pub const MAX_UPLOAD_FILE_BYTES: usize = 536_870_912;

pub const MAX_UPLOAD_TOTAL_BYTES: usize = 2_147_483_648;

// ----------------------------------------------------------------------------
// Paths
// ----------------------------------------------------------------------------

/// A path as a client wrote it, trimmed, with `/` as its separator.
pub open spec fn unified(raw: Seq<char>) -> Seq<char> {
    crate::text::replace_char_spec(crate::text::trim_spec(raw), '\\', '/')
}

/// The parts of a path as a client wrote it, each trimmed.
pub open spec fn upload_parts(raw: Seq<char>) -> Seq<Seq<char>> {
    crate::text::split_spec(unified(raw), '/').map_values(
        |part: Seq<char>| crate::text::trim_spec(part),
    )
}

/// Whether a part adds nothing to a path.
pub open spec fn is_skipped(part: Seq<char>) -> bool {
    part.len() == 0 || part == seq!['.']
}

/// Why a part may not stand in a path.
pub open spec fn rejection(part: Seq<char>) -> Option<Seq<char>> {
    if part == seq!['.', '.'] {
        Some("Upload path contains parent traversal ('..')"@)
    } else if part.contains('\0') {
        Some("Upload path contains NUL byte"@)
    } else if part.contains(':') {
        Some("Upload path contains invalid ':' character"@)
    } else {
        None
    }
}

/// Why the first part that may not stand in a path may not.
pub open spec fn first_rejection(parts: Seq<Seq<char>>) -> Option<Seq<char>>
    decreases parts.len(),
{
    if parts.len() == 0 {
        None
    } else {
        match first_rejection(parts.drop_last()) {
            Some(reason) => Some(reason),
            None => rejection(parts.last()),
        }
    }
}

/// Picks the parts that add to a path.
pub open spec fn is_kept() -> spec_fn(Seq<char>) -> bool {
    |part: Seq<char>| !is_skipped(part)
}

/// The segments of a path as a client wrote it, or why it is refused.
pub open spec fn upload_segments(raw: Seq<char>, allow_empty: bool) -> Result<
    Seq<Seq<char>>,
    Seq<char>,
> {
    let path = unified(raw);
    let kept = upload_parts(raw).filter(is_kept());
    if path.len() == 0 {
        if allow_empty {
            Ok(Seq::empty())
        } else {
            Err("Upload path is empty"@)
        }
    } else if path[0] == '/' {
        Err("Absolute upload paths are not allowed"@)
    } else if first_rejection(upload_parts(raw)) is Some {
        Err(first_rejection(upload_parts(raw))->0)
    } else if !allow_empty && kept.len() == 0 {
        Err("Upload path is empty"@)
    } else {
        Ok(kept)
    }
}

fn bad_request<T>(message: &str) -> (r: Result<T, (StatusCode, String)>)
    ensures
        r matches Err(e) && e.0 == StatusCode::BadRequest && e.1@ == message@,
{
    Err((StatusCode::BadRequest, message.to_owned()))
}

proof fn lemma_first_rejection_stays(parts: Seq<Seq<char>>, i: int)
    requires
        0 <= i < parts.len(),
        first_rejection(parts.take(i)) is None,
        rejection(parts[i]) is Some,
    ensures
        first_rejection(parts) == rejection(parts[i]),
    decreases parts.len(),
{
    if i == parts.len() - 1 {
        assert(parts.take(i) =~= parts.drop_last());
    } else {
        assert(parts.drop_last().take(i) =~= parts.take(i));
        lemma_first_rejection_stays(parts.drop_last(), i);
    }
}

/// A part that is skipped is never refused.
proof fn lemma_skipped_not_rejected(part: Seq<char>)
    requires
        is_skipped(part),
    ensures
        rejection(part) is None,
{
    if part.len() > 0 {
        assert(part[0] == '.');
        assert forall|i: int| 0 <= i < part.len() implies part[i] == '.' by {}
    }
    assert(part.len() < 2);
    assert(seq!['.', '.'].len() == 2);
}

/// Splits a path that a client named into its segments.
pub fn split_upload_segments(raw: &str, allow_empty: bool) -> (r: Result<
    Vec<String>,
    (StatusCode, String),
>)
    ensures
        match r {
            Ok(segments) => upload_segments(raw@, allow_empty) == Ok::<Seq<Seq<char>>, Seq<char>>(
                crate::text::texts(segments@),
            ),
            Err(error) => error.0 == StatusCode::BadRequest && upload_segments(raw@, allow_empty)
                == Err::<Seq<Seq<char>>, Seq<char>>(error.1@),
        },
{
    let normalized = replace_char(trim(raw).as_str(), '\\', '/');
    let chars = to_chars(normalized.as_str());
    if chars.len() == 0 {
        if allow_empty {
            let none: Vec<String> = Vec::new();
            assert(crate::text::texts(none@) =~= Seq::<Seq<char>>::empty());
            return Ok(none);
        }
        return bad_request("Upload path is empty");
    }
    if chars[0] == '/' {
        return bad_request("Absolute upload paths are not allowed");
    }
    let pieces = split(normalized.as_str(), '/');
    let ghost parts = upload_parts(raw@);
    let mut segments: Vec<String> = Vec::new();
    let mut i: usize = 0;
    assert(parts.take(0) =~= Seq::<Seq<char>>::empty());
    proof {
        reveal(Seq::filter);
    }
    assert(crate::text::texts(segments@) =~= parts.take(0).filter(is_kept()));
    while i < pieces.len()
        invariant
            i <= pieces@.len(),
            parts == upload_parts(raw@),
            crate::text::texts(pieces@) == crate::text::split_spec(unified(raw@), '/'),
            unified(raw@).len() > 0,
            unified(raw@)[0] != '/',
            crate::text::texts(segments@) == parts.take(i as int).filter(is_kept()),
            first_rejection(parts.take(i as int)) is None,
        decreases pieces@.len() - i,
    {
        let part = trim(pieces[i].as_str());
        assert(crate::text::texts(pieces@)[i as int] == pieces@[i as int]@);
        assert(part@ == parts[i as int]);
        let ghost next = parts.take(i + 1);
        assert(next.drop_last() =~= parts.take(i as int));
        proof {
            reveal(Seq::filter);
            reveal_strlit(".");
            reveal_strlit("..");
            assert("."@ =~= seq!['.']);
            assert(".."@ =~= seq!['.', '.']);
        }
        if part.as_str().is_empty() || same_text(part.as_str(), ".") {
            proof {
                lemma_skipped_not_rejected(part@);
            }
            i = i + 1;
            continue ;
        }
        if same_text(part.as_str(), "..") {
            proof {
                lemma_first_rejection_stays(parts, i as int);
            }
            return bad_request("Upload path contains parent traversal ('..')");
        }
        if contains_char(part.as_str(), '\0') {
            proof {
                lemma_first_rejection_stays(parts, i as int);
            }
            return bad_request("Upload path contains NUL byte");
        }
        if contains_char(part.as_str(), ':') {
            proof {
                lemma_first_rejection_stays(parts, i as int);
            }
            return bad_request("Upload path contains invalid ':' character");
        }
        let ghost before = crate::text::texts(segments@);
        segments.push(part);
        assert(crate::text::texts(segments@) =~= before.push(parts[i as int]));
        i = i + 1;
    }
    assert(parts.take(i as int) =~= parts);
    if !allow_empty && segments.len() == 0 {
        return bad_request("Upload path is empty");
    }
    Ok(segments)
}

/// The normalized form of a path as a client wrote it, or why it is refused.
pub open spec fn normalized_upload_path(raw: Seq<char>, allow_empty: bool) -> Result<
    Seq<char>,
    Seq<char>,
> {
    match upload_segments(raw, allow_empty) {
        Ok(segments) => Ok(crate::text::join_spec(segments, seq!['/'])),
        Err(message) => Err(message),
    }
}

/// Normalizes a path that a client named.
pub fn normalize_upload_path(raw: &str, allow_empty: bool) -> (r: Result<
    String,
    (StatusCode, String),
>)
    ensures
        match r {
            Ok(path) => normalized_upload_path(raw@, allow_empty) == Ok::<Seq<char>, Seq<char>>(
                path@,
            ),
            Err(error) => error.0 == StatusCode::BadRequest && normalized_upload_path(
                raw@,
                allow_empty,
            ) == Err::<Seq<char>, Seq<char>>(error.1@),
        },
{
    proof {
        reveal_strlit("/");
        assert("/"@ =~= seq!['/']);
    }
    match split_upload_segments(raw, allow_empty) {
        Ok(segments) => Ok(join(&segments, "/")),
        Err(error) => Err(error),
    }
}

/// The path of an uploaded file inside the data directory, or why it is
/// refused: the target folder, which may be empty, and the client's file name.
pub open spec fn upload_relative_path(target_root: Seq<char>, client_file_name: Seq<char>) -> Result<
    Seq<char>,
    Seq<char>,
> {
    match upload_segments(target_root, true) {
        Ok(root) => match upload_segments(client_file_name, false) {
            Ok(name) => Ok(crate::text::join_spec(root + name, seq!['/'])),
            Err(message) => Err(message),
        },
        Err(message) => Err(message),
    }
}

/// Builds the path of an uploaded file inside the data directory.
pub fn build_upload_relative_path(target_root: &str, client_file_name: &str) -> (r: Result<
    String,
    (StatusCode, String),
>)
    ensures
        match r {
            Ok(path) => upload_relative_path(target_root@, client_file_name@) == Ok::<
                Seq<char>,
                Seq<char>,
            >(path@),
            Err(error) => error.0 == StatusCode::BadRequest && upload_relative_path(
                target_root@,
                client_file_name@,
            ) == Err::<Seq<char>, Seq<char>>(error.1@),
        },
{
    let mut segments = match split_upload_segments(target_root, true) {
        Ok(segments) => segments,
        Err(error) => {
            return Err(error);
        },
    };
    let mut names = match split_upload_segments(client_file_name, false) {
        Ok(names) => names,
        Err(error) => {
            return Err(error);
        },
    };
    let ghost root = crate::text::texts(segments@);
    let ghost name = crate::text::texts(names@);
    segments.append(&mut names);
    assert(crate::text::texts(segments@) =~= root + name);
    proof {
        reveal_strlit("/");
        assert("/"@ =~= seq!['/']);
    }
    Ok(join(&segments, "/"))
}

/// Whether a segment may stand in a path inside the data directory.
pub open spec fn is_clean_segment(segment: Seq<char>) -> bool {
    &&& segment.len() > 0
    &&& crate::text::is_trimmed(segment)
    &&& segment != seq!['.']
    &&& segment != seq!['.', '.']
    &&& !segment.contains('/')
    &&& !segment.contains('\\')
    &&& !segment.contains('\0')
    &&& !segment.contains(':')
}

proof fn lemma_no_rejection(parts: Seq<Seq<char>>, i: int)
    requires
        first_rejection(parts) is None,
        0 <= i < parts.len(),
    ensures
        rejection(parts[i]) is None,
    decreases parts.len(),
{
    if i < parts.len() - 1 {
        lemma_no_rejection(parts.drop_last(), i);
    }
}

proof fn lemma_all_accepted(parts: Seq<Seq<char>>)
    requires
        forall|i: int| 0 <= i < parts.len() ==> rejection(#[trigger] parts[i]) is None,
    ensures
        first_rejection(parts) is None,
    decreases parts.len(),
{
    if parts.len() > 0 {
        let front = parts.drop_last();
        assert forall|i: int| 0 <= i < front.len() implies rejection(#[trigger] front[i]) is None by {
            assert(rejection(parts[i]) is None);
        }
        lemma_all_accepted(front);
        assert(rejection(parts[parts.len() - 1]) is None);
    }
}

proof fn lemma_kept_from(parts: Seq<Seq<char>>, i: int) -> (k: int)
    requires
        0 <= i < parts.filter(is_kept()).len(),
    ensures
        0 <= k < parts.len(),
        parts[k] == parts.filter(is_kept())[i],
        !is_skipped(parts[k]),
    decreases parts.len(),
{
    reveal(Seq::filter);
    let front = parts.drop_last();
    if !is_skipped(parts.last()) && i == parts.filter(is_kept()).len() - 1 {
        parts.len() - 1
    } else {
        lemma_kept_from(front, i)
    }
}

proof fn lemma_all_kept(parts: Seq<Seq<char>>)
    requires
        forall|i: int| 0 <= i < parts.len() ==> !is_skipped(#[trigger] parts[i]),
    ensures
        parts.filter(is_kept()) == parts,
    decreases parts.len(),
{
    reveal(Seq::filter);
    if parts.len() > 0 {
        let front = parts.drop_last();
        assert forall|i: int| 0 <= i < front.len() implies !is_skipped(#[trigger] front[i]) by {
            assert(!is_skipped(parts[i]));
        }
        lemma_all_kept(front);
        assert(!is_skipped(parts[parts.len() - 1]));
        assert(front.push(parts.last()) =~= parts);
    }
}

/// Every segment of an accepted path is clean, and a path that may not be empty
/// has a segment.
pub proof fn lemma_upload_segments_are_clean(raw: Seq<char>, allow_empty: bool)
    ensures
        upload_segments(raw, allow_empty) matches Ok(segments) ==> {
            &&& !allow_empty ==> segments.len() > 0
            &&& forall|i: int| 0 <= i < segments.len() ==> is_clean_segment(#[trigger] segments[i])
        },
{
    if let Ok(segments) = upload_segments(raw, allow_empty) {
        if unified(raw).len() > 0 {
            let parts = upload_parts(raw);
            let pieces = crate::text::split_spec(unified(raw), '/');
            crate::text::lemma_split(unified(raw), '/');
            assert forall|i: int| 0 <= i < segments.len() implies is_clean_segment(
                #[trigger] segments[i],
            ) by {
                let k = lemma_kept_from(parts, i);
                lemma_no_rejection(parts, k);
                crate::text::lemma_trim(pieces[k]);
                assert(parts[k] == crate::text::trim_spec(pieces[k]));
                if segments[i].contains('/') {
                    crate::text::lemma_trim_chars(pieces[k], '/');
                    assert(!pieces[k].contains('/'));
                }
                if segments[i].contains('\\') {
                    crate::text::lemma_trim_chars(pieces[k], '\\');
                    crate::text::lemma_split_chars(unified(raw), '/', k, '\\');
                    let j = choose|j: int|
                        0 <= j < unified(raw).len() && unified(raw)[j] == '\\';
                    assert(unified(raw)[j] != '\\');
                }
            }
        }
    }
}

/// Clean segments, joined, are a safe relative path, and splitting the path
/// gives the segments back.
proof fn lemma_clean_path(segments: Seq<Seq<char>>, allow_empty: bool)
    requires
        segments.len() > 0,
        forall|i: int| 0 <= i < segments.len() ==> is_clean_segment(#[trigger] segments[i]),
    ensures
        ({
            let path = crate::text::join_spec(segments, seq!['/']);
            &&& crate::paths::is_safe_relative(path)
            &&& !path.contains('\\') && !path.contains('\0') && !path.contains(':')
            &&& upload_segments(path, allow_empty) == Ok::<Seq<Seq<char>>, Seq<char>>(segments)
        }),
{
    let path = crate::text::join_spec(segments, seq!['/']);
    assert forall|i: int| 0 <= i < segments.len() implies (#[trigger] segments[i]).len() > 0 by {
        assert(is_clean_segment(segments[i]));
    }
    assert forall|i: int| 0 <= i < segments.len() implies !(#[trigger] segments[i]).contains(
        '/',
    ) by {
        assert(is_clean_segment(segments[i]));
    }
    crate::text::lemma_join(segments, '/');
    crate::text::lemma_split_of_join(segments, '/');
    assert(is_clean_segment(segments[0]));
    assert(is_clean_segment(segments[segments.len() - 1]));
    assert(segments[0].contains(segments[0][0]));
    assert(!crate::text::split_spec(path, '/').contains(seq!['.', '.'])) by {
        if segments.contains(seq!['.', '.']) {
            let k = choose|k: int| 0 <= k < segments.len() && segments[k] == seq!['.', '.'];
            assert(is_clean_segment(segments[k]));
        }
    }
    assert(!path.contains('\\'));
    crate::text::lemma_trim_fixed(path);
    assert(unified(path) =~= path) by {
        assert forall|i: int| 0 <= i < path.len() implies path[i] != '\\' by {
            assert(path.contains(path[i]));
        }
    }
    let parts = upload_parts(path);
    assert(parts =~= segments) by {
        assert forall|i: int| 0 <= i < segments.len() implies parts[i] == segments[i] by {
            assert(is_clean_segment(segments[i]));
            crate::text::lemma_trim_fixed(segments[i]);
        }
    }
    assert forall|i: int| 0 <= i < parts.len() implies rejection(#[trigger] parts[i]) is None by {
        assert(is_clean_segment(segments[i]));
    }
    lemma_all_accepted(parts);
    assert forall|i: int| 0 <= i < parts.len() implies !is_skipped(#[trigger] parts[i]) by {
        assert(is_clean_segment(segments[i]));
    }
    lemma_all_kept(parts);
}

/// An accepted upload stays inside the data directory: its path is not empty,
/// does not start at the root, never goes to a parent, and holds no backslash,
/// NUL or colon.
pub proof fn lemma_upload_path_is_safe(target_root: Seq<char>, client_file_name: Seq<char>)
    ensures
        upload_relative_path(target_root, client_file_name) matches Ok(path) ==> {
            &&& crate::paths::is_safe_relative(path)
            &&& !path.contains('\\')
            &&& !path.contains('\0')
            &&& !path.contains(':')
        },
{
    lemma_upload_segments_are_clean(target_root, true);
    lemma_upload_segments_are_clean(client_file_name, false);
    if let Ok(root) = upload_segments(target_root, true) {
        if let Ok(name) = upload_segments(client_file_name, false) {
            let segments = root + name;
            assert forall|i: int| 0 <= i < segments.len() implies is_clean_segment(
                #[trigger] segments[i],
            ) by {
                if i < root.len() {
                    assert(is_clean_segment(root[i]));
                } else {
                    assert(is_clean_segment(name[i - root.len()]));
                }
            }
            lemma_clean_path(segments, false);
        }
    }
}

/// Normalizing a normalized path changes nothing.
pub proof fn lemma_normalize_is_idempotent(raw: Seq<char>, allow_empty: bool)
    ensures
        normalized_upload_path(raw, allow_empty) matches Ok(path) ==> normalized_upload_path(
            path,
            allow_empty,
        ) == Ok::<Seq<char>, Seq<char>>(path),
{
    lemma_upload_segments_are_clean(raw, allow_empty);
    if let Ok(segments) = upload_segments(raw, allow_empty) {
        if segments.len() > 0 {
            lemma_clean_path(segments, allow_empty);
        } else {
            lemma_empty_path(crate::text::join_spec(segments, seq!['/']));
        }
    }
}

proof fn lemma_empty_path(path: Seq<char>)
    requires
        path.len() == 0,
    ensures
        unified(path).len() == 0,
        upload_segments(path, true) == Ok::<Seq<Seq<char>>, Seq<char>>(Seq::empty()),
{
    assert(crate::text::trim_spec(path) =~= path);
}

/// A target folder may be normalized before it is used: the path of an upload
/// does not change.
pub proof fn lemma_target_root_may_be_normalized(
    target_root: Seq<char>,
    client_file_name: Seq<char>,
)
    ensures
        normalized_upload_path(target_root, true) matches Ok(root) ==> upload_relative_path(
            root,
            client_file_name,
        ) == upload_relative_path(target_root, client_file_name),
{
    lemma_upload_segments_are_clean(target_root, true);
    if let Ok(segments) = upload_segments(target_root, true) {
        if segments.len() > 0 {
            lemma_clean_path(segments, true);
        } else {
            lemma_empty_path(crate::text::join_spec(segments, seq!['/']));
            assert(segments =~= Seq::<Seq<char>>::empty());
        }
    }
}

// ----------------------------------------------------------------------------
// Upload session
// ----------------------------------------------------------------------------

/// The files that an upload has stored.
#[derive(Debug)]
pub struct UploadedFiles {
    pub files: Vec<String>,
}

impl UploadedFiles {
    /// How many files were stored.
    pub fn uploaded_count(&self) -> (count: usize)
        ensures
            count == self.files@.len(),
    {
        self.files.len()
    }
}

/// What an upload has seen so far.
#[derive(Debug)]
pub struct UploadSession {
    pub target_root: String,
    pub total_bytes: usize,
    pub file_count: usize,
    pub uploaded_files: Vec<String>,
    pub seen_file_fields: bool,
}

/// A file that is being uploaded.
#[derive(Debug)]
pub struct FileUpload {
    pub relative_path: String,
    pub file_bytes: usize,
}

/// The sum of two sizes, held at the greatest `usize`.
pub open spec fn saturating_sum(a: usize, b: usize) -> int {
    if a + b > usize::MAX {
        usize::MAX as int
    } else {
        a + b
    }
}

/// The message for an upload of too many files.
pub open spec fn too_many_files_message() -> Seq<char> {
    "Upload exceeds maximum of "@ + crate::text::decimal(MAX_UPLOAD_FILES as nat) + " files"@
}

/// The message for a file that is too large.
pub open spec fn file_too_large_message(relative_path: Seq<char>) -> Seq<char> {
    "File '"@ + relative_path + "' exceeds per-file limit ("@ + crate::text::decimal(
        MAX_UPLOAD_FILE_BYTES as nat,
    ) + " bytes)"@
}

/// The message for an upload that is too large.
pub open spec fn upload_too_large_message() -> Seq<char> {
    "Upload exceeds total limit ("@ + crate::text::decimal(MAX_UPLOAD_TOTAL_BYTES as nat)
        + " bytes)"@
}

/// The message for a file of no supported type.
pub open spec fn unsupported_message(relative_path: Seq<char>) -> Seq<char> {
    "Unsupported file type: "@ + relative_path
}

/// The message for a file without contents.
pub open spec fn empty_file_message(relative_path: Seq<char>) -> Seq<char> {
    "Uploaded file '"@ + relative_path + "' is empty"@
}

/// Refuses a file count over the limit.
pub fn enforce_file_count_limit(file_count: usize) -> (r: Result<(), (StatusCode, String)>)
    ensures
        match r {
            Ok(()) => file_count <= MAX_UPLOAD_FILES,
            Err(error) => file_count > MAX_UPLOAD_FILES && error.0 == StatusCode::PayloadTooLarge
                && error.1@ == too_many_files_message(),
        },
{
    if file_count > MAX_UPLOAD_FILES {
        let mut message = "Upload exceeds maximum of ".to_owned();
        push_decimal(&mut message, MAX_UPLOAD_FILES as u64);
        message.append(" files");
        Err((StatusCode::PayloadTooLarge, message))
    } else {
        Ok(())
    }
}

impl FileUpload {
    /// Whether the file stays inside the data directory and within its limit.
    pub open spec fn wf(&self) -> bool {
        &&& crate::paths::is_safe_relative(self.relative_path@)
        &&& self.file_bytes <= MAX_UPLOAD_FILE_BYTES
    }
}

impl UploadSession {
    /// Whether the upload keeps its limits and every stored file stays inside
    /// the data directory.
    pub open spec fn wf(&self) -> bool {
        &&& self.file_count <= MAX_UPLOAD_FILES
        &&& self.total_bytes <= MAX_UPLOAD_TOTAL_BYTES
        &&& forall|i: int|
            0 <= i < self.uploaded_files@.len() ==> crate::paths::is_safe_relative(
                (#[trigger] self.uploaded_files@[i])@,
            )
    }

    /// An upload that has seen nothing.
    pub fn new() -> (session: Self)
        ensures
            session.target_root@ == Seq::<char>::empty(),
            session.total_bytes == 0,
            session.file_count == 0,
            session.uploaded_files@ == Seq::<String>::empty(),
            !session.seen_file_fields,
            session.wf(),
    {
        UploadSession {
            target_root: String::new(),
            total_bytes: 0,
            file_count: 0,
            uploaded_files: Vec::new(),
            seen_file_fields: false,
        }
    }

    /// Whether a target folder may still be named: it must come before the files.
    pub fn begin_target_root(&self) -> (r: Result<(), (StatusCode, String)>)
        ensures
            match r {
                Ok(()) => !self.seen_file_fields,
                Err(error) => self.seen_file_fields && error.0 == StatusCode::BadRequest
                    && error.1@ == "'target_root' must appear before file fields"@,
            },
    {
        if self.seen_file_fields {
            bad_request("'target_root' must appear before file fields")
        } else {
            Ok(())
        }
    }

    /// Takes the target folder as read from the payload, or the reason why it
    /// could not be read.
    pub fn set_target_root(&mut self, text: Result<String, String>) -> (r: Result<
        (),
        (StatusCode, String),
    >)
        ensures
            final(self).total_bytes == old(self).total_bytes,
            final(self).file_count == old(self).file_count,
            final(self).uploaded_files == old(self).uploaded_files,
            final(self).seen_file_fields == old(self).seen_file_fields,
            match r {
                Ok(()) => text matches Ok(raw) && normalized_upload_path(raw@, true) == Ok::<
                    Seq<char>,
                    Seq<char>,
                >(final(self).target_root@),
                Err(error) => {
                    &&& final(self).target_root == old(self).target_root
                    &&& error.0 == StatusCode::BadRequest
                    &&& match text {
                        Ok(raw) => normalized_upload_path(raw@, true) == Err::<
                            Seq<char>,
                            Seq<char>,
                        >(error.1@),
                        Err(cause) => error.1@ == "Failed to read target_root: "@ + cause@,
                    }
                },
            },
    {
        match text {
            Ok(raw) => match normalize_upload_path(raw.as_str(), true) {
                Ok(root) => {
                    self.target_root = root;
                    Ok(())
                },
                Err(error) => Err(error),
            },
            Err(cause) => {
                let mut message = "Failed to read target_root: ".to_owned();
                message.append(cause.as_str());
                Err((StatusCode::BadRequest, message))
            },
        }
    }

    /// Takes a file field: counts it, and resolves the path under the target
    /// folder at which it will be stored.
    pub fn begin_file(&mut self, client_file_name: Option<String>) -> (r: Result<
        FileUpload,
        (StatusCode, String),
    >)
        ensures
            final(self).target_root == old(self).target_root,
            final(self).total_bytes == old(self).total_bytes,
            final(self).uploaded_files == old(self).uploaded_files,
            final(self).seen_file_fields,
            final(self).file_count == saturating_sum(old(self).file_count, 1),
            match r {
                Ok(upload) => {
                    &&& final(self).file_count <= MAX_UPLOAD_FILES
                    &&& upload.file_bytes == 0
                    &&& upload.wf()
                    &&& client_file_name matches Some(name) && upload_relative_path(
                        old(self).target_root@,
                        name@,
                    ) == Ok::<Seq<char>, Seq<char>>(upload.relative_path@)
                },
                Err(error) => if final(self).file_count > MAX_UPLOAD_FILES {
                    error.0 == StatusCode::PayloadTooLarge && error.1@ == too_many_files_message()
                } else {
                    error.0 == StatusCode::BadRequest && match client_file_name {
                        None => error.1@ == "Each uploaded file must include a filename"@,
                        Some(name) => upload_relative_path(old(self).target_root@, name@) == Err::<
                            Seq<char>,
                            Seq<char>,
                        >(error.1@),
                    }
                },
            },
            old(self).wf() && r is Ok ==> final(self).wf(),
    {
        self.seen_file_fields = true;
        self.file_count = self.file_count.saturating_add(1);
        match enforce_file_count_limit(self.file_count) {
            Ok(()) => {},
            Err(error) => {
                return Err(error);
            },
        }
        match client_file_name {
            None => bad_request("Each uploaded file must include a filename"),
            Some(name) => match build_upload_relative_path(
                self.target_root.as_str(),
                name.as_str(),
            ) {
                Ok(relative_path) => {
                    proof {
                        lemma_upload_path_is_safe(self.target_root@, name@);
                    }
                    Ok(FileUpload { relative_path, file_bytes: 0 })
                },
                Err(error) => Err(error),
            },
        }
    }

    /// Counts a chunk of the current file. Where it is refused, what was stored
    /// of the file is to be removed.
    pub fn accept_chunk(&mut self, upload: &mut FileUpload, chunk_len: usize) -> (r: Result<
        (),
        (StatusCode, String),
    >)
        ensures
            final(self).target_root == old(self).target_root,
            final(self).file_count == old(self).file_count,
            final(self).uploaded_files == old(self).uploaded_files,
            final(self).seen_file_fields == old(self).seen_file_fields,
            final(self).total_bytes == saturating_sum(old(self).total_bytes, chunk_len),
            final(upload).relative_path == old(upload).relative_path,
            final(upload).file_bytes == saturating_sum(old(upload).file_bytes, chunk_len),
            match r {
                Ok(()) => final(upload).file_bytes <= MAX_UPLOAD_FILE_BYTES && final(self).total_bytes <= MAX_UPLOAD_TOTAL_BYTES,
                Err(error) => {
                    &&& error.0 == StatusCode::PayloadTooLarge
                    &&& if final(upload).file_bytes > MAX_UPLOAD_FILE_BYTES {
                        error.1@ == file_too_large_message(old(upload).relative_path@)
                    } else {
                        final(self).total_bytes > MAX_UPLOAD_TOTAL_BYTES && error.1@
                            == upload_too_large_message()
                    }
                },
            },
            old(self).wf() && old(upload).wf() && r is Ok ==> final(self).wf() && final(upload).wf(),
    {
        upload.file_bytes = upload.file_bytes.saturating_add(chunk_len);
        self.total_bytes = self.total_bytes.saturating_add(chunk_len);
        if upload.file_bytes > MAX_UPLOAD_FILE_BYTES {
            let mut message = "File '".to_owned();
            message.append(upload.relative_path.as_str());
            message.append("' exceeds per-file limit (");
            push_decimal(&mut message, MAX_UPLOAD_FILE_BYTES as u64);
            message.append(" bytes)");
            return Err((StatusCode::PayloadTooLarge, message));
        }
        if self.total_bytes > MAX_UPLOAD_TOTAL_BYTES {
            let mut message = "Upload exceeds total limit (".to_owned();
            push_decimal(&mut message, MAX_UPLOAD_TOTAL_BYTES as u64);
            message.append(" bytes)");
            return Err((StatusCode::PayloadTooLarge, message));
        }
        Ok(())
    }

    /// Counts a file among the stored ones.
    pub fn complete_file(&mut self, upload: FileUpload)
        ensures
            final(self).target_root == old(self).target_root,
            final(self).total_bytes == old(self).total_bytes,
            final(self).file_count == old(self).file_count,
            final(self).seen_file_fields == old(self).seen_file_fields,
            final(self).uploaded_files@ == old(self).uploaded_files@.push(upload.relative_path),
            old(self).wf() && upload.wf() ==> final(self).wf(),
    {
        self.uploaded_files.push(upload.relative_path);
    }

    /// Ends the upload, which must have stored a file.
    pub fn finish(self) -> (r: Result<UploadedFiles, (StatusCode, String)>)
        ensures
            match r {
                Ok(uploaded) => self.uploaded_files@.len() > 0 && uploaded.files@
                    == self.uploaded_files@,
                Err(error) => self.uploaded_files@.len() == 0 && error.0 == StatusCode::BadRequest
                    && error.1@ == "No files were uploaded"@,
            },
    {
        if self.uploaded_files.len() == 0 {
            bad_request("No files were uploaded")
        } else {
            Ok(UploadedFiles { files: self.uploaded_files })
        }
    }
}

impl FileUpload {
    /// Refuses a file of no supported type.
    pub fn check_type(&self, supported: bool) -> (r: Result<(), (StatusCode, String)>)
        ensures
            match r {
                Ok(()) => supported,
                Err(error) => !supported && error.0 == StatusCode::BadRequest && error.1@
                    == unsupported_message(self.relative_path@),
            },
    {
        if supported {
            Ok(())
        } else {
            let mut message = "Unsupported file type: ".to_owned();
            message.append(self.relative_path.as_str());
            Err((StatusCode::BadRequest, message))
        }
    }

    /// Refuses a file without contents. Where it is refused, what was stored of
    /// the file is to be removed.
    pub fn check_not_empty(&self) -> (r: Result<(), (StatusCode, String)>)
        ensures
            match r {
                Ok(()) => self.file_bytes > 0,
                Err(error) => self.file_bytes == 0 && error.0 == StatusCode::BadRequest
                    && error.1@ == empty_file_message(self.relative_path@),
            },
    {
        if self.file_bytes == 0 {
            let mut message = "Uploaded file '".to_owned();
            message.append(self.relative_path.as_str());
            message.append("' is empty");
            Err((StatusCode::BadRequest, message))
        } else {
            Ok(())
        }
    }

    /// The name under which the file is stored until it is complete.
    pub open spec fn temp_name(&self, token: Seq<char>) -> Seq<char> {
        seq!['.'] + (match crate::paths::file_name_spec(self.relative_path@) {
            Some(name) => name,
            None => "upload"@,
        }) + ".uploading-"@ + token
    }

    /// The name under which the file is stored until it is complete, given a
    /// token that no other upload has.
    pub fn temp_name_with(&self, token: &str) -> (out: String)
        ensures
            out@ == self.temp_name(token@),
    {
        let mut out = String::new();
        out.push('.');
        match crate::paths::file_name(self.relative_path.as_str()) {
            Some(name) => {
                out.append(name.as_str());
            },
            None => {
                out.append("upload");
            },
        }
        out.append(".uploading-");
        out.append(token);
        assert(out@ =~= self.temp_name(token@));
        out
    }

    /// A fresh name under which the file is stored until it is complete.
    pub fn fresh_temp_name(&self) -> (out: String)
        ensures
            exists|token: Seq<char>| is_uuid_text(token) && out@ == #[trigger] self.temp_name(token),
    {
        let token = fresh_token();
        self.temp_name_with(token.as_str())
    }
}

/// Whether a text has the shape of a random UUID: 36 characters, hyphens at the
/// four places, the version digit 4, and lower-case hexadecimal digits
/// elsewhere.
pub open spec fn is_uuid_text(s: Seq<char>) -> bool {
    &&& s.len() == 36
    &&& s[14] == '4'
    &&& forall|i: int|
        0 <= i < 36 ==> if i == 8 || i == 13 || i == 18 || i == 23 {
            #[trigger] s[i] == '-'
        } else {
            ('0' <= s[i] && s[i] <= '9') || ('a' <= s[i] && s[i] <= 'f')
        }
}

/// Trusted: the text of `Uuid::new_v4` has the shape of a random UUID. Which
/// one it is rests on chance and is not stated.
#[verifier::external_body]
fn fresh_token() -> (out: String)
    ensures
        is_uuid_text(out@),
{
    uuid::Uuid::new_v4().to_string()
}

/// A step of an upload that the file system or the connection can fail.
#[derive(Clone, Copy, Debug, PartialEq, Eq, Structural)]
pub enum UploadStep {
    /// Reading the next field of the payload.
    NextField,
    /// Finding the directory of the destination.
    Destination,
    /// Creating the directory of the destination.
    CreateDirectory,
    /// Creating the temporary file.
    CreateTemp,
    /// Reading the next chunk of the file.
    ReadChunk,
    /// Writing a chunk.
    WriteChunk,
    /// Flushing the temporary file.
    Flush,
    /// Renaming the temporary file.
    Finalize,
}

/// The answer to a failed step.
pub open spec fn step_failure(
    step: UploadStep,
    relative_path: Seq<char>,
    cause: Seq<char>,
) -> (StatusCode, Seq<char>) {
    match step {
        UploadStep::NextField => (
            StatusCode::BadRequest,
            "Invalid multipart payload: "@ + cause,
        ),
        UploadStep::Destination => (
            StatusCode::BadRequest,
            "Invalid destination path: "@ + relative_path,
        ),
        UploadStep::CreateDirectory => (
            StatusCode::InternalServerError,
            "Failed to create upload directory: "@ + cause,
        ),
        UploadStep::CreateTemp => (
            StatusCode::InternalServerError,
            "Failed to create temp file '"@ + relative_path + "': "@ + cause,
        ),
        UploadStep::ReadChunk => (
            StatusCode::BadRequest,
            "Failed to read upload chunk for '"@ + relative_path + "': "@ + cause,
        ),
        UploadStep::WriteChunk => (
            StatusCode::InternalServerError,
            "Failed writing upload '"@ + relative_path + "': "@ + cause,
        ),
        UploadStep::Flush => (
            StatusCode::InternalServerError,
            "Failed to flush upload '"@ + relative_path + "': "@ + cause,
        ),
        UploadStep::Finalize => (
            StatusCode::InternalServerError,
            "Failed to finalize upload '"@ + relative_path + "': "@ + cause,
        ),
    }
}

fn about_file(start: &str, relative_path: &str, cause: &str) -> (out: String)
    ensures
        out@ == start@ + relative_path@ + "': "@ + cause@,
{
    let mut out = start.to_owned();
    out.append(relative_path);
    out.append("': ");
    out.append(cause);
    out
}

fn about_cause(start: &str, cause: &str) -> (out: String)
    ensures
        out@ == start@ + cause@,
{
    let mut out = start.to_owned();
    out.append(cause);
    out
}

/// Answers a failed step of an upload.
pub fn upload_failure(step: UploadStep, relative_path: &str, cause: &str) -> (r: (
    StatusCode,
    String,
))
    ensures
        (r.0, r.1@) == step_failure(step, relative_path@, cause@),
{
    match step {
        UploadStep::NextField => (
            StatusCode::BadRequest,
            about_cause("Invalid multipart payload: ", cause),
        ),
        UploadStep::Destination => (
            StatusCode::BadRequest,
            about_cause("Invalid destination path: ", relative_path),
        ),
        UploadStep::CreateDirectory => (
            StatusCode::InternalServerError,
            about_cause("Failed to create upload directory: ", cause),
        ),
        UploadStep::CreateTemp => (
            StatusCode::InternalServerError,
            about_file("Failed to create temp file '", relative_path, cause),
        ),
        UploadStep::ReadChunk => (
            StatusCode::BadRequest,
            about_file("Failed to read upload chunk for '", relative_path, cause),
        ),
        UploadStep::WriteChunk => (
            StatusCode::InternalServerError,
            about_file("Failed writing upload '", relative_path, cause),
        ),
        UploadStep::Flush => (
            StatusCode::InternalServerError,
            about_file("Failed to flush upload '", relative_path, cause),
        ),
        UploadStep::Finalize => (
            StatusCode::InternalServerError,
            about_file("Failed to finalize upload '", relative_path, cause),
        ),
    }
}

// ----------------------------------------------------------------------------
// Laws
// ----------------------------------------------------------------------------

/// A part is refused exactly where it goes to a parent or holds a NUL or a colon.
pub proof fn lemma_refused_parts(part: Seq<char>)
    ensures
        rejection(part) is Some <==> part == seq!['.', '.'] || part.contains('\0')
            || part.contains(':'),
        rejection(part) == Some("Upload path contains parent traversal ('..')"@) ==> rejection(
            part,
        ) is Some,
{
}

/// A path is accepted exactly where it does not start at the root, none of its parts is
/// refused, and some part names something; the empty path is accepted only where that
/// is allowed.
pub proof fn lemma_accepted_paths(raw: Seq<char>, allow_empty: bool)
    ensures
        upload_segments(raw, allow_empty) is Ok <==> {
            ||| unified(raw).len() == 0 && allow_empty
            ||| {
                &&& unified(raw).len() > 0
                &&& unified(raw)[0] != '/'
                &&& forall|i: int|
                    0 <= i < upload_parts(raw).len() ==> rejection(
                        #[trigger] upload_parts(raw)[i],
                    ) is None
                &&& allow_empty || exists|i: int|
                    0 <= i < upload_parts(raw).len() && !is_skipped(#[trigger] upload_parts(raw)[i])
            }
        },
{
    let parts = upload_parts(raw);
    let kept = parts.filter(is_kept());
    if forall|i: int| 0 <= i < parts.len() ==> rejection(#[trigger] parts[i]) is None {
        lemma_all_accepted(parts);
    }
    if first_rejection(parts) is None {
        assert forall|i: int| 0 <= i < parts.len() implies rejection(#[trigger] parts[i]) is None by {
            lemma_no_rejection(parts, i);
        }
    }
    if kept.len() > 0 {
        let k = lemma_kept_from(parts, 0);
        assert(!is_skipped(parts[k]));
    }
    if exists|i: int| 0 <= i < parts.len() && !is_skipped(#[trigger] parts[i]) {
        let i = choose|i: int| 0 <= i < parts.len() && !is_skipped(#[trigger] parts[i]);
        parts.lemma_filter_contains(is_kept(), i);
    }
}

/// Clean segments are accepted as they are, however they are put into a path: the path
/// of a file below a folder is the folder's segments and then the file's.
pub proof fn lemma_clean_paths_are_kept(root: Seq<Seq<char>>, name: Seq<Seq<char>>)
    requires
        name.len() > 0,
        forall|i: int| 0 <= i < root.len() ==> is_clean_segment(#[trigger] root[i]),
        forall|i: int| 0 <= i < name.len() ==> is_clean_segment(#[trigger] name[i]),
    ensures
        ({
            let folder = crate::text::join_spec(root, seq!['/']);
            let file = crate::text::join_spec(name, seq!['/']);
            &&& upload_segments(folder, true) == Ok::<Seq<Seq<char>>, Seq<char>>(root)
            &&& upload_segments(file, false) == Ok::<Seq<Seq<char>>, Seq<char>>(name)
            &&& normalized_upload_path(folder, true) == Ok::<Seq<char>, Seq<char>>(folder)
            &&& upload_relative_path(folder, file) == Ok::<Seq<char>, Seq<char>>(
                crate::text::join_spec(root + name, seq!['/']),
            )
        }),
{
    let folder = crate::text::join_spec(root, seq!['/']);
    if root.len() > 0 {
        lemma_clean_path(root, true);
    } else {
        lemma_empty_path(folder);
        assert(root =~= Seq::<Seq<char>>::empty());
    }
    lemma_clean_path(name, false);
}

/// Backslashes count as slashes, and whitespace around a path does not count.
pub proof fn lemma_spellings_of_a_path(raw: Seq<char>, allow_empty: bool)
    ensures
        !unified(raw).contains('\\'),
        upload_segments(crate::text::trim_spec(raw), allow_empty) == upload_segments(
            raw,
            allow_empty,
        ),
        raw.len() > 0 && crate::text::is_trimmed(raw) ==> unified(raw).len() == raw.len(),
{
    let trimmed = crate::text::trim_spec(raw);
    assert(crate::text::trim_spec(trimmed) == trimmed) by {
        crate::text::lemma_trim(raw);
    }
    assert(unified(trimmed) == unified(raw));
    assert(upload_parts(trimmed) == upload_parts(raw));
    assert forall|i: int| 0 <= i < unified(raw).len() implies unified(raw)[i] != '\\' by {}
    if raw.len() > 0 && crate::text::is_trimmed(raw) {
        crate::text::lemma_trim_fixed(raw);
        assert(unified(raw).len() == raw.len());
    }
}

/// Sizes add up as long as they can be counted, and never fall below either.
pub proof fn lemma_sizes_add_up(a: usize, b: usize)
    ensures
        a + b <= usize::MAX ==> saturating_sum(a, b) == a + b,
        saturating_sum(a, b) >= a,
        saturating_sum(a, b) >= b,
        saturating_sum(a, b) <= usize::MAX,
{
}

/// No file may be larger than all of them together: half a gibibyte for each, two for
/// all, and not more than two thousand of them.
pub proof fn lemma_upload_limits()
    ensures
        MAX_UPLOAD_FILE_BYTES == 512 * 1024 * 1024,
        MAX_UPLOAD_TOTAL_BYTES == 4 * MAX_UPLOAD_FILE_BYTES,
        MAX_UPLOAD_FILES == 2000,
{
}

/// A file that is not yet complete stands under a hidden name, which starts with its
/// own and ends with the token. Different tokens make different names.
pub proof fn lemma_temporary_names(upload: FileUpload, a: Seq<char>, b: Seq<char>)
    ensures
        upload.temp_name(a)[0] == '.',
        upload.temp_name(a).len() >= a.len(),
        upload.temp_name(a).skip(upload.temp_name(a).len() - a.len()) == a,
        crate::paths::file_name_spec(upload.relative_path@) matches Some(name)
            ==> upload.temp_name(a).subrange(1, 1 + name.len() as int) == name && upload.temp_name(a)
            != name,
        a.len() == b.len() && upload.temp_name(a) == upload.temp_name(b) ==> a == b,
{
    reveal_strlit(".uploading-");
    let ta = upload.temp_name(a);
    let tb = upload.temp_name(b);
    assert(ta.skip(ta.len() - a.len()) =~= a);
    assert(tb.skip(tb.len() - b.len()) =~= b);
    if let Some(name) = crate::paths::file_name_spec(upload.relative_path@) {
        assert(ta.subrange(1, 1 + name.len() as int) =~= name);
        assert(ta.len() > name.len());
    }
}

/// What the client sent wrongly is answered as its mistake, what the server could not do
/// as the server's; and each failure is told with its cause, or with the path that
/// cannot be a destination.
pub proof fn lemma_failed_steps(step: UploadStep, relative_path: Seq<char>, cause: Seq<char>)
    ensures
        ({
            let (status, message) = step_failure(step, relative_path, cause);
            let told = if step == UploadStep::Destination { relative_path } else { cause };
            &&& status == StatusCode::BadRequest <==> step == UploadStep::NextField || step
                == UploadStep::Destination || step == UploadStep::ReadChunk
            &&& status == StatusCode::BadRequest || status == StatusCode::InternalServerError
            &&& message.len() >= told.len()
            &&& message.skip(message.len() - told.len()) == told
        }),
{
    let (status, message) = step_failure(step, relative_path, cause);
    let told = if step == UploadStep::Destination {
        relative_path
    } else {
        cause
    };
    assert(message.skip(message.len() - told.len()) =~= told);
}

/// What is told of a refused file names the file.
pub proof fn lemma_refusals_name_the_file(path: Seq<char>)
    ensures
        unsupported_message(path).skip(23) == path,
        empty_file_message(path).subrange(15, 15 + path.len() as int) == path,
        file_too_large_message(path).subrange(6, 6 + path.len() as int) == path,
{
    reveal_strlit("Unsupported file type: ");
    reveal_strlit("Uploaded file '");
    reveal_strlit("File '");
    assert(unsupported_message(path).skip(23) =~= path);
    assert(empty_file_message(path).subrange(15, 15 + path.len() as int) =~= path);
    assert(file_too_large_message(path).subrange(6, 6 + path.len() as int) =~= path);
}

} // verus!
