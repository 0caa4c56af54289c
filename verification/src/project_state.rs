//! The saved annotations of a project: where they are kept, and which are
//! accepted.

use vstd::prelude::*;

use crate::paths::join;
use crate::status::StatusCode;
use crate::text::push_decimal;

verus! {

pub const MAX_PROJECT_STATE_BYTES: usize = 67_108_864;

/// Where the annotations of a project are kept.
pub open spec fn state_path(data_dir: Seq<char>) -> Seq<char> {
    crate::paths::join_spec(
        crate::paths::join_spec(data_dir, ".hvat"@),
        "project_annotations.hvatbundle.json"@,
    )
}

/// Where the annotations of a project are kept.
pub fn project_state_path(data_dir: &str) -> (out: String)
    ensures
        out@ == state_path(data_dir@),
{
    join(join(data_dir, ".hvat").as_str(), "project_annotations.hvatbundle.json")
}

/// Where annotations are written before they replace the saved ones.
pub open spec fn state_temp_path(data_dir: Seq<char>) -> Seq<char> {
    crate::paths::join_spec(
        crate::paths::join_spec(data_dir, ".hvat"@),
        "project_annotations.hvatbundle.tmp"@,
    )
}

/// Where annotations are written before they replace the saved ones.
pub fn project_state_temp_path(data_dir: &str) -> (out: String)
    ensures
        out@ == state_temp_path(data_dir@),
{
    join(join(data_dir, ".hvat").as_str(), "project_annotations.hvatbundle.tmp")
}

/// What is written is not read before it is complete: it stands elsewhere, in the
/// same directory.
pub proof fn lemma_state_is_written_aside(data_dir: Seq<char>)
    ensures
        state_temp_path(data_dir) != state_path(data_dir),
{
    reveal_strlit("project_annotations.hvatbundle.tmp");
    reveal_strlit("project_annotations.hvatbundle.json");
    let dir = crate::paths::join_spec(data_dir, ".hvat"@);
    let temp = crate::paths::join_spec(dir, "project_annotations.hvatbundle.tmp"@);
    let path = crate::paths::join_spec(dir, "project_annotations.hvatbundle.json"@);
    assert(temp.len() + 1 == path.len());
}

/// Whether a payload is accepted: it reads as one of the two kinds of bundles, and
/// that bundle has files.
pub open spec fn is_valid_payload(import_files: Option<usize>, export_files: Option<usize>) -> bool {
    (import_files matches Some(n) && n > 0) || (export_files matches Some(n) && n > 0)
}

/// A payload with a file in it, as either kind of bundle, is accepted, whatever it is as
/// the other; one without files, or that is neither, is not.
pub proof fn lemma_payloads_need_files(
    import_files: Option<usize>,
    export_files: Option<usize>,
    files: usize,
)
    ensures
        files > 0 ==> is_valid_payload(Some(files), export_files) && is_valid_payload(
            import_files,
            Some(files),
        ),
        !is_valid_payload(None, None),
        !is_valid_payload(Some(0), None),
        !is_valid_payload(None, Some(0)),
        !is_valid_payload(Some(0), Some(0)),
        is_valid_payload(import_files, export_files) == is_valid_payload(
            export_files,
            import_files,
        ),
{
}

/// Whether a payload is accepted: it reads as one of the two kinds of bundles, and
/// that bundle has files.
pub fn validate_project_state_payload(
    import_files: Option<usize>,
    export_files: Option<usize>,
) -> (r: bool)
    ensures
        r == is_valid_payload(import_files, export_files),
{
    let import_valid = match import_files {
        Some(files) => files > 0,
        None => false,
    };
    if import_valid {
        return true;
    }
    match export_files {
        Some(files) => files > 0,
        None => false,
    }
}

/// Why a payload is refused, by its length.
pub open spec fn length_refusal(len: nat) -> Option<(StatusCode, Seq<char>)> {
    if len == 0 {
        Some((StatusCode::BadRequest, "Request body is empty"@))
    } else if len > MAX_PROJECT_STATE_BYTES {
        Some(
            (
                StatusCode::PayloadTooLarge,
                "Project state payload exceeds limit of "@ + crate::text::decimal(
                    MAX_PROJECT_STATE_BYTES as nat,
                ) + " bytes"@,
            ),
        )
    } else {
        None
    }
}

/// Refuses a payload that is empty or too large.
pub fn check_project_state_length(len: usize) -> (r: Result<(), (StatusCode, String)>)
    ensures
        match r {
            Ok(()) => length_refusal(len as nat) is None,
            Err((status, message)) => length_refusal(len as nat) == Some((status, message@)),
        },
{
    if len == 0 {
        return Err((StatusCode::BadRequest, "Request body is empty".to_owned()));
    }
    if len > MAX_PROJECT_STATE_BYTES {
        let mut message = "Project state payload exceeds limit of ".to_owned();
        push_decimal(&mut message, MAX_PROJECT_STATE_BYTES as u64);
        message.append(" bytes");
        return Err((StatusCode::PayloadTooLarge, message));
    }
    Ok(())
}

/// Refuses a payload that is no bundle with files.
pub fn check_project_state_bundle(valid: bool) -> (r: Result<(), (StatusCode, String)>)
    ensures
        match r {
            Ok(()) => valid,
            Err((status, message)) => !valid && status == StatusCode::BadRequest && message@
                == "Invalid native project bundle payload"@,
        },
{
    if valid {
        Ok(())
    } else {
        Err((StatusCode::BadRequest, "Invalid native project bundle payload".to_owned()))
    }
}

/// A step of reading or saving annotations.
#[derive(Clone, Copy, Debug, PartialEq, Eq, Structural)]
pub enum StateStep {
    /// The saved annotations are read.
    Read,
    /// The directory is made.
    CreateDirectory,
    /// The annotations are written aside.
    WriteTemp,
    /// They replace the saved ones.
    Finalize,
}

/// How a failed step is answered. That nothing was saved is told apart.
pub open spec fn state_failure(step: StateStep, not_found: bool, cause: Seq<char>) -> (
    StatusCode,
    Seq<char>,
) {
    match step {
        StateStep::Read => if not_found {
            (StatusCode::NotFound, "No saved project state"@)
        } else {
            (
                StatusCode::InternalServerError,
                "Failed to read saved project state: "@ + cause,
            )
        },
        StateStep::CreateDirectory => (
            StatusCode::InternalServerError,
            "Failed to create state directory: "@ + cause,
        ),
        StateStep::WriteTemp => (
            StatusCode::InternalServerError,
            "Failed to write temporary project state: "@ + cause,
        ),
        StateStep::Finalize => (
            StatusCode::InternalServerError,
            "Failed to finalize project state save: "@ + cause,
        ),
    }
}

/// Answers a failed step.
pub fn project_state_failure(step: StateStep, not_found: bool, cause: &str) -> (r: (
    StatusCode,
    String,
))
    ensures
        (r.0, r.1@) == state_failure(step, not_found, cause@),
{
    let start = match step {
        StateStep::Read => {
            if not_found {
                return (StatusCode::NotFound, "No saved project state".to_owned());
            }
            "Failed to read saved project state: "
        },
        StateStep::CreateDirectory => "Failed to create state directory: ",
        StateStep::WriteTemp => "Failed to write temporary project state: ",
        StateStep::Finalize => "Failed to finalize project state save: ",
    };
    let mut message = start.to_owned();
    message.append(cause);
    (StatusCode::InternalServerError, message)
}

/// Both files of a project's annotations stand below the project's own directory.
pub proof fn lemma_state_stands_in_the_project(data_dir: Seq<char>)
    requires
        data_dir.len() > 0,
    ensures
        state_path(data_dir).take(data_dir.len() as int) == data_dir,
        state_path(data_dir).len() > data_dir.len(),
        state_temp_path(data_dir).take(data_dir.len() as int) == data_dir,
        state_temp_path(data_dir).take(
            crate::paths::join_spec(data_dir, ".hvat"@).len() as int,
        ) == state_path(data_dir).take(crate::paths::join_spec(data_dir, ".hvat"@).len() as int),
{
    reveal_strlit(".hvat");
    reveal_strlit("project_annotations.hvatbundle.json");
    reveal_strlit("project_annotations.hvatbundle.tmp");
    let dir = crate::paths::join_spec(data_dir, ".hvat"@);
    crate::paths::lemma_joined_name_is_kept(data_dir, ".hvat"@, ".hvat"@);
    crate::paths::lemma_joined_name_is_kept(
        dir,
        "project_annotations.hvatbundle.json"@,
        "project_annotations.hvatbundle.tmp"@,
    );
    crate::paths::lemma_joined_name_is_kept(
        dir,
        "project_annotations.hvatbundle.tmp"@,
        "project_annotations.hvatbundle.json"@,
    );
    assert(dir.len() > data_dir.len());
    let path = state_path(data_dir);
    assert(path.take(data_dir.len() as int) =~= path.take(dir.len() as int).take(
        data_dir.len() as int,
    ));
    let temp = crate::paths::join_spec(dir, "project_annotations.hvatbundle.tmp"@);
    assert(temp.take(data_dir.len() as int) =~= temp.take(dir.len() as int).take(
        data_dir.len() as int,
    ));
}

/// A payload is accepted by its length exactly where it is neither empty nor over the
/// limit. An empty one is the client's mistake, and only an oversized one is told so.
pub proof fn lemma_accepted_lengths(len: nat)
    ensures
        length_refusal(len) is None <==> 1 <= len <= 64 * 1024 * 1024,
        len == 0 ==> (length_refusal(len) matches Some(refusal) && refusal.0
            == StatusCode::BadRequest),
        length_refusal(len) matches Some(refusal) ==> (refusal.0 == StatusCode::PayloadTooLarge
            <==> len > 0),
{
}

/// That nothing was saved yet is told apart from everything that went wrong, which is
/// the server's fault and told with its cause.
pub proof fn lemma_state_failures(step: StateStep, not_found: bool, cause: Seq<char>)
    ensures
        ({
            let (status, message) = state_failure(step, not_found, cause);
            &&& status == StatusCode::NotFound <==> step == StateStep::Read && not_found
            &&& status != StatusCode::NotFound ==> status == StatusCode::InternalServerError
                && message.len() >= cause.len() && message.skip(message.len() - cause.len())
                == cause
        }),
{
    let (status, message) = state_failure(step, not_found, cause);
    if status != StatusCode::NotFound {
        assert(message.skip(message.len() - cause.len()) =~= cause);
    }
}

} // verus!
