//! The course of an upload: from what the payload and the file system say to
//! what is done next.

use vstd::prelude::*;

use crate::status::StatusCode;
use crate::upload::{upload_failure, FileUpload, UploadSession, UploadStep, UploadedFiles};

verus! {

/// Where an upload stands.
#[derive(Debug)]
pub enum UploadPhase {
    /// Between two fields of the payload.
    Fields,
    /// Inside the field that names the target folder.
    TargetRoot,
    /// A file field has been opened; its type is being looked at.
    Type(FileUpload),
    /// The temporary file is being created.
    Open(FileUpload),
    /// The next chunk of the file is being read.
    Receive(FileUpload),
    /// A chunk is being written.
    Write(FileUpload),
    /// The temporary file is being flushed.
    Flush(FileUpload),
    /// The temporary file is being renamed.
    Rename(FileUpload),
    /// The upload has been answered.
    Closed,
}

/// A field of the payload.
#[derive(Debug)]
pub enum UploadField {
    TargetRoot,
    File { file_name: Option<String> },
    Other,
}

/// What the payload or the file system says.
#[derive(Debug)]
pub enum UploadEvent {
    /// The next field, none at the end of the payload, or why it cannot be read.
    NextField(Result<Option<UploadField>, String>),
    /// The text of the field.
    Text(Result<String, String>),
    /// Whether a loader supports the file.
    TypeSupported(bool),
    /// Whether the directory and the temporary file exist now, or which step
    /// failed and why.
    Opened(Result<(), (UploadStep, String)>),
    /// The length of the next chunk, none at the end of the file.
    Chunk(Result<Option<usize>, String>),
    Written(Result<(), String>),
    Flushed(Result<(), String>),
    Renamed(Result<(), String>),
}

/// What is done next.
#[derive(Debug)]
pub enum UploadAction {
    ReadField,
    ReadText,
    /// Look whether a loader supports the file at this path.
    CheckType(String),
    /// Create the directory of this path and, in it, the temporary file of the
    /// second name.
    OpenTemp(String, String),
    ReadChunk,
    WriteChunk,
    FlushTemp,
    /// Rename the temporary file to this path.
    RenameTemp(String),
    /// Answer with a refusal, after removing the temporary file if so told.
    Reject { status: StatusCode, message: String, remove_temp: bool },
    /// Answer that the files are stored.
    Accept(UploadedFiles),
}

/// An upload in its course.
#[derive(Debug)]
pub struct UploadFlow {
    pub session: UploadSession,
    pub phase: UploadPhase,
}

/// Whether an event answers what the upload is waiting for.
pub open spec fn awaits(phase: UploadPhase, event: UploadEvent) -> bool {
    match phase {
        UploadPhase::Fields => event is NextField,
        UploadPhase::TargetRoot => event is Text,
        UploadPhase::Type(_) => event is TypeSupported,
        UploadPhase::Open(_) => event is Opened,
        UploadPhase::Receive(_) => event is Chunk,
        UploadPhase::Write(_) => event is Written,
        UploadPhase::Flush(_) => event is Flushed,
        UploadPhase::Rename(_) => event is Renamed,
        UploadPhase::Closed => false,
    }
}

/// The file that an upload is busy with.
pub open spec fn current_file(phase: UploadPhase) -> Option<FileUpload> {
    match phase {
        UploadPhase::Type(upload) => Some(upload),
        UploadPhase::Open(upload) => Some(upload),
        UploadPhase::Receive(upload) => Some(upload),
        UploadPhase::Write(upload) => Some(upload),
        UploadPhase::Flush(upload) => Some(upload),
        UploadPhase::Rename(upload) => Some(upload),
        _ => None,
    }
}

/// Whether an action refuses with this status and message.
pub open spec fn rejects(
    action: UploadAction,
    status: StatusCode,
    message: Seq<char>,
    removes: bool,
) -> bool {
    action matches UploadAction::Reject { status: s, message: m, remove_temp: r } && s == status
        && m@ == message && r == removes
}

/// Whether an action refuses a failed step.
pub open spec fn rejects_step(
    action: UploadAction,
    step: UploadStep,
    relative_path: Seq<char>,
    cause: Seq<char>,
) -> bool {
    let answer = crate::upload::step_failure(step, relative_path, cause);
    rejects(action, answer.0, answer.1, false)
}

impl UploadFlow {
    /// Whether the limits are kept and every path stays inside the data
    /// directory.
    pub open spec fn wf(&self) -> bool {
        self.session.wf() && (current_file(self.phase) matches Some(upload) ==> upload.wf())
    }

    /// An upload at its start, which reads the first field.
    pub fn start() -> (flow: Self)
        ensures
            flow.wf(),
            flow.phase is Fields,
            flow.session.target_root@.len() == 0,
            flow.session.uploaded_files@.len() == 0,
            flow.session.file_count == 0,
            flow.session.total_bytes == 0,
            !flow.session.seen_file_fields,
    {
        UploadFlow { session: UploadSession::new(), phase: UploadPhase::Fields }
    }
}

fn rejection(error: (StatusCode, String), remove_temp: bool) -> (action: UploadAction)
    ensures
        rejects(action, error.0, error.1@, remove_temp),
{
    UploadAction::Reject { status: error.0, message: error.1, remove_temp }
}

/// Whether a step between two fields is taken as it should be.
pub open spec fn field_step(
    before: UploadFlow,
    event: Result<Option<UploadField>, String>,
    after: UploadFlow,
    action: UploadAction,
) -> bool {
    match event {
        Err(cause) => after.phase is Closed && rejects_step(
            action,
            UploadStep::NextField,
            Seq::empty(),
            cause@,
        ),
        Ok(None) => after.phase is Closed && if before.session.uploaded_files@.len() == 0 {
            rejects(action, StatusCode::BadRequest, "No files were uploaded"@, false)
        } else {
            action matches UploadAction::Accept(stored) && stored.files@
                == before.session.uploaded_files@
        },
        Ok(Some(UploadField::Other)) => after == before && action is ReadField,
        Ok(Some(UploadField::TargetRoot)) => if before.session.seen_file_fields {
            after.phase is Closed && rejects(
                action,
                StatusCode::BadRequest,
                "'target_root' must appear before file fields"@,
                false,
            )
        } else {
            after.phase is TargetRoot && after.session == before.session && action is ReadText
        },
        Ok(Some(UploadField::File { file_name })) => {
            let count = crate::upload::saturating_sum(before.session.file_count, 1);
            if count > crate::upload::MAX_UPLOAD_FILES {
                after.phase is Closed && rejects(
                    action,
                    StatusCode::PayloadTooLarge,
                    crate::upload::too_many_files_message(),
                    false,
                )
            } else {
                match file_name {
                    None => after.phase is Closed && rejects(
                        action,
                        StatusCode::BadRequest,
                        "Each uploaded file must include a filename"@,
                        false,
                    ),
                    Some(name) => match crate::upload::upload_relative_path(
                        before.session.target_root@,
                        name@,
                    ) {
                        Err(message) => after.phase is Closed && rejects(
                            action,
                            StatusCode::BadRequest,
                            message,
                            false,
                        ),
                        Ok(path) => {
                            &&& after.phase matches UploadPhase::Type(upload)
                                && upload.relative_path@ == path && upload.file_bytes == 0
                            &&& after.session.file_count == count
                            &&& after.session.seen_file_fields
                            &&& after.session.total_bytes == before.session.total_bytes
                            &&& after.session.target_root == before.session.target_root
                            &&& after.session.uploaded_files == before.session.uploaded_files
                            &&& action matches UploadAction::CheckType(asked) && asked@ == path
                        },
                    },
                }
            }
        },
    }
}

/// Whether a step inside the target folder field is taken as it should be.
pub open spec fn text_step(
    before: UploadFlow,
    text: Result<String, String>,
    after: UploadFlow,
    action: UploadAction,
) -> bool {
    match text {
        Err(cause) => after.phase is Closed && rejects(
            action,
            StatusCode::BadRequest,
            "Failed to read target_root: "@ + cause@,
            false,
        ),
        Ok(raw) => match crate::upload::normalized_upload_path(raw@, true) {
            Err(message) => after.phase is Closed && rejects(
                action,
                StatusCode::BadRequest,
                message,
                false,
            ),
            Ok(root) => {
                &&& after.phase is Fields
                &&& action is ReadField
                &&& after.session.target_root@ == root
                &&& after.session.total_bytes == before.session.total_bytes
                &&& after.session.file_count == before.session.file_count
                &&& after.session.uploaded_files == before.session.uploaded_files
                &&& after.session.seen_file_fields == before.session.seen_file_fields
            },
        },
    }
}

/// Whether a step with a chunk of the file is taken as it should be.
pub open spec fn chunk_step(
    before: UploadFlow,
    upload: FileUpload,
    chunk: Result<Option<usize>, String>,
    after: UploadFlow,
    action: UploadAction,
) -> bool {
    let path = upload.relative_path@;
    match chunk {
        Err(cause) => after.phase is Closed && rejects_step(
            action,
            UploadStep::ReadChunk,
            path,
            cause@,
        ),
        Ok(None) => if upload.file_bytes == 0 {
            after.phase is Closed && rejects(
                action,
                StatusCode::BadRequest,
                crate::upload::empty_file_message(path),
                true,
            )
        } else {
            after.phase == UploadPhase::Flush(upload) && after.session == before.session
                && action is FlushTemp
        },
        Ok(Some(len)) => {
            let file_bytes = crate::upload::saturating_sum(upload.file_bytes, len);
            let total_bytes = crate::upload::saturating_sum(before.session.total_bytes, len);
            if file_bytes > crate::upload::MAX_UPLOAD_FILE_BYTES {
                after.phase is Closed && rejects(
                    action,
                    StatusCode::PayloadTooLarge,
                    crate::upload::file_too_large_message(path),
                    true,
                )
            } else if total_bytes > crate::upload::MAX_UPLOAD_TOTAL_BYTES {
                after.phase is Closed && rejects(
                    action,
                    StatusCode::PayloadTooLarge,
                    crate::upload::upload_too_large_message(),
                    true,
                )
            } else {
                &&& after.phase matches UploadPhase::Write(grown) && grown.relative_path
                    == upload.relative_path && grown.file_bytes == file_bytes
                &&& after.session.total_bytes == total_bytes
                &&& after.session.target_root == before.session.target_root
                &&& after.session.file_count == before.session.file_count
                &&& after.session.uploaded_files == before.session.uploaded_files
                &&& after.session.seen_file_fields == before.session.seen_file_fields
                &&& action is WriteChunk
            }
        },
    }
}

/// Whether one step of an upload is taken as it should be.
pub open spec fn flow_step(
    before: UploadFlow,
    event: UploadEvent,
    after: UploadFlow,
    action: UploadAction,
) -> bool {
    match (before.phase, event) {
        (UploadPhase::Fields, UploadEvent::NextField(field)) => field_step(
            before,
            field,
            after,
            action,
        ),
        (UploadPhase::TargetRoot, UploadEvent::Text(text)) => text_step(
            before,
            text,
            after,
            action,
        ),
        (UploadPhase::Type(upload), UploadEvent::TypeSupported(supported)) => if supported {
            &&& after.phase == UploadPhase::Open(upload)
            &&& after.session == before.session
            &&& action matches UploadAction::OpenTemp(path, temp) && path@ == upload.relative_path@
                && exists|token: Seq<char>|
                crate::upload::is_uuid_text(token) && temp@ == #[trigger] upload.temp_name(token)
        } else {
            after.phase is Closed && rejects(
                action,
                StatusCode::BadRequest,
                crate::upload::unsupported_message(upload.relative_path@),
                false,
            )
        },
        (UploadPhase::Open(upload), UploadEvent::Opened(opened)) => match opened {
            Ok(()) => after.phase == UploadPhase::Receive(upload) && after.session
                == before.session && action is ReadChunk,
            Err(failure) => after.phase is Closed && rejects_step(
                action,
                failure.0,
                upload.relative_path@,
                failure.1@,
            ),
        },
        (UploadPhase::Receive(upload), UploadEvent::Chunk(chunk)) => chunk_step(
            before,
            upload,
            chunk,
            after,
            action,
        ),
        (UploadPhase::Write(upload), UploadEvent::Written(written)) => match written {
            Ok(()) => after.phase == UploadPhase::Receive(upload) && after.session
                == before.session && action is ReadChunk,
            Err(cause) => after.phase is Closed && rejects_step(
                action,
                UploadStep::WriteChunk,
                upload.relative_path@,
                cause@,
            ),
        },
        (UploadPhase::Flush(upload), UploadEvent::Flushed(flushed)) => match flushed {
            Ok(()) => after.phase == UploadPhase::Rename(upload) && after.session
                == before.session && (action matches UploadAction::RenameTemp(path) && path@
                == upload.relative_path@),
            Err(cause) => after.phase is Closed && rejects_step(
                action,
                UploadStep::Flush,
                upload.relative_path@,
                cause@,
            ),
        },
        (UploadPhase::Rename(upload), UploadEvent::Renamed(renamed)) => match renamed {
            Ok(()) => {
                &&& after.phase is Fields
                &&& action is ReadField
                &&& after.session.uploaded_files@ == before.session.uploaded_files@.push(
                    upload.relative_path,
                )
                &&& after.session.target_root == before.session.target_root
                &&& after.session.total_bytes == before.session.total_bytes
                &&& after.session.file_count == before.session.file_count
                &&& after.session.seen_file_fields == before.session.seen_file_fields
            },
            Err(cause) => after.phase is Closed && rejects_step(
                action,
                UploadStep::Finalize,
                upload.relative_path@,
                cause@,
            ),
        },
        _ => true,
    }
}

/// Takes one step of an upload.
pub fn upload_step(flow: UploadFlow, event: UploadEvent) -> (r: (UploadFlow, UploadAction))
    requires
        awaits(flow.phase, event),
    ensures
        flow_step(flow, event, r.0, r.1),
        flow.wf() && !(r.0.phase is Closed) ==> r.0.wf(),
        r.0.phase is Closed <==> (r.1 is Reject || r.1 is Accept),
{
    let mut session = flow.session;
    match (flow.phase, event) {
        (UploadPhase::Fields, UploadEvent::NextField(field)) => match field {
            Err(cause) => closed(
                session,
                rejection(upload_failure(UploadStep::NextField, "", cause.as_str()), false),
            ),
            Ok(None) => {
                let empty = UploadSession::new();
                match session.finish() {
                    Ok(stored) => closed(empty, UploadAction::Accept(stored)),
                    Err(error) => closed(empty, rejection(error, false)),
                }
            },
            Ok(Some(UploadField::Other)) => (
                UploadFlow { session, phase: UploadPhase::Fields },
                UploadAction::ReadField,
            ),
            Ok(Some(UploadField::TargetRoot)) => match session.begin_target_root() {
                Ok(()) => (
                    UploadFlow { session, phase: UploadPhase::TargetRoot },
                    UploadAction::ReadText,
                ),
                Err(error) => closed(session, rejection(error, false)),
            },
            Ok(Some(UploadField::File { file_name })) => match session.begin_file(file_name) {
                Ok(upload) => {
                    let path = upload.relative_path.clone();
                    (
                        UploadFlow { session, phase: UploadPhase::Type(upload) },
                        UploadAction::CheckType(path),
                    )
                },
                Err(error) => closed(session, rejection(error, false)),
            },
        },
        (UploadPhase::TargetRoot, UploadEvent::Text(text)) => match session.set_target_root(text) {
            Ok(()) => (UploadFlow { session, phase: UploadPhase::Fields }, UploadAction::ReadField),
            Err(error) => closed(session, rejection(error, false)),
        },
        (UploadPhase::Type(upload), UploadEvent::TypeSupported(supported)) => match upload.check_type(
            supported,
        ) {
            Ok(()) => {
                let path = upload.relative_path.clone();
                let temp = upload.fresh_temp_name();
                (
                    UploadFlow { session, phase: UploadPhase::Open(upload) },
                    UploadAction::OpenTemp(path, temp),
                )
            },
            Err(error) => closed(session, rejection(error, false)),
        },
        (UploadPhase::Open(upload), UploadEvent::Opened(opened)) => match opened {
            Ok(()) => (
                UploadFlow { session, phase: UploadPhase::Receive(upload) },
                UploadAction::ReadChunk,
            ),
            Err((step, cause)) => closed(
                session,
                rejection(
                    upload_failure(step, upload.relative_path.as_str(), cause.as_str()),
                    false,
                ),
            ),
        },
        (UploadPhase::Receive(upload), UploadEvent::Chunk(chunk)) => {
            let mut upload = upload;
            match chunk {
                Ok(Some(len)) => match session.accept_chunk(&mut upload, len) {
                    Ok(()) => (
                        UploadFlow { session, phase: UploadPhase::Write(upload) },
                        UploadAction::WriteChunk,
                    ),
                    Err(error) => closed(session, rejection(error, true)),
                },
                Ok(None) => match upload.check_not_empty() {
                    Ok(()) => (
                        UploadFlow { session, phase: UploadPhase::Flush(upload) },
                        UploadAction::FlushTemp,
                    ),
                    Err(error) => closed(session, rejection(error, true)),
                },
                Err(cause) => closed(
                    session,
                    rejection(
                        upload_failure(
                            UploadStep::ReadChunk,
                            upload.relative_path.as_str(),
                            cause.as_str(),
                        ),
                        false,
                    ),
                ),
            }
        },
        (UploadPhase::Write(upload), UploadEvent::Written(written)) => match written {
            Ok(()) => (
                UploadFlow { session, phase: UploadPhase::Receive(upload) },
                UploadAction::ReadChunk,
            ),
            Err(cause) => closed(
                session,
                rejection(
                    upload_failure(
                        UploadStep::WriteChunk,
                        upload.relative_path.as_str(),
                        cause.as_str(),
                    ),
                    false,
                ),
            ),
        },
        (UploadPhase::Flush(upload), UploadEvent::Flushed(flushed)) => match flushed {
            Ok(()) => {
                let path = upload.relative_path.clone();
                (
                    UploadFlow { session, phase: UploadPhase::Rename(upload) },
                    UploadAction::RenameTemp(path),
                )
            },
            Err(cause) => closed(
                session,
                rejection(
                    upload_failure(
                        UploadStep::Flush,
                        upload.relative_path.as_str(),
                        cause.as_str(),
                    ),
                    false,
                ),
            ),
        },
        (UploadPhase::Rename(upload), UploadEvent::Renamed(renamed)) => match renamed {
            Ok(()) => {
                session.complete_file(upload);
                (UploadFlow { session, phase: UploadPhase::Fields }, UploadAction::ReadField)
            },
            Err(cause) => closed(
                session,
                rejection(
                    upload_failure(
                        UploadStep::Finalize,
                        upload.relative_path.as_str(),
                        cause.as_str(),
                    ),
                    false,
                ),
            ),
        },
        _ => closed(session, UploadAction::ReadField),
    }
}

fn closed(session: UploadSession, action: UploadAction) -> (r: (UploadFlow, UploadAction))
    ensures
        r.0.phase is Closed,
        r.1 == action,
{
    (UploadFlow { session, phase: UploadPhase::Closed }, action)
}

// ----------------------------------------------------------------------------
// Whole uploads
// ----------------------------------------------------------------------------

/// Whether these are the states, events and actions of an upload from its start.
pub open spec fn is_upload_run(
    flows: Seq<UploadFlow>,
    events: Seq<UploadEvent>,
    actions: Seq<UploadAction>,
) -> bool {
    &&& flows.len() == events.len() + 1
    &&& actions.len() == events.len()
    &&& flows[0].phase is Fields
    &&& flows[0].session.file_count == 0
    &&& flows[0].session.total_bytes == 0
    &&& flows[0].session.uploaded_files@.len() == 0
    &&& forall|i: int|
        0 <= i < events.len() ==> awaits(flows[i].phase, #[trigger] events[i]) && flow_step(
            flows[i],
            events[i],
            flows[i + 1],
            actions[i],
        )
}

/// Whether an upload keeps its limits, every path stays inside the data directory,
/// and the files that are stored or being stored have been counted.
pub open spec fn keeps_count(flow: UploadFlow) -> bool {
    &&& flow.wf()
    &&& flow.session.uploaded_files@.len() + (if current_file(flow.phase) is Some {
        1int
    } else {
        0
    }) <= flow.session.file_count
}

/// Whether an action touches nothing outside the data directory, and accepts no
/// more files than allowed.
pub open spec fn stays_inside(action: UploadAction) -> bool {
    match action {
        UploadAction::CheckType(path) => crate::paths::is_safe_relative(path@),
        UploadAction::OpenTemp(path, _) => crate::paths::is_safe_relative(path@),
        UploadAction::RenameTemp(path) => crate::paths::is_safe_relative(path@),
        UploadAction::Accept(stored) => {
            &&& 0 < stored.files@.len() <= crate::upload::MAX_UPLOAD_FILES
            &&& forall|k: int|
                0 <= k < stored.files@.len() ==> crate::paths::is_safe_relative(
                    (#[trigger] stored.files@[k])@,
                )
        },
        _ => true,
    }
}

proof fn lemma_step_keeps_count(
    before: UploadFlow,
    event: UploadEvent,
    after: UploadFlow,
    action: UploadAction,
)
    requires
        keeps_count(before),
        awaits(before.phase, event),
        flow_step(before, event, after, action),
    ensures
        after.phase is Closed || keeps_count(after),
        stays_inside(action),
{
    if let (UploadPhase::Fields, UploadEvent::NextField(Ok(Some(UploadField::File { file_name })))) =
        (before.phase, event) {
        if let Some(name) = file_name {
            crate::upload::lemma_upload_path_is_safe(before.session.target_root@, name@);
        }
    }
}

/// Whatever a client sends and whatever the file system answers: an upload never
/// checks, creates or renames a file outside the data directory, its files and
/// bytes stay within their limits, and when it is accepted some but not too many
/// files are stored, all inside the data directory.
pub proof fn lemma_uploads_stay_inside(
    flows: Seq<UploadFlow>,
    events: Seq<UploadEvent>,
    actions: Seq<UploadAction>,
    i: int,
)
    requires
        is_upload_run(flows, events, actions),
        0 <= i < events.len(),
    ensures
        keeps_count(flows[i]),
        stays_inside(actions[i]),
    decreases i,
{
    if i > 0 {
        lemma_uploads_stay_inside(flows, events, actions, i - 1);
        lemma_step_keeps_count(flows[i - 1], events[i - 1], flows[i], actions[i - 1]);
    }
    assert(awaits(flows[i].phase, events[i]));
    lemma_step_keeps_count(flows[i], events[i], flows[i + 1], actions[i]);
}

/// The path of the file that a field opens, if it opens one.
pub open spec fn opened_path(flow: UploadFlow, event: UploadEvent) -> Option<Seq<char>> {
    match (flow.phase, event) {
        (
            UploadPhase::Fields,
            UploadEvent::NextField(Ok(Some(UploadField::File { file_name: Some(name) }))),
        ) => match crate::upload::upload_relative_path(flow.session.target_root@, name@) {
            Ok(path) => Some(path),
            Err(_) => None,
        },
        _ => None,
    }
}

/// The paths of the files that the fields of the first `count` events open, in order.
pub open spec fn opened_paths(
    flows: Seq<UploadFlow>,
    events: Seq<UploadEvent>,
    count: int,
) -> Seq<Seq<char>>
    decreases count,
{
    if count <= 0 {
        Seq::empty()
    } else {
        let before = opened_paths(flows, events, count - 1);
        match opened_path(flows[count - 1], events[count - 1]) {
            Some(path) => before.push(path),
            None => before,
        }
    }
}

/// The paths of the files that are stored, and of the one that is being stored.
pub open spec fn taken_paths(flow: UploadFlow) -> Seq<Seq<char>> {
    let stored = crate::text::texts(flow.session.uploaded_files@);
    match current_file(flow.phase) {
        Some(upload) => stored.push(upload.relative_path@),
        None => stored,
    }
}

proof fn lemma_step_takes_path(
    before: UploadFlow,
    event: UploadEvent,
    after: UploadFlow,
    action: UploadAction,
)
    requires
        awaits(before.phase, event),
        flow_step(before, event, after, action),
        !(after.phase is Closed),
    ensures
        taken_paths(after) == match opened_path(before, event) {
            Some(path) => taken_paths(before).push(path),
            None => taken_paths(before),
        },
{
    if let (UploadPhase::Rename(upload), UploadEvent::Renamed(Ok(()))) = (before.phase, event) {
        assert(taken_paths(after) =~= taken_paths(before));
    }
}

proof fn lemma_paths_are_taken(
    flows: Seq<UploadFlow>,
    events: Seq<UploadEvent>,
    actions: Seq<UploadAction>,
    i: int,
)
    requires
        is_upload_run(flows, events, actions),
        0 <= i < events.len(),
    ensures
        taken_paths(flows[i]) == opened_paths(flows, events, i),
    decreases i,
{
    assert(awaits(flows[i].phase, events[i]));
    if i > 0 {
        lemma_paths_are_taken(flows, events, actions, i - 1);
        assert(awaits(flows[i - 1].phase, events[i - 1]));
        lemma_step_takes_path(flows[i - 1], events[i - 1], flows[i - 1 + 1], actions[i - 1]);
    } else {
        assert(taken_paths(flows[0]) =~= Seq::<Seq<char>>::empty());
    }
}

/// What an accepted upload tells of is the paths of all its file fields, in order.
pub proof fn lemma_accepted_files_are_the_fields(
    flows: Seq<UploadFlow>,
    events: Seq<UploadEvent>,
    actions: Seq<UploadAction>,
    i: int,
)
    requires
        is_upload_run(flows, events, actions),
        0 <= i < events.len(),
        actions[i] is Accept,
    ensures
        crate::text::texts((actions[i]->Accept_0).files@) == opened_paths(flows, events, i),
{
    assert(awaits(flows[i].phase, events[i]));
    lemma_paths_are_taken(flows, events, actions, i);
}

/// Each action follows from the event that calls for it: a file is looked at when its
/// field comes, opened when its type is supported, written chunk by chunk, flushed at
/// its end unless it is empty, renamed once it is flushed, and the upload is accepted
/// only at the end of the payload.
pub proof fn lemma_actions_follow_events(
    before: UploadFlow,
    event: UploadEvent,
    after: UploadFlow,
    action: UploadAction,
)
    requires
        awaits(before.phase, event),
        flow_step(before, event, after, action),
    ensures
        action is Accept <==> event == UploadEvent::NextField(
            Ok::<Option<UploadField>, String>(None),
        ) && before.session.uploaded_files@.len() > 0,
        action is ReadText <==> event == UploadEvent::NextField(
            Ok::<Option<UploadField>, String>(Some(UploadField::TargetRoot)),
        ) && !before.session.seen_file_fields,
        action is OpenTemp <==> event == UploadEvent::TypeSupported(true),
        action is FlushTemp <==> event == UploadEvent::Chunk(Ok::<Option<usize>, String>(None)) && (
        current_file(before.phase) matches Some(upload) && upload.file_bytes > 0),
        action is RenameTemp <==> (event matches UploadEvent::Flushed(flushed) && flushed is Ok),
        action is WriteChunk ==> (event matches UploadEvent::Chunk(Ok(Some(len)))
            && after.session.total_bytes == before.session.total_bytes + len),
        action is CheckType ==> after.session.file_count == before.session.file_count + 1,
        action matches UploadAction::RenameTemp(path) ==> (current_file(
            before.phase,
        ) matches Some(upload) && path@ == upload.relative_path@),
        action matches UploadAction::OpenTemp(path, _) ==> (current_file(
            before.phase,
        ) matches Some(upload) && path@ == upload.relative_path@),
        action matches UploadAction::Accept(stored) ==> stored.files@
            == before.session.uploaded_files@,
{
}

/// Whether an event tells of a failure.
pub open spec fn upload_failed(event: UploadEvent) -> bool {
    match event {
        UploadEvent::NextField(r) => r is Err,
        UploadEvent::Text(r) => r is Err,
        UploadEvent::TypeSupported(supported) => !supported,
        UploadEvent::Opened(r) => r is Err,
        UploadEvent::Chunk(r) => r is Err,
        UploadEvent::Written(r) => r is Err,
        UploadEvent::Flushed(r) => r is Err,
        UploadEvent::Renamed(r) => r is Err,
    }
}

/// What fails ends the upload with a refusal. Once a file is open, nothing else does but
/// an end without contents or a chunk over a limit, and exactly then the temporary file
/// is to be removed.
pub proof fn lemma_refusals(
    before: UploadFlow,
    event: UploadEvent,
    after: UploadFlow,
    action: UploadAction,
)
    requires
        awaits(before.phase, event),
        flow_step(before, event, after, action),
    ensures
        upload_failed(event) ==> action is Reject && after.phase is Closed,
        action matches UploadAction::Reject { remove_temp, .. } ==> (remove_temp
            <==> before.phase is Receive && !upload_failed(event)),
        !upload_failed(event) && (before.phase is Open || before.phase is Write || before.phase is Flush
            || before.phase is Rename || before.phase is Type) ==> !(action is Reject),
        match (before.phase, event) {
            (UploadPhase::Receive(upload), UploadEvent::Chunk(Ok(Some(len)))) => action is Reject
                <==> upload.file_bytes + len > crate::upload::MAX_UPLOAD_FILE_BYTES
                || before.session.total_bytes + len > crate::upload::MAX_UPLOAD_TOTAL_BYTES,
            (UploadPhase::Receive(upload), UploadEvent::Chunk(Ok(None))) => action is Reject
                <==> upload.file_bytes == 0,
            _ => true,
        },
        action matches UploadAction::Reject { status, .. } && status
            == StatusCode::PayloadTooLarge ==> !upload_failed(event),
{
}

/// A target folder goes for all files behind it; only its own field changes it. What is
/// stored and counted is not lost on the way.
pub proof fn lemma_nothing_is_lost(
    before: UploadFlow,
    event: UploadEvent,
    after: UploadFlow,
    action: UploadAction,
)
    requires
        awaits(before.phase, event),
        flow_step(before, event, after, action),
        !(after.phase is Closed),
    ensures
        event matches UploadEvent::Text(Ok(raw)) ==> crate::upload::normalized_upload_path(
            raw@,
            true,
        ) == Ok::<Seq<char>, Seq<char>>(after.session.target_root@),
        !(event is Text) ==> after.session.target_root@ == before.session.target_root@,
        after.session.total_bytes >= before.session.total_bytes,
        after.session.file_count >= before.session.file_count,
        before.session.seen_file_fields ==> after.session.seen_file_fields,
        after.session.uploaded_files@.len() >= before.session.uploaded_files@.len(),
        after.session.uploaded_files@.take(before.session.uploaded_files@.len() as int)
            == before.session.uploaded_files@,
        after.session.uploaded_files@.len() > before.session.uploaded_files@.len() <==> event is Renamed,
{
    let stored = before.session.uploaded_files@;
    assert(after.session.uploaded_files@.take(stored.len() as int) =~= stored);
}

/// Each stage waits for one kind of event, and an upload that was answered waits for
/// none.
pub proof fn lemma_stages_wait_for_their_events(phase: UploadPhase, event: UploadEvent)
    ensures
        phase is Closed ==> !awaits(phase, event),
        awaits(phase, event) ==> (phase is Fields <==> event is NextField) && (phase is TargetRoot
            <==> event is Text) && (phase is Type <==> event is TypeSupported) && (phase is Open
            <==> event is Opened) && (phase is Receive <==> event is Chunk) && (phase is Write
            <==> event is Written) && (phase is Flush <==> event is Flushed) && (phase is Rename
            <==> event is Renamed),
        current_file(phase) is None <==> phase is Fields || phase is TargetRoot || phase is Closed,
{
}

} // verus!
