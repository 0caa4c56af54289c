//! Errors of the backend and how they are answered.

use vstd::prelude::*;

use crate::status::StatusCode;

verus! {

/// Shared backend error type. The texts of file system and image decoding
/// errors are carried along.
#[derive(Debug)]
pub enum Error {
    ImageNotFound(String),
    ProjectNotFound(String),
    UnsupportedFormat(String),
    InvalidImageData(String),
    PyramidNotReady(String),
    Io(String),
    Image(String),
    Internal(String),
}

impl Error {
    /// The detail that an error carries.
    pub open spec fn detail(self) -> Seq<char> {
        match self {
            Error::ImageNotFound(text) => text@,
            Error::ProjectNotFound(text) => text@,
            Error::UnsupportedFormat(text) => text@,
            Error::InvalidImageData(text) => text@,
            Error::PyramidNotReady(text) => text@,
            Error::Io(text) => text@,
            Error::Image(text) => text@,
            Error::Internal(text) => text@,
        }
    }

    /// What stands in front of the detail.
    pub open spec fn label(self) -> Seq<char> {
        match self {
            Error::ImageNotFound(_) => "Image not found: "@,
            Error::ProjectNotFound(_) => "Project not found: "@,
            Error::UnsupportedFormat(_) => "Unsupported format: "@,
            Error::InvalidImageData(_) => "Invalid image data: "@,
            Error::PyramidNotReady(_) => "Pyramid not ready: "@,
            Error::Io(_) => "IO error: "@,
            Error::Image(_) => "Image processing error: "@,
            Error::Internal(_) => "Internal error: "@,
        }
    }

    /// What a user is told.
    pub open spec fn text(self) -> Seq<char> {
        self.label() + self.detail()
    }

    /// What a user is told.
    pub fn message(&self) -> (out: String)
        ensures
            out@ == self.text(),
    {
        let (label, detail) = match self {
            Error::ImageNotFound(text) => ("Image not found: ", text),
            Error::ProjectNotFound(text) => ("Project not found: ", text),
            Error::UnsupportedFormat(text) => ("Unsupported format: ", text),
            Error::InvalidImageData(text) => ("Invalid image data: ", text),
            Error::PyramidNotReady(text) => ("Pyramid not ready: ", text),
            Error::Io(text) => ("IO error: ", text),
            Error::Image(text) => ("Image processing error: ", text),
            Error::Internal(text) => ("Internal error: ", text),
        };
        let mut out = label.to_owned();
        out.append(detail.as_str());
        out
    }

    /// The status with which an error is answered.
    pub open spec fn answer(self) -> StatusCode {
        match self {
            Error::ImageNotFound(_) | Error::ProjectNotFound(_) => StatusCode::NotFound,
            Error::UnsupportedFormat(_) | Error::InvalidImageData(_) => StatusCode::BadRequest,
            Error::PyramidNotReady(_) => StatusCode::Accepted,
            Error::Io(_) | Error::Image(_) | Error::Internal(_) => StatusCode::InternalServerError,
        }
    }

    /// The status with which an error is answered.
    pub fn status(&self) -> (status: StatusCode)
        ensures
            status == self.answer(),
    {
        match self {
            Error::ImageNotFound(_) | Error::ProjectNotFound(_) => StatusCode::NotFound,
            Error::UnsupportedFormat(_) | Error::InvalidImageData(_) => StatusCode::BadRequest,
            Error::PyramidNotReady(_) => StatusCode::Accepted,
            Error::Io(_) | Error::Image(_) | Error::Internal(_) => StatusCode::InternalServerError,
        }
    }
}

/// Whether an error is the internal one with this detail.
pub open spec fn is_internal(error: Error, detail: Seq<char>) -> bool {
    error matches Error::Internal(text) && text@ == detail
}

/// What a user is told ends with the detail, and starts with a label that tells the
/// kinds of errors apart.
pub proof fn lemma_error_texts(a: Error, b: Error)
    ensures
        a.text().skip(a.label().len() as int) == a.detail(),
        a.text().take(a.label().len() as int) == a.label(),
        a.label() == b.label() ==> a.answer() == b.answer(),
        a.label() == b.label() ==> (a is ImageNotFound <==> b is ImageNotFound) && (
        a is ProjectNotFound <==> b is ProjectNotFound) && (a is UnsupportedFormat
            <==> b is UnsupportedFormat) && (a is InvalidImageData <==> b is InvalidImageData) && (
        a is PyramidNotReady <==> b is PyramidNotReady) && (a is Io <==> b is Io) && (
        a is Image <==> b is Image) && (a is Internal <==> b is Internal),
{
    reveal_strlit("Image not found: ");
    reveal_strlit("Project not found: ");
    reveal_strlit("Unsupported format: ");
    reveal_strlit("Invalid image data: ");
    reveal_strlit("Pyramid not ready: ");
    reveal_strlit("IO error: ");
    reveal_strlit("Image processing error: ");
    reveal_strlit("Internal error: ");
    assert(a.text().skip(a.label().len() as int) =~= a.detail());
    assert(a.text().take(a.label().len() as int) =~= a.label());
    if a.label() == b.label() {
        assert(a.label().len() == b.label().len());
        assert(a.label()[0] == b.label()[0]);
        assert(a.label()[2] == b.label()[2]);
    }
}

/// What a client asked for wrongly is answered with a status of the client's class, what
/// it has to wait for with one of success, and only what the server could not do with
/// one of the server's class.
pub proof fn lemma_statuses_by_class(error: Error)
    ensures
        400 <= error.answer().number() < 500 <==> (error is ImageNotFound || error is ProjectNotFound
            || error is UnsupportedFormat || error is InvalidImageData),
        error.answer().number() == 404 <==> error is ImageNotFound || error is ProjectNotFound,
        200 <= error.answer().number() < 300 <==> error is PyramidNotReady,
        error.answer().number() == 202 <==> error is PyramidNotReady,
        500 <= error.answer().number() < 600 <==> error is Io || error is Image || error is Internal,
{
}

} // verus!
