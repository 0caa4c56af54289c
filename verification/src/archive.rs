//! ZIP archives of the images of a project, whole or in parts.

use std::path::PathBuf;

use vstd::prelude::*;

use crate::catalog::{visit_supported_files, DirNode, FileNode};
use crate::ordering::{sort_by_path, HasPath};
use crate::text::{push_decimal, push_padded_decimal, replace_char, to_chars, trim};
use crate::zip_file::{zip_finish, zip_new, zip_start_file, zip_write_all, ZipFile};

verus! {

/// Why an archive could not be made.
#[derive(Debug)]
pub enum ArchiveError {
    NoImages,
    BuildFailed(String),
}

/// A finished archive under its file name.
#[derive(Debug)]
pub struct ProjectArchive {
    pub filename: String,
    pub bytes: Vec<u8>,
}

/// An image that goes into an archive.
#[derive(Debug)]
pub struct ImageEntry {
    pub relative_path: String,
    pub file_path: PathBuf,
    pub size_bytes: u64,
}

impl HasPath for ImageEntry {
    open spec fn path_key(&self) -> Seq<char> {
        self.relative_path@
    }

    fn path_text(&self) -> (path: &str) {
        self.relative_path.as_str()
    }
}

// ----------------------------------------------------------------------------
// Entries
// ----------------------------------------------------------------------------

/// Whether an entry stands for a file.
pub open spec fn stands_for(entry: ImageEntry, file: FileNode) -> bool {
    &&& entry.relative_path@ == crate::catalog::normalized_path(file)
    &&& entry.file_path == file.path
    &&& entry.size_bytes == file.size_bytes
}

/// Whether entries stand for files one by one.
pub open spec fn stand_for_all(entries: Seq<ImageEntry>, files: Seq<FileNode>) -> bool {
    entries.len() == files.len() && forall|i: int|
        0 <= i < files.len() ==> stands_for(#[trigger] entries[i], files[i])
}

/// The supported images of a directory as archive entries, in directory order.
pub fn collect_image_entries(nodes: &Vec<DirNode>) -> (out: Vec<ImageEntry>)
    ensures
        stand_for_all(out@, crate::catalog::supported_files(nodes@)),
{
    let mut files: Vec<&FileNode> = Vec::new();
    visit_supported_files(nodes, &mut files);
    let ghost all = crate::catalog::supported_files(nodes@);
    assert(files@.unref() =~= all);
    let mut out: Vec<ImageEntry> = Vec::new();
    let mut i: usize = 0;
    while i < files.len()
        invariant
            i <= files@.len(),
            files@.unref() == all,
            stand_for_all(out@, all.take(i as int)),
        decreases files@.len() - i,
    {
        let file = files[i];
        assert(files@.unref()[i as int] == *file);
        out.push(
            ImageEntry {
                relative_path: replace_char(file.relative_path.as_str(), '\\', '/'),
                file_path: file.path.clone(),
                size_bytes: file.size_bytes,
            },
        );
        i = i + 1;
    }
    assert(all.take(i as int) =~= all);
    out
}

/// Whether entries stand for the images of a directory, in the order of their
/// paths.
pub open spec fn sorted_entries_of(entries: Seq<ImageEntry>, files: Seq<FileNode>) -> bool {
    exists|found: Seq<ImageEntry>| #[trigger]
        stand_for_all(found, files) && crate::ordering::is_stable_sort(entries, found)
}

/// The supported images of a directory as archive entries, in the order of
/// their paths.
pub fn sorted_image_entries(nodes: &Vec<DirNode>) -> (out: Vec<ImageEntry>)
    ensures
        sorted_entries_of(out@, crate::catalog::supported_files(nodes@)),
        out@.len() == crate::catalog::supported_files(nodes@).len(),
{
    sort_by_path(collect_image_entries(nodes))
}

// ----------------------------------------------------------------------------
// File names
// ----------------------------------------------------------------------------

/// Whether a character is not allowed in a file name component.
pub open spec fn forbidden_in_filename(c: char) -> bool {
    c == '/' || c == '\\' || c == ':' || c == '*' || c == '?' || c == '"' || c == '<' || c == '>'
        || c == '|'
}

/// A text with `_` in place of every character that is not allowed.
pub open spec fn replaced_forbidden(value: Seq<char>) -> Seq<char> {
    value.map_values(
        |c: char|
            if forbidden_in_filename(c) {
                '_'
            } else {
                c
            },
    )
}

/// A text made fit for a file name: trimmed, without characters that are not
/// allowed, and `project` if nothing is left.
pub open spec fn sanitized(value: Seq<char>) -> Seq<char> {
    let replaced = replaced_forbidden(crate::text::trim_spec(value));
    if crate::text::trim_spec(value).len() == 0 || crate::text::trim_spec(replaced).len() == 0 {
        "project"@
    } else {
        replaced
    }
}

/// Makes a text fit for a file name.
pub fn sanitize_filename_component(value: &str) -> (out: String)
    ensures
        out@ == sanitized(value@),
{
    let trimmed = trim(value);
    if trimmed.as_str().is_empty() {
        return "project".to_owned();
    }
    let chars = to_chars(trimmed.as_str());
    let ghost whole = replaced_forbidden(trimmed@);
    let mut out = String::new();
    let mut i: usize = 0;
    while i < chars.len()
        invariant
            i <= chars@.len(),
            chars@ == trimmed@,
            whole == replaced_forbidden(trimmed@),
            out@ == whole.take(i as int),
        decreases chars@.len() - i,
    {
        let c = chars[i];
        let forbidden = c == '/' || c == '\\' || c == ':' || c == '*' || c == '?' || c == '"' || c
            == '<' || c == '>' || c == '|';
        out.push(if forbidden { '_' } else { c });
        i = i + 1;
        assert(whole.take(i as int) =~= whole.take(i - 1).push(whole[i - 1]));
    }
    assert(whole.take(i as int) =~= whole);
    if trim(out.as_str()).as_str().is_empty() {
        "project".to_owned()
    } else {
        out
    }
}

/// A file name component is never empty and holds no character that is not
/// allowed.
pub proof fn lemma_sanitized(value: Seq<char>)
    ensures
        sanitized(value).len() > 0,
        forall|i: int|
            0 <= i < sanitized(value).len() ==> !forbidden_in_filename(
                #[trigger] sanitized(value)[i],
            ),
{
    reveal_strlit("project");
    let replaced = replaced_forbidden(crate::text::trim_spec(value));
    if replaced.len() == 0 {
        assert(crate::text::trim_spec(value).len() == 0);
    }
}

// ----------------------------------------------------------------------------
// Single ZIP archive (download all)
// ----------------------------------------------------------------------------

/// The largest size that a file may have without the 64-bit extension.
pub const ZIP32_MAX_BYTES: u64 = 0xffff_ffff;

/// The Unix mode of the files in an archive.
pub const ZIP_FILE_MODE: u32 = 0o644;

/// Whether a file of this size needs the 64-bit extension.
pub fn requires_zip64(size_bytes: u64) -> (r: bool)
    ensures
        r == (size_bytes > ZIP32_MAX_BYTES),
{
    size_bytes > ZIP32_MAX_BYTES
}

/// What came of reading a file.
#[derive(Debug)]
pub enum FileContents {
    Bytes(Vec<u8>),
    /// The file at `path` could not be opened.
    OpenFailed { path: String, error: String },
    /// The file was opened and could not be read to its end.
    ReadFailed(String),
}

/// The bytes that were read, if any.
pub open spec fn bytes_read(result: FileContents) -> Seq<u8> {
    match result {
        FileContents::Bytes(bytes) => bytes@,
        _ => Seq::empty(),
    }
}

/// An archive member: its name, its bytes, whether it is announced as large,
/// and its mode.
pub open spec fn zip_member(entry: ImageEntry, bytes: Seq<u8>) -> (Seq<char>, Seq<u8>, bool, u32) {
    (entry.relative_path@, bytes, entry.size_bytes > ZIP32_MAX_BYTES, ZIP_FILE_MODE)
}

/// The members that an archive of entries has, one per entry, from what was read
/// of each.
pub open spec fn zip_members(entries: Seq<ImageEntry>, results: Seq<FileContents>) -> Seq<
    (Seq<char>, Seq<u8>, bool, u32),
> {
    Seq::new(entries.len(), |i: int| zip_member(entries[i], bytes_read(results[i])))
}

/// The message for an entry that the archive refused.
pub open spec fn add_message(entry: ImageEntry, cause: Seq<char>) -> Seq<char> {
    "Failed to add '"@ + entry.relative_path@ + "' to zip: "@ + cause
}

/// The message for an entry whose file could not be opened.
pub open spec fn open_message(entry: ImageEntry, path: Seq<char>, cause: Seq<char>) -> Seq<char> {
    "Failed to open '"@ + entry.relative_path@ + "' from '"@ + (path + "': "@ + cause)
}

/// The message for an entry whose bytes could not be read or written.
pub open spec fn write_message(entry: ImageEntry, cause: Seq<char>) -> Seq<char> {
    "Failed to write '"@ + entry.relative_path@ + "' to zip: "@ + cause
}

/// Whether an entry has the name of one before it.
pub open spec fn repeats_name(entries: Seq<ImageEntry>, i: int) -> bool {
    exists|k: int|
        0 <= k < i && (#[trigger] entries[k]).relative_path@ == entries[i].relative_path@
}

/// The message for what was read of an entry, if it cannot be archived: the file
/// could not be opened or read, or it is larger than was announced.
pub open spec fn read_failure(entry: ImageEntry, result: FileContents) -> Option<Seq<char>> {
    match result {
        FileContents::OpenFailed { path, error } => Some(open_message(entry, path@, error@)),
        FileContents::ReadFailed(error) => Some(write_message(entry, error@)),
        FileContents::Bytes(bytes) => if bytes@.len() > ZIP32_MAX_BYTES && entry.size_bytes
            <= ZIP32_MAX_BYTES {
            Some(write_message(entry, crate::zip_file::too_large_cause()))
        } else {
            None
        },
    }
}

/// Whether the first `count` entries have names of their own, were read with these
/// results, and can all be archived.
pub open spec fn archivable<F: Fn(&ImageEntry) -> FileContents>(
    read: F,
    entries: Seq<ImageEntry>,
    results: Seq<FileContents>,
    count: int,
) -> bool {
    forall|i: int|
        0 <= i < count ==> {
            &&& !repeats_name(entries, i)
            &&& call_ensures(read, (&entries[i],), #[trigger] results[i])
            &&& read_failure(entries[i], results[i]) is None
        }
}

/// Whether building an archive failed at an entry, with this message: those before
/// it can be archived, and it repeats a name, or it was read and cannot be
/// archived.
pub open spec fn failed_at<F: Fn(&ImageEntry) -> FileContents>(
    message: Seq<char>,
    read: F,
    entries: Seq<ImageEntry>,
    results: Seq<FileContents>,
    i: int,
) -> bool {
    &&& 0 <= i < entries.len()
    &&& archivable(read, entries, results, i)
    &&& if repeats_name(entries, i) {
        message == add_message(
            entries[i],
            crate::zip_file::duplicate_cause(entries[i].relative_path@),
        )
    } else {
        call_ensures(read, (&entries[i],), results[i]) && read_failure(entries[i], results[i])
            == Some(message)
    }
}

/// Whether this is what comes of archiving entries, given what reading them may
/// give: the archive of all of them, or the message of the first that cannot be
/// archived.
pub open spec fn archives<F: Fn(&ImageEntry) -> FileContents>(
    read: F,
    entries: Seq<ImageEntry>,
    outcome: Result<Seq<u8>, Seq<char>>,
) -> bool {
    match outcome {
        Ok(archive) => exists|results: Seq<FileContents>|
            results.len() == entries.len() && #[trigger] archivable(
                read,
                entries,
                results,
                entries.len() as int,
            ) && archive == crate::zip_file::zip_archive(zip_members(entries, results)),
        Err(message) => exists|results: Seq<FileContents>, i: int| #[trigger]
            failed_at(message, read, entries, results, i),
    }
}

/// Whether the entries have names of their own and each file, however it is read,
/// gives bytes that can be archived.
pub open spec fn all_readable<F: Fn(&ImageEntry) -> FileContents>(
    read: F,
    entries: Seq<ImageEntry>,
    count: int,
) -> bool {
    &&& forall|i: int| 0 <= i < count ==> !#[trigger] repeats_name(entries, i)
    &&& forall|i: int, result: FileContents|
        0 <= i < count && #[trigger] call_ensures(read, (&entries[i],), result)
            ==> read_failure(entries[i], result) is None
}

/// Files with names of their own that can all be read, and are no larger than
/// announced, make an archive.
pub proof fn lemma_readable_files_make_an_archive<F: Fn(&ImageEntry) -> FileContents>(
    read: F,
    entries: Seq<ImageEntry>,
    outcome: Result<Seq<u8>, Seq<char>>,
)
    requires
        archives(read, entries, outcome),
        all_readable(read, entries, entries.len() as int),
    ensures
        outcome is Ok,
{
    if let Err(message) = outcome {
        let (results, i) = choose|results: Seq<FileContents>, i: int| #[trigger]
            failed_at(message, read, entries, results, i);
        assert(!repeats_name(entries, i));
        assert(call_ensures(read, (&entries[i],), results[i]));
    }
}

/// Where all files before one can be archived, and that one cannot be opened, the
/// message says so and names it.
pub proof fn lemma_unopened_file_is_named<F: Fn(&ImageEntry) -> FileContents>(
    read: F,
    entries: Seq<ImageEntry>,
    outcome: Result<Seq<u8>, Seq<char>>,
    k: int,
)
    requires
        archives(read, entries, outcome),
        0 <= k < entries.len(),
        all_readable(read, entries, k),
        !repeats_name(entries, k),
        forall|result: FileContents| #[trigger]
            call_ensures(read, (&entries[k],), result) ==> result is OpenFailed,
    ensures
        outcome matches Err(message) && exists|path: String, error: String| #[trigger]
            call_ensures(read, (&entries[k],), (FileContents::OpenFailed { path, error }))
                && message == open_message(entries[k], path@, error@),
{
    match outcome {
        Ok(archive) => {
            let results = choose|results: Seq<FileContents>|
                results.len() == entries.len() && #[trigger] archivable(
                    read,
                    entries,
                    results,
                    entries.len() as int,
                ) && archive == crate::zip_file::zip_archive(zip_members(entries, results));
            assert(call_ensures(read, (&entries[k],), results[k]));
        },
        Err(message) => {
            let (results, i) = choose|results: Seq<FileContents>, i: int| #[trigger]
                failed_at(message, read, entries, results, i);
            if i < k {
                assert(!repeats_name(entries, i));
                assert(call_ensures(read, (&entries[i],), results[i]));
            } else if i > k {
                assert(call_ensures(read, (&entries[k],), results[k]));
            } else {
                match results[k] {
                    FileContents::OpenFailed { path, error } => {
                        assert(call_ensures(
                            read,
                            (&entries[k],),
                            (FileContents::OpenFailed { path, error }),
                        ));
                    },
                    _ => {},
                }
            }
        },
    }
}

/// A result by its view.
pub open spec fn outcome_of(r: Result<Vec<u8>, String>) -> Result<Seq<u8>, Seq<char>> {
    match r {
        Ok(bytes) => Ok(bytes@),
        Err(message) => Err(message@),
    }
}

fn concat4(a: &str, b: &str, c: &str, d: &str) -> (out: String)
    ensures
        out@ == a@ + b@ + c@ + d@,
{
    let mut out = a.to_owned();
    out.append(b);
    out.append(c);
    out.append(d);
    out
}

/// Build a ZIP archive from a set of image entries, in their order.
///
/// `read` is called once per entry, after its member has been opened.
pub fn build_images_zip<F: Fn(&ImageEntry) -> FileContents>(
    entries: &Vec<ImageEntry>,
    read: &F,
) -> (r: Result<Vec<u8>, String>)
    requires
        forall|entry: ImageEntry| call_requires(*read, (&entry,)),
        forall|i: int|
            0 <= i < entries@.len() ==> vstd::utf8::encode_utf8(
                (#[trigger] entries@[i]).relative_path@,
            ).len() <= u16::MAX,
    ensures
        archives(*read, entries@, outcome_of(r)),
        all_readable(*read, entries@, entries@.len() as int) ==> r is Ok,
{
    let mut zip: ZipFile = zip_new();
    let ghost mut results: Seq<FileContents> = Seq::empty();
    let mut i: usize = 0;
    assert(crate::zip_file::zip_contents(zip) =~= zip_members(entries@.take(0), results));
    while i < entries.len()
        invariant
            i <= entries@.len(),
            forall|entry: ImageEntry| call_requires(*read, (&entry,)),
            forall|k: int|
                0 <= k < entries@.len() ==> vstd::utf8::encode_utf8(
                    (#[trigger] entries@[k]).relative_path@,
                ).len() <= u16::MAX,
            results.len() == i,
            archivable(*read, entries@, results, i as int),
            crate::zip_file::zip_open(zip),
            crate::zip_file::zip_contents(zip) == zip_members(entries@.take(i as int), results),
        decreases entries@.len() - i,
    {
        let entry = &entries[i];
        let ghost before = zip_members(entries@.take(i as int), results);
        proof {
            lemma_member_names(entries@, results, i as int);
        }
        match zip_start_file(
            &mut zip,
            entry.relative_path.as_str(),
            requires_zip64(entry.size_bytes),
            ZIP_FILE_MODE,
        ) {
            Ok(()) => {},
            Err(e) => {
                let message = concat4(
                    "Failed to add '",
                    entry.relative_path.as_str(),
                    "' to zip: ",
                    e.as_str(),
                );
                proof {
                    assert(failed_at(message@, *read, entries@, results, i as int));
                    lemma_failure_ends_it(message@, *read, entries@, results, i as int);
                }
                return Err(message);
            },
        }
        let result = read(entry);
        let ghost next = results.push(result);
        proof {
            assert forall|k: int| 0 <= k < i implies {
                &&& !repeats_name(entries@, k)
                &&& call_ensures(*read, (&entries@[k],), #[trigger] next[k])
                &&& read_failure(entries@[k], next[k]) is None
            } by {
                assert(next[k] == results[k]);
            }
            assert(archivable(*read, entries@, next, i as int));
        }
        match result {
            FileContents::Bytes(data) => match zip_write_all(&mut zip, &data) {
                Ok(()) => {
                    proof {
                        let taken = entries@.take(i + 1);
                        assert(Seq::<u8>::empty() + data@ =~= data@);
                        assert(crate::zip_file::zip_contents(zip) =~= before.push(
                            zip_member(*entry, data@),
                        ));
                        assert(zip_members(taken, next) =~= before.push(zip_member(*entry, data@)));
                        results = next;
                    }
                },
                Err(e) => {
                    let message = concat4(
                        "Failed to write '",
                        entry.relative_path.as_str(),
                        "' to zip: ",
                        e.as_str(),
                    );
                    proof {
                        assert(Seq::<u8>::empty() + data@ =~= data@);
                        assert(failed_at(message@, *read, entries@, next, i as int));
                        lemma_failure_ends_it(message@, *read, entries@, next, i as int);
                    }
                    return Err(message);
                },
            },
            FileContents::OpenFailed { path, error } => {
                let mut cause = path.clone();
                cause.append("': ");
                cause.append(error.as_str());
                let message = concat4(
                    "Failed to open '",
                    entry.relative_path.as_str(),
                    "' from '",
                    cause.as_str(),
                );
                proof {
                    assert(message@ == open_message(*entry, path@, error@));
                    assert(failed_at(message@, *read, entries@, next, i as int));
                    lemma_failure_ends_it(message@, *read, entries@, next, i as int);
                }
                return Err(message);
            },
            FileContents::ReadFailed(error) => {
                let message = concat4(
                    "Failed to write '",
                    entry.relative_path.as_str(),
                    "' to zip: ",
                    error.as_str(),
                );
                proof {
                    assert(failed_at(message@, *read, entries@, next, i as int));
                    lemma_failure_ends_it(message@, *read, entries@, next, i as int);
                }
                return Err(message);
            },
        }
        i = i + 1;
    }
    assert(entries@.take(i as int) =~= entries@);
    match zip_finish(zip) {
        Ok(archive) => Ok(archive),
        Err(e) => {
            let mut message = "Failed to finalize zip: ".to_owned();
            message.append(e.as_str());
            Err(message)
        },
    }
}

/// An archive of the first entries has a name exactly if the next entry repeats it.
proof fn lemma_member_names(entries: Seq<ImageEntry>, results: Seq<FileContents>, i: int)
    requires
        0 <= i < entries.len(),
    ensures
        crate::zip_file::has_name(
            zip_members(entries.take(i), results),
            entries[i].relative_path@,
        ) <==> repeats_name(entries, i),
{
    let members = zip_members(entries.take(i), results);
    if repeats_name(entries, i) {
        let k = choose|k: int|
            0 <= k < i && (#[trigger] entries[k]).relative_path@ == entries[i].relative_path@;
        assert(members[k].0 == entries[i].relative_path@);
    }
    if crate::zip_file::has_name(members, entries[i].relative_path@) {
        let k = choose|k: int|
            0 <= k < members.len() && (#[trigger] members[k]).0 == entries[i].relative_path@;
        assert(entries[k].relative_path@ == entries[i].relative_path@);
    }
}

/// What failed at an entry is what comes of it, and is ruled out where all can be
/// read.
proof fn lemma_failure_ends_it<F: Fn(&ImageEntry) -> FileContents>(
    message: Seq<char>,
    read: F,
    entries: Seq<ImageEntry>,
    results: Seq<FileContents>,
    i: int,
)
    requires
        failed_at(message, read, entries, results, i),
    ensures
        archives(read, entries, Err(message)),
        !all_readable(read, entries, entries.len() as int),
{
    let outcome: Result<Seq<u8>, Seq<char>> = Err(message);
    assert(exists|found: Seq<FileContents>, at: int| #[trigger]
        failed_at(message, read, entries, found, at));
    assert(outcome->Err_0 == message);
    if all_readable(read, entries, entries.len() as int) {
        lemma_readable_files_make_an_archive(read, entries, outcome);
    }
}

// ----------------------------------------------------------------------------
// Archives of files that are read whole
// ----------------------------------------------------------------------------

/// A file that could not be read: where it is, and why.
#[derive(Debug)]
pub struct UnreadFile {
    pub path: String,
    pub error: String,
}

/// The members that an archive of entries has, one per entry, from what was read of
/// each. None is announced as large.
pub open spec fn whole_members(
    entries: Seq<ImageEntry>,
    results: Seq<Result<Vec<u8>, UnreadFile>>,
) -> Seq<(Seq<char>, Seq<u8>, bool, u32)> {
    Seq::new(
        entries.len(),
        |i: int| (entries[i].relative_path@, (results[i]->Ok_0)@, false, ZIP_FILE_MODE),
    )
}

/// The message for an entry that cannot be archived: its file could not be read, its
/// name is there already, or it is too large.
pub open spec fn whole_failure(
    entries: Seq<ImageEntry>,
    i: int,
    result: Result<Vec<u8>, UnreadFile>,
) -> Option<Seq<char>> {
    match result {
        Err(unread) => Some("Failed to read "@ + unread.path@ + ": "@ + unread.error@),
        Ok(bytes) => if repeats_name(entries, i) {
            Some(
                "Failed to add file to zip: "@ + crate::zip_file::duplicate_cause(
                    entries[i].relative_path@,
                ),
            )
        } else if bytes@.len() > ZIP32_MAX_BYTES {
            Some("Failed to write zip entry: "@ + crate::zip_file::too_large_cause())
        } else {
            None
        },
    }
}

/// Whether the first `count` entries were read with these results, and can all be
/// archived.
pub open spec fn whole_archivable<F: Fn(&ImageEntry) -> Result<Vec<u8>, UnreadFile>>(
    read: F,
    entries: Seq<ImageEntry>,
    results: Seq<Result<Vec<u8>, UnreadFile>>,
    count: int,
) -> bool {
    forall|i: int|
        0 <= i < count ==> {
            &&& call_ensures(read, (&entries[i],), #[trigger] results[i])
            &&& whole_failure(entries, i, results[i]) is None
        }
}

/// Whether building an archive failed at an entry, with this message, after those
/// before it were archived.
pub open spec fn whole_failed_at<F: Fn(&ImageEntry) -> Result<Vec<u8>, UnreadFile>>(
    message: Seq<char>,
    read: F,
    entries: Seq<ImageEntry>,
    results: Seq<Result<Vec<u8>, UnreadFile>>,
    i: int,
) -> bool {
    &&& 0 <= i < entries.len()
    &&& whole_archivable(read, entries, results, i)
    &&& call_ensures(read, (&entries[i],), results[i])
    &&& whole_failure(entries, i, results[i]) == Some(message)
}

/// Whether this is what comes of archiving entries, given what reading them may give:
/// the archive of all of them, or the message of the first that cannot be archived.
pub open spec fn archives_whole<F: Fn(&ImageEntry) -> Result<Vec<u8>, UnreadFile>>(
    read: F,
    entries: Seq<ImageEntry>,
    outcome: Result<Seq<u8>, Seq<char>>,
) -> bool {
    match outcome {
        Ok(archive) => exists|results: Seq<Result<Vec<u8>, UnreadFile>>|
            results.len() == entries.len() && #[trigger] whole_archivable(
                read,
                entries,
                results,
                entries.len() as int,
            ) && archive == crate::zip_file::zip_archive(whole_members(entries, results)),
        Err(message) => exists|results: Seq<Result<Vec<u8>, UnreadFile>>, i: int| #[trigger]
            whole_failed_at(message, read, entries, results, i),
    }
}

/// Whether the entries have names of their own and each file, however it is read,
/// gives bytes that can be archived.
pub open spec fn all_whole<F: Fn(&ImageEntry) -> Result<Vec<u8>, UnreadFile>>(
    read: F,
    entries: Seq<ImageEntry>,
) -> bool {
    &&& forall|i: int| 0 <= i < entries.len() ==> !#[trigger] repeats_name(entries, i)
    &&& forall|i: int, result: Result<Vec<u8>, UnreadFile>|
        0 <= i < entries.len() && #[trigger] call_ensures(read, (&entries[i],), result)
            ==> result is Ok && (result->Ok_0)@.len() <= ZIP32_MAX_BYTES
}

proof fn lemma_whole_failure_ends_it<F: Fn(&ImageEntry) -> Result<Vec<u8>, UnreadFile>>(
    message: Seq<char>,
    read: F,
    entries: Seq<ImageEntry>,
    results: Seq<Result<Vec<u8>, UnreadFile>>,
    i: int,
)
    requires
        whole_failed_at(message, read, entries, results, i),
    ensures
        archives_whole(read, entries, Err(message)),
        !all_whole(read, entries),
{
    let outcome: Result<Seq<u8>, Seq<char>> = Err(message);
    assert(exists|found: Seq<Result<Vec<u8>, UnreadFile>>, at: int| #[trigger]
        whole_failed_at(message, read, entries, found, at));
    assert(outcome->Err_0 == message);
    assert(call_ensures(read, (&entries[i],), results[i]));
    assert(all_whole(read, entries) ==> !repeats_name(entries, i));
}

/// Build a ZIP archive from a set of image entries, in their order, each of whose files
/// is read whole before it is added.
pub fn build_whole_images_zip<F: Fn(&ImageEntry) -> Result<Vec<u8>, UnreadFile>>(
    entries: &Vec<ImageEntry>,
    read: &F,
) -> (r: Result<Vec<u8>, String>)
    requires
        forall|entry: ImageEntry| call_requires(*read, (&entry,)),
        forall|i: int|
            0 <= i < entries@.len() ==> vstd::utf8::encode_utf8(
                (#[trigger] entries@[i]).relative_path@,
            ).len() <= u16::MAX,
    ensures
        archives_whole(*read, entries@, outcome_of(r)),
        all_whole(*read, entries@) ==> r is Ok,
{
    let mut zip: ZipFile = zip_new();
    let ghost mut results: Seq<Result<Vec<u8>, UnreadFile>> = Seq::empty();
    let mut i: usize = 0;
    assert(crate::zip_file::zip_contents(zip) =~= whole_members(entries@.take(0), results));
    while i < entries.len()
        invariant
            i <= entries@.len(),
            forall|entry: ImageEntry| call_requires(*read, (&entry,)),
            forall|k: int|
                0 <= k < entries@.len() ==> vstd::utf8::encode_utf8(
                    (#[trigger] entries@[k]).relative_path@,
                ).len() <= u16::MAX,
            results.len() == i,
            whole_archivable(*read, entries@, results, i as int),
            crate::zip_file::zip_open(zip),
            crate::zip_file::zip_contents(zip) == whole_members(entries@.take(i as int), results),
        decreases entries@.len() - i,
    {
        let entry = &entries[i];
        let ghost before = whole_members(entries@.take(i as int), results);
        let result = read(entry);
        let ghost next = results.push(result);
        proof {
            lemma_whole_member_names(entries@, results, i as int);
            assert forall|k: int| 0 <= k < i implies {
                &&& call_ensures(*read, (&entries@[k],), #[trigger] next[k])
                &&& whole_failure(entries@, k, next[k]) is None
            } by {
                assert(next[k] == results[k]);
            }
            assert(whole_archivable(*read, entries@, next, i as int));
        }
        let data = match result {
            Ok(data) => data,
            Err(unread) => {
                let message = concat4(
                    "Failed to read ",
                    unread.path.as_str(),
                    ": ",
                    unread.error.as_str(),
                );
                proof {
                    lemma_whole_failure_ends_it(message@, *read, entries@, next, i as int);
                }
                return Err(message);
            },
        };
        match zip_start_file(&mut zip, entry.relative_path.as_str(), false, ZIP_FILE_MODE) {
            Ok(()) => {},
            Err(e) => {
                let mut message = "Failed to add file to zip: ".to_owned();
                message.append(e.as_str());
                proof {
                    lemma_whole_failure_ends_it(message@, *read, entries@, next, i as int);
                }
                return Err(message);
            },
        }
        match zip_write_all(&mut zip, &data) {
            Ok(()) => {
                proof {
                    let taken = entries@.take(i + 1);
                    let member = (entry.relative_path@, data@, false, ZIP_FILE_MODE);
                    assert(Seq::<u8>::empty() + data@ =~= data@);
                    assert(crate::zip_file::zip_contents(zip) =~= before.push(member));
                    assert(whole_members(taken, next) =~= before.push(member));
                    results = next;
                }
            },
            Err(e) => {
                let mut message = "Failed to write zip entry: ".to_owned();
                message.append(e.as_str());
                proof {
                    assert(Seq::<u8>::empty() + data@ =~= data@);
                    lemma_whole_failure_ends_it(message@, *read, entries@, next, i as int);
                }
                return Err(message);
            },
        }
        i = i + 1;
    }
    assert(entries@.take(i as int) =~= entries@);
    match zip_finish(zip) {
        Ok(archive) => Ok(archive),
        Err(e) => {
            let mut message = "Failed to finalize zip: ".to_owned();
            message.append(e.as_str());
            Err(message)
        },
    }
}

/// An archive of the first entries has a name exactly if the next entry repeats it.
proof fn lemma_whole_member_names(
    entries: Seq<ImageEntry>,
    results: Seq<Result<Vec<u8>, UnreadFile>>,
    i: int,
)
    requires
        0 <= i < entries.len(),
    ensures
        crate::zip_file::has_name(
            whole_members(entries.take(i), results),
            entries[i].relative_path@,
        ) <==> repeats_name(entries, i),
{
    let members = whole_members(entries.take(i), results);
    if repeats_name(entries, i) {
        let k = choose|k: int|
            0 <= k < i && (#[trigger] entries[k]).relative_path@ == entries[i].relative_path@;
        assert(members[k].0 == entries[i].relative_path@);
    }
    if crate::zip_file::has_name(members, entries[i].relative_path@) {
        let k = choose|k: int|
            0 <= k < members.len() && (#[trigger] members[k]).0 == entries[i].relative_path@;
        assert(entries[k].relative_path@ == entries[i].relative_path@);
    }
}

// ----------------------------------------------------------------------------
// Archives of a project
// ----------------------------------------------------------------------------

/// The file name of the archive of all images.
pub open spec fn archive_filename(project_name: Seq<char>) -> Seq<char> {
    sanitized(project_name) + "_images.zip"@
}

/// Whether no entry's name is too long for an archive.
pub open spec fn names_fit(files: Seq<FileNode>) -> bool {
    forall|i: int|
        0 <= i < files.len() ==> vstd::utf8::encode_utf8(
            crate::catalog::normalized_path(#[trigger] files[i]),
        ).len() <= u16::MAX
}

/// Sorted entries have the names of the files that they stand for.
proof fn lemma_sorted_entries_are_files(
    entries: Seq<ImageEntry>,
    files: Seq<FileNode>,
    i: int,
) -> (k: int)
    requires
        sorted_entries_of(entries, files),
        0 <= i < entries.len(),
    ensures
        0 <= k < files.len(),
        stands_for(entries[i], files[k]),
{
    let found = choose|found: Seq<ImageEntry>| #[trigger]
        stand_for_all(found, files) && crate::ordering::is_stable_sort(entries, found);
    assert(entries.contains(entries[i]));
    crate::ordering::lemma_stable_sort_keeps_items(entries, found, entries[i]);
    let k = choose|k: int| 0 <= k < found.len() && found[k] == entries[i];
    assert(stands_for(found[k], files[k]));
    k
}

/// Whether no two files have the same name in an archive.
pub open spec fn names_differ(files: Seq<FileNode>) -> bool {
    forall|i: int, k: int|
        0 <= i < k < files.len() ==> crate::catalog::normalized_path(#[trigger] files[i])
            != crate::catalog::normalized_path(#[trigger] files[k])
}

/// Files with names of their own have them also in the order of their paths.
proof fn lemma_sorted_names_differ(files: Seq<FileNode>, entries: Seq<ImageEntry>)
    requires
        sorted_entries_of(entries, files),
        names_differ(files),
    ensures
        forall|i: int| 0 <= i < entries.len() ==> !#[trigger] repeats_name(entries, i),
{
    let found = choose|found: Seq<ImageEntry>| #[trigger]
        stand_for_all(found, files) && crate::ordering::is_stable_sort(entries, found);
    assert forall|i: int| 0 <= i < entries.len() implies !#[trigger] repeats_name(entries, i) by {
        if repeats_name(entries, i) {
            let k = choose|k: int|
                0 <= k < i && (#[trigger] entries[k]).relative_path@ == entries[i].relative_path@;
            assert forall|a: int, b: int| 0 <= a < b < found.len() implies (
            #[trigger] found[a]).path_key() != (#[trigger] found[b]).path_key() by {
                assert(stands_for(found[a], files[a]));
                assert(stands_for(found[b], files[b]));
            }
            crate::ordering::lemma_stable_sort_keeps_paths_apart(entries, found, k, i);
        }
    }
}

/// Whether files have names of their own and each, however it is read, gives bytes
/// that can be archived.
pub open spec fn files_readable<F: Fn(&ImageEntry) -> FileContents>(
    read: F,
    files: Seq<FileNode>,
) -> bool {
    &&& names_differ(files)
    &&& forall|entry: ImageEntry, result: FileContents, k: int|
        0 <= k < files.len() && stands_for(entry, #[trigger] files[k]) && #[trigger] call_ensures(
            read,
            (&entry,),
            result,
        ) ==> read_failure(entry, result) is None
}

/// Readable files stay readable in the order of their paths.
proof fn lemma_sorted_files_are_readable<F: Fn(&ImageEntry) -> FileContents>(
    read: F,
    files: Seq<FileNode>,
    entries: Seq<ImageEntry>,
)
    requires
        sorted_entries_of(entries, files),
        files_readable(read, files),
    ensures
        all_readable(read, entries, entries.len() as int),
{
    lemma_sorted_names_differ(files, entries);
    assert forall|i: int, result: FileContents|
        0 <= i < entries.len() && #[trigger] call_ensures(read, (&entries[i],), result) implies
        read_failure(entries[i], result) is None by {
        let k = lemma_sorted_entries_are_files(entries, files, i);
        assert(stands_for(entries[i], files[k]));
    }
}

/// The result of building an archive by its view.
pub open spec fn project_outcome(r: Result<ProjectArchive, ArchiveError>) -> Result<
    Seq<u8>,
    Seq<char>,
> {
    match r {
        Ok(archive) => Ok(archive.bytes@),
        Err(ArchiveError::BuildFailed(message)) => Err(message@),
        Err(ArchiveError::NoImages) => Err(Seq::empty()),
    }
}

/// Build the archive of all supported images of a directory, in the order of
/// their paths.
pub fn build_project_archive<F: Fn(&ImageEntry) -> FileContents>(
    nodes: &Vec<DirNode>,
    project_name: &str,
    read: &F,
) -> (r: Result<ProjectArchive, ArchiveError>)
    requires
        forall|entry: ImageEntry| call_requires(*read, (&entry,)),
        names_fit(crate::catalog::supported_files(nodes@)),
    ensures
        r matches Err(ArchiveError::NoImages) <==> crate::catalog::supported_files(nodes@).len()
            == 0,
        crate::catalog::supported_files(nodes@).len() > 0 ==> exists|entries: Seq<ImageEntry>|
            #[trigger]
            sorted_entries_of(entries, crate::catalog::supported_files(nodes@)) && archives(
                *read,
                entries,
                project_outcome(r),
            ),
        r matches Ok(archive) ==> archive.filename@ == archive_filename(project_name@),
        crate::catalog::supported_files(nodes@).len() > 0 && files_readable(
            *read,
            crate::catalog::supported_files(nodes@),
        ) ==> r is Ok,
{
    let entries = sorted_image_entries(nodes);
    let ghost files = crate::catalog::supported_files(nodes@);
    if entries.len() == 0 {
        return Err(ArchiveError::NoImages);
    }
    assert forall|i: int| 0 <= i < entries@.len() implies vstd::utf8::encode_utf8(
        (#[trigger] entries@[i]).relative_path@,
    ).len() <= u16::MAX by {
        let k = lemma_sorted_entries_are_files(entries@, files, i);
        assert(stands_for(entries@[i], files[k]));
    }
    proof {
        if files_readable(*read, files) {
            lemma_sorted_files_are_readable(*read, files, entries@);
        }
    }
    match build_images_zip(&entries, read) {
        Ok(bytes) => {
            let mut filename = sanitize_filename_component(project_name);
            filename.append("_images.zip");
            Ok(ProjectArchive { filename, bytes })
        },
        Err(message) => Err(ArchiveError::BuildFailed(message)),
    }
}

/// Whether files have names of their own and each, however it is read, gives bytes
/// that can be archived without announcing them as large.
pub open spec fn files_whole<F: Fn(&ImageEntry) -> Result<Vec<u8>, UnreadFile>>(
    read: F,
    files: Seq<FileNode>,
) -> bool {
    &&& names_differ(files)
    &&& forall|entry: ImageEntry, result: Result<Vec<u8>, UnreadFile>, k: int|
        0 <= k < files.len() && stands_for(entry, #[trigger] files[k]) && #[trigger] call_ensures(
            read,
            (&entry,),
            result,
        ) ==> result is Ok && (result->Ok_0)@.len() <= ZIP32_MAX_BYTES
}

proof fn lemma_sorted_files_are_whole<F: Fn(&ImageEntry) -> Result<Vec<u8>, UnreadFile>>(
    read: F,
    files: Seq<FileNode>,
    entries: Seq<ImageEntry>,
)
    requires
        sorted_entries_of(entries, files),
        files_whole(read, files),
    ensures
        all_whole(read, entries),
{
    lemma_sorted_names_differ(files, entries);
    assert forall|i: int, result: Result<Vec<u8>, UnreadFile>|
        0 <= i < entries.len() && #[trigger] call_ensures(read, (&entries[i],), result) implies
        result is Ok && (result->Ok_0)@.len() <= ZIP32_MAX_BYTES by {
        let k = lemma_sorted_entries_are_files(entries, files, i);
        assert(stands_for(entries[i], files[k]));
    }
}

/// Build the archive of all supported images of a directory, in the order of their
/// paths, each read whole before it is added.
pub fn build_whole_project_archive<F: Fn(&ImageEntry) -> Result<Vec<u8>, UnreadFile>>(
    nodes: &Vec<DirNode>,
    project_name: &str,
    read: &F,
) -> (r: Result<ProjectArchive, ArchiveError>)
    requires
        forall|entry: ImageEntry| call_requires(*read, (&entry,)),
        names_fit(crate::catalog::supported_files(nodes@)),
    ensures
        r matches Err(ArchiveError::NoImages) <==> crate::catalog::supported_files(nodes@).len()
            == 0,
        crate::catalog::supported_files(nodes@).len() > 0 ==> exists|entries: Seq<ImageEntry>|
            #[trigger]
            sorted_entries_of(entries, crate::catalog::supported_files(nodes@)) && archives_whole(
                *read,
                entries,
                project_outcome(r),
            ),
        r matches Ok(archive) ==> archive.filename@ == archive_filename(project_name@),
        crate::catalog::supported_files(nodes@).len() > 0 && files_whole(
            *read,
            crate::catalog::supported_files(nodes@),
        ) ==> r is Ok,
{
    let entries = sorted_image_entries(nodes);
    let ghost files = crate::catalog::supported_files(nodes@);
    if entries.len() == 0 {
        return Err(ArchiveError::NoImages);
    }
    assert forall|i: int| 0 <= i < entries@.len() implies vstd::utf8::encode_utf8(
        (#[trigger] entries@[i]).relative_path@,
    ).len() <= u16::MAX by {
        let k = lemma_sorted_entries_are_files(entries@, files, i);
        assert(stands_for(entries@[i], files[k]));
    }
    proof {
        if files_whole(*read, files) {
            lemma_sorted_files_are_whole(*read, files, entries@);
        }
    }
    match build_whole_images_zip(&entries, read) {
        Ok(bytes) => {
            let mut filename = sanitize_filename_component(project_name);
            filename.append("_images.zip");
            Ok(ProjectArchive { filename, bytes })
        },
        Err(message) => Err(ArchiveError::BuildFailed(message)),
    }
}

// ----------------------------------------------------------------------------
// Chunked download plan
// ----------------------------------------------------------------------------

pub const DEFAULT_PART_SIZE_MB: u64 = 256;

pub const MIN_PART_SIZE_MB: u64 = 16;

pub const MAX_PART_SIZE_MB: u64 = 1024;

/// The plan of a chunked download, as a client sees it.
#[derive(Debug)]
pub struct DownloadPlanResponse {
    pub total_files: usize,
    pub total_bytes: u64,
    pub part_size_bytes: u64,
    pub part_count: usize,
    pub parts: Vec<DownloadPartInfo>,
}

/// One part of a chunked download, as a client sees it.
#[derive(Debug)]
pub struct DownloadPartInfo {
    pub index: usize,
    pub filename: String,
    pub file_count: usize,
    pub total_bytes: u64,
}

/// What a client asks of a chunked download.
#[derive(Clone, Copy, Debug)]
pub struct DownloadQuery {
    pub part_size_mb: Option<u64>,
}

impl Default for DownloadQuery {
    fn default() -> (query: Self)
        ensures
            query.part_size_mb is None,
    {
        DownloadQuery { part_size_mb: None }
    }
}

/// One part of a chunked download.
#[derive(Debug)]
pub struct PlannedDownloadPart {
    pub index: usize,
    pub filename: String,
    pub entries: Vec<ImageEntry>,
    pub total_bytes: u64,
}

/// A chunked download.
#[derive(Debug)]
pub struct PlannedDownload {
    pub part_size_bytes: u64,
    pub total_files: usize,
    pub total_bytes: u64,
    pub parts: Vec<PlannedDownloadPart>,
}

/// The part size in bytes for a size asked for in MB: the default where none is
/// asked for, held between the least and the greatest size.
pub open spec fn part_size_spec(part_size_mb: Option<u64>) -> int {
    let mb = match part_size_mb {
        Some(mb) => mb,
        None => DEFAULT_PART_SIZE_MB,
    };
    if mb < MIN_PART_SIZE_MB {
        MIN_PART_SIZE_MB * 1048576
    } else if mb > MAX_PART_SIZE_MB {
        MAX_PART_SIZE_MB * 1048576
    } else {
        mb * 1048576
    }
}

/// Resolves the part size in bytes.
pub fn resolve_part_size_bytes(part_size_mb: Option<u64>) -> (bytes: u64)
    ensures
        bytes == part_size_spec(part_size_mb),
        MIN_PART_SIZE_MB * 1048576 <= bytes <= MAX_PART_SIZE_MB * 1048576,
{
    let asked: u64 = match part_size_mb {
        Some(mb) => mb,
        None => DEFAULT_PART_SIZE_MB,
    };
    let mb: u64 = if asked < MIN_PART_SIZE_MB {
        MIN_PART_SIZE_MB
    } else if asked > MAX_PART_SIZE_MB {
        MAX_PART_SIZE_MB
    } else {
        asked
    };
    mb * 1048576
}

/// What an entry counts for when parts are filled: its size, and at least one
/// byte.
pub open spec fn entry_weight(entry: ImageEntry) -> nat {
    if entry.size_bytes == 0 {
        1
    } else {
        entry.size_bytes as nat
    }
}

/// What the entries of a part count for.
pub open spec fn part_weight(entries: Seq<ImageEntry>) -> nat
    decreases entries.len(),
{
    if entries.len() == 0 {
        0
    } else {
        part_weight(entries.drop_last()) + entry_weight(entries.last())
    }
}

/// Whether an entry does not fit into a part any more. A limit of `u64::MAX`
/// is no limit.
pub open spec fn does_not_fit(part: Seq<ImageEntry>, entry: ImageEntry, limit: u64) -> bool {
    limit < u64::MAX && part_weight(part) + entry_weight(entry) > limit
}

/// Entries in parts: each entry goes into the last part, or opens a new one
/// where it does not fit.
pub open spec fn partition_spec(entries: Seq<ImageEntry>, limit: u64) -> Seq<Seq<ImageEntry>>
    decreases entries.len(),
{
    if entries.len() == 0 {
        Seq::empty()
    } else {
        let before = partition_spec(entries.drop_last(), limit);
        let entry = entries.last();
        if before.len() == 0 || does_not_fit(before.last(), entry, limit) {
            before.push(seq![entry])
        } else {
            before.update(before.len() - 1, before.last().push(entry))
        }
    }
}

/// The entries of each part.
pub open spec fn part_views(parts: Seq<Vec<ImageEntry>>) -> Seq<Seq<ImageEntry>> {
    parts.map_values(|part: Vec<ImageEntry>| part@)
}

/// The parts put together again, in order.
pub open spec fn concatenated(parts: Seq<Seq<ImageEntry>>) -> Seq<ImageEntry>
    decreases parts.len(),
{
    if parts.len() == 0 {
        Seq::empty()
    } else {
        concatenated(parts.drop_last()) + parts.last()
    }
}

/// The parts hold exactly the entries, in order; no part is empty; every part
/// keeps the limit unless it is a single entry; and every part but the first
/// was opened because its first entry did not fit into the part before.
pub proof fn lemma_partition(entries: Seq<ImageEntry>, limit: u64)
    ensures
        ({
            let parts = partition_spec(entries, limit);
            &&& concatenated(parts) == entries
            &&& parts.len() <= entries.len()
            &&& entries.len() > 0 ==> parts.len() > 0
            &&& forall|i: int| 0 <= i < parts.len() ==> (#[trigger] parts[i]).len() > 0
            &&& forall|i: int|
                0 <= i < parts.len() && parts[i].len() > 1 && limit < u64::MAX ==> part_weight(
                    #[trigger] parts[i],
                ) <= limit
            &&& forall|i: int|
                0 < i < parts.len() ==> does_not_fit(parts[i - 1], (#[trigger] parts[i])[0], limit)
        }),
    decreases entries.len(),
{
    if entries.len() > 0 {
        let rest = entries.drop_last();
        let before = partition_spec(rest, limit);
        let entry = entries.last();
        lemma_partition(rest, limit);
        let parts = partition_spec(entries, limit);
        assert(rest.push(entry) =~= entries);
        if before.len() == 0 || does_not_fit(before.last(), entry, limit) {
            assert(parts.drop_last() =~= before);
            assert(concatenated(parts) =~= entries);
            assert forall|i: int| 0 <= i < parts.len() implies (#[trigger] parts[i]).len() > 0 by {
                if i < before.len() {
                    assert(before[i].len() > 0);
                }
            }
            assert forall|i: int|
                0 <= i < parts.len() && parts[i].len() > 1 && limit < u64::MAX implies part_weight(
                #[trigger] parts[i],
            ) <= limit by {
                if i < before.len() {
                    assert(part_weight(before[i]) <= limit);
                }
            }
            assert forall|i: int| 0 < i < parts.len() implies does_not_fit(
                parts[i - 1],
                (#[trigger] parts[i])[0],
                limit,
            ) by {
                if i < before.len() {
                    assert(does_not_fit(before[i - 1], before[i][0], limit));
                }
            }
        } else {
            let last = before.last();
            let grown = last.push(entry);
            assert(parts.drop_last() =~= before.drop_last());
            assert(concatenated(parts) =~= entries);
            assert(grown.drop_last() =~= last);
            assert(before[before.len() - 1].len() > 0);
            assert forall|i: int| 0 <= i < parts.len() implies (#[trigger] parts[i]).len() > 0 by {
                if i < before.len() - 1 {
                    assert(before[i].len() > 0);
                }
            }
            assert forall|i: int|
                0 <= i < parts.len() && parts[i].len() > 1 && limit < u64::MAX implies part_weight(
                #[trigger] parts[i],
            ) <= limit by {
                if i < before.len() - 1 {
                    assert(part_weight(before[i]) <= limit);
                }
            }
            assert forall|i: int| 0 < i < parts.len() implies does_not_fit(
                parts[i - 1],
                (#[trigger] parts[i])[0],
                limit,
            ) by {
                assert(does_not_fit(before[i - 1], before[i][0], limit));
            }
        }
    }
}

/// Whether parts hold exactly the entries, in order, none is empty, and each keeps
/// the limit unless it is a single entry.
pub open spec fn is_split(
    parts: Seq<Seq<ImageEntry>>,
    entries: Seq<ImageEntry>,
    limit: u64,
) -> bool {
    &&& concatenated(parts) == entries
    &&& forall|i: int| 0 <= i < parts.len() ==> (#[trigger] parts[i]).len() > 0
    &&& forall|i: int|
        0 <= i < parts.len() && parts[i].len() > 1 && limit < u64::MAX ==> part_weight(
            #[trigger] parts[i],
        ) <= limit
}

proof fn lemma_suffix_weight(entries: Seq<ImageEntry>, k: int)
    requires
        0 <= k <= entries.len(),
    ensures
        part_weight(entries.skip(k)) <= part_weight(entries),
    decreases entries.len(),
{
    if k < entries.len() {
        lemma_suffix_weight(entries.drop_last(), k);
        assert(entries.skip(k).drop_last() =~= entries.drop_last().skip(k));
    }
}

#[verifier::spinoff_prover]
#[verifier::rlimit(60)]
proof fn lemma_last_part_is_short(
    entries: Seq<ImageEntry>,
    limit: u64,
    other: Seq<Seq<ImageEntry>>,
)
    requires
        is_split(other, entries, limit),
    ensures
        partition_spec(entries, limit).len() <= other.len(),
        entries.len() > 0 && partition_spec(entries, limit).len() == other.len()
            ==> partition_spec(entries, limit).last().len() <= other.last().len(),
    decreases entries.len(),
{
    if entries.len() > 0 {
        let rest = entries.drop_last();
        let entry = entries.last();
        let last = other.last();
        assert(other[other.len() - 1].len() > 0);
        assert(last.last() == entry);
        let parts = partition_spec(entries, limit);
        let before = partition_spec(rest, limit);
        lemma_partition(rest, limit);
        if last.len() == 1 {
            let shorter = other.drop_last();
            assert(concatenated(other) == concatenated(shorter) + last);
            assert(concatenated(shorter) =~= rest);
            assert forall|i: int| 0 <= i < shorter.len() implies (#[trigger] shorter[i]).len()
                > 0 by {
                assert(other[i].len() > 0);
            }
            assert forall|i: int|
                0 <= i < shorter.len() && shorter[i].len() > 1 && limit < u64::MAX implies
                part_weight(#[trigger] shorter[i]) <= limit by {
                assert(part_weight(other[i]) <= limit);
            }
            lemma_last_part_is_short(rest, limit, shorter);
        } else {
            let cut = last.drop_last();
            let shorter = other.update(other.len() - 1, cut);
            assert(shorter.drop_last() =~= other.drop_last());
            assert(concatenated(other) == concatenated(other.drop_last()) + last);
            assert(concatenated(shorter) =~= rest);
            assert(limit < u64::MAX ==> part_weight(other[other.len() - 1]) <= limit);
            assert forall|i: int| 0 <= i < shorter.len() implies (#[trigger] shorter[i]).len()
                > 0 by {
                assert(other[i].len() > 0);
            }
            assert forall|i: int|
                0 <= i < shorter.len() && shorter[i].len() > 1 && limit < u64::MAX implies
                part_weight(#[trigger] shorter[i]) <= limit by {
                assert(part_weight(other[i]) <= limit);
            }
            lemma_last_part_is_short(rest, limit, shorter);
            if before.len() == other.len() && does_not_fit(before.last(), entry, limit) {
                let k = cut.len() - before.last().len();
                assert(concatenated(before) == concatenated(before.drop_last()) + before.last());
                assert(concatenated(shorter) == concatenated(shorter.drop_last()) + cut);
                assert(cut.skip(k) =~= rest.skip(rest.len() - before.last().len()));
                assert(before.last() =~= rest.skip(rest.len() - before.last().len()));
                lemma_suffix_weight(cut, k);
            }
        }
    }
}

/// No way to split the entries in order, with every part within the limit unless it
/// is a single entry, has fewer parts.
pub proof fn lemma_fewest_parts(
    entries: Seq<ImageEntry>,
    limit: u64,
    other: Seq<Seq<ImageEntry>>,
)
    requires
        is_split(other, entries, limit),
    ensures
        is_split(partition_spec(entries, limit), entries, limit),
        partition_spec(entries, limit).len() <= other.len(),
{
    lemma_partition(entries, limit);
    lemma_last_part_is_short(entries, limit, other);
}

/// Puts entries into parts of limited size.
pub fn partition_image_entries(entries: Vec<ImageEntry>, part_size_bytes: u64) -> (parts: Vec<
    Vec<ImageEntry>,
>)
    ensures
        part_views(parts@) == partition_spec(entries@, part_size_bytes),
{
    let ghost input = entries@;
    let mut parts: Vec<Vec<ImageEntry>> = Vec::new();
    let mut current: Vec<ImageEntry> = Vec::new();
    let mut current_size: u64 = 0;
    assert(input.take(0) =~= Seq::<ImageEntry>::empty());
    assert(part_views(parts@) =~= Seq::<Seq<ImageEntry>>::empty());
    for entry in it: entries
        invariant
            it.seq() == input,
            current_size == (if part_weight(current@) > u64::MAX {
                u64::MAX as nat
            } else {
                part_weight(current@)
            }),
            it.index() == 0 ==> parts@.len() == 0 && current@.len() == 0,
            it.index() > 0 ==> current@.len() > 0 && part_views(parts@).push(current@)
                == partition_spec(input.take(it.index()), part_size_bytes),
    {
        let ghost done = input.take(it.index());
        let ghost next = input.take(it.index() + 1);
        assert(next.drop_last() =~= done);
        assert(next.last() == entry);
        let ghost old_views = part_views(parts@);
        let ghost before = partition_spec(done, part_size_bytes);
        let entry_size: u64 = if entry.size_bytes == 0 {
            1
        } else {
            entry.size_bytes
        };
        let would_overflow = current.len() > 0 && current_size.saturating_add(entry_size)
            > part_size_bytes;
        if would_overflow {
            let mut full: Vec<ImageEntry> = Vec::new();
            std::mem::swap(&mut full, &mut current);
            parts.push(full);
            current_size = 0;
            assert(part_views(parts@) =~= before);
        }
        let ghost base = current@;
        current_size = current_size.saturating_add(entry_size);
        current.push(entry);
        proof {
            assert(current@.drop_last() =~= base);
            assert(base.len() == 0 ==> part_weight(base) == 0);
            assert(part_weight(current@) == part_weight(base) + entry_weight(entry));
            if it.index() == 0 {
                assert(current@ =~= seq![entry]);
                assert(done =~= Seq::<ImageEntry>::empty());
                assert(before.len() == 0);
                assert(part_views(parts@).push(current@) =~= before.push(seq![entry]));
            } else if would_overflow {
                assert(current@ =~= seq![entry]);
                assert(part_views(parts@).push(current@) =~= before.push(seq![entry]));
            } else {
                assert(before.last() == base);
                assert(part_views(parts@).push(current@) =~= before.update(
                    before.len() - 1,
                    before.last().push(entry),
                ));
            }
        }
    }
    assert(input.take(input.len() as int) =~= input);
    if current.len() > 0 {
        let ghost whole = part_views(parts@).push(current@);
        parts.push(current);
        assert(part_views(parts@) =~= whole);
    } else {
        assert(part_views(parts@) =~= Seq::<Seq<ImageEntry>>::empty());
    }
    parts
}

/// The total size of entries in bytes.
pub open spec fn total_size(entries: Seq<ImageEntry>) -> nat
    decreases entries.len(),
{
    if entries.len() == 0 {
        0
    } else {
        total_size(entries.drop_last()) + entries.last().size_bytes as nat
    }
}

/// The total size of files in bytes.
pub open spec fn total_file_size(files: Seq<FileNode>) -> nat
    decreases files.len(),
{
    if files.len() == 0 {
        0
    } else {
        total_file_size(files.drop_last()) + files.last().size_bytes as nat
    }
}

proof fn lemma_total_remove(entries: Seq<ImageEntry>, k: int)
    requires
        0 <= k < entries.len(),
    ensures
        total_size(entries) == total_size(entries.remove(k)) + entries[k].size_bytes,
    decreases entries.len(),
{
    if k == entries.len() - 1 {
        assert(entries.remove(k) =~= entries.drop_last());
    } else {
        lemma_total_remove(entries.drop_last(), k);
        assert(entries.remove(k).drop_last() =~= entries.drop_last().remove(k));
        assert(entries.remove(k).last() == entries.last());
    }
}

/// The total size does not depend on the order of the entries.
proof fn lemma_total_of_permutation(a: Seq<ImageEntry>, b: Seq<ImageEntry>)
    requires
        a.to_multiset() == b.to_multiset(),
    ensures
        total_size(a) == total_size(b),
    decreases a.len(),
{
    a.to_multiset_ensures();
    b.to_multiset_ensures();
    if a.len() > 0 {
        let x = a.last();
        assert(a[a.len() - 1] == x);
        assert(a.contains(x));
        assert(a.to_multiset().count(x) > 0);
        assert(b.to_multiset().count(x) > 0);
        assert(b.contains(x));
        let k = choose|k: int| 0 <= k < b.len() && b[k] == x;
        lemma_total_remove(b, k);
        assert(a.remove(a.len() - 1) =~= a.drop_last());
        vstd::seq_lib::to_multiset_remove(a, a.len() - 1);
        vstd::seq_lib::to_multiset_remove(b, k);
        lemma_total_of_permutation(a.drop_last(), b.remove(k));
    }
}

proof fn lemma_total_of_files(entries: Seq<ImageEntry>, files: Seq<FileNode>)
    requires
        stand_for_all(entries, files),
    ensures
        total_size(entries) == total_file_size(files),
    decreases entries.len(),
{
    if entries.len() > 0 {
        let front = entries.drop_last();
        assert forall|i: int| 0 <= i < front.len() implies stands_for(
            #[trigger] front[i],
            files.drop_last()[i],
        ) by {
            assert(stands_for(entries[i], files[i]));
        }
        lemma_total_of_files(front, files.drop_last());
        assert(stands_for(entries[entries.len() - 1], files[files.len() - 1]));
    }
}

proof fn lemma_total_of_sorted(entries: Seq<ImageEntry>, files: Seq<FileNode>)
    requires
        sorted_entries_of(entries, files),
    ensures
        total_size(entries) == total_file_size(files),
{
    let found = choose|found: Seq<ImageEntry>| #[trigger]
        stand_for_all(found, files) && crate::ordering::is_stable_sort(entries, found);
    lemma_total_of_permutation(entries, found);
    lemma_total_of_files(found, files);
}

proof fn lemma_total_append(a: Seq<ImageEntry>, b: Seq<ImageEntry>)
    ensures
        total_size(a + b) == total_size(a) + total_size(b),
    decreases b.len(),
{
    if b.len() == 0 {
        assert(a + b =~= a);
    } else {
        assert((a + b).drop_last() =~= a + b.drop_last());
        lemma_total_append(a, b.drop_last());
    }
}

/// A part is no larger than the whole.
proof fn lemma_total_of_part(parts: Seq<Seq<ImageEntry>>, i: int)
    requires
        0 <= i < parts.len(),
    ensures
        total_size(parts[i]) <= total_size(concatenated(parts)),
    decreases parts.len(),
{
    lemma_total_append(concatenated(parts.drop_last()), parts.last());
    if i < parts.len() - 1 {
        lemma_total_of_part(parts.drop_last(), i);
    }
}

fn sum_sizes(entries: &Vec<ImageEntry>) -> (total: u64)
    requires
        total_size(entries@) <= u64::MAX,
    ensures
        total == total_size(entries@),
{
    let mut total: u64 = 0;
    let mut i: usize = 0;
    assert(entries@.take(0) =~= Seq::<ImageEntry>::empty());
    while i < entries.len()
        invariant
            i <= entries@.len(),
            total_size(entries@) <= u64::MAX,
            total == total_size(entries@.take(i as int)),
        decreases entries@.len() - i,
    {
        proof {
            let next = entries@.take(i + 1);
            assert(next.drop_last() =~= entries@.take(i as int));
            lemma_total_append(next, entries@.skip(i + 1));
            assert(next + entries@.skip(i + 1) =~= entries@);
        }
        total = total + entries[i].size_bytes;
        i = i + 1;
    }
    assert(entries@.take(i as int) =~= entries@);
    total
}

/// The file name of one part, counted from one.
pub open spec fn part_filename(project_name: Seq<char>, index: int) -> Seq<char> {
    sanitized(project_name) + "_images_part"@ + crate::text::zero_padded(
        crate::text::decimal((index + 1) as nat),
        3,
    ) + ".zip"@
}

/// Whether a part is the `index`-th of a plan and holds these entries.
pub open spec fn is_part(
    part: PlannedDownloadPart,
    index: int,
    entries: Seq<ImageEntry>,
    project_name: Seq<char>,
) -> bool {
    &&& part.index == index
    &&& part.filename@ == part_filename(project_name, index)
    &&& part.entries@ == entries
    &&& part.total_bytes == total_size(entries)
}

/// Whether a plan puts entries into parts of limited size.
pub open spec fn is_plan(
    plan: PlannedDownload,
    entries: Seq<ImageEntry>,
    project_name: Seq<char>,
    part_size_bytes: u64,
) -> bool {
    let parts = partition_spec(entries, part_size_bytes);
    &&& plan.part_size_bytes == part_size_bytes
    &&& plan.total_files == entries.len()
    &&& plan.total_bytes == total_size(entries)
    &&& plan.parts@.len() == parts.len()
    &&& forall|i: int|
        0 <= i < parts.len() ==> is_part(#[trigger] plan.parts@[i], i, parts[i], project_name)
}

/// Whether a plan puts files, in the order of their paths, into parts of limited
/// size.
pub open spec fn plans_for(
    plan: PlannedDownload,
    files: Seq<FileNode>,
    project_name: Seq<char>,
    part_size_bytes: u64,
) -> bool {
    exists|entries: Seq<ImageEntry>|
        sorted_entries_of(entries, files) && #[trigger] is_plan(
            plan,
            entries,
            project_name,
            part_size_bytes,
        )
}

/// Build a chunked download plan for the supported images of a directory.
pub fn build_chunked_download_plan(
    nodes: &Vec<DirNode>,
    project_name: &str,
    part_size_bytes: u64,
) -> (r: Result<PlannedDownload, ArchiveError>)
    requires
        total_file_size(crate::catalog::supported_files(nodes@)) <= u64::MAX,
    ensures
        match r {
            Ok(plan) => crate::catalog::supported_files(nodes@).len() > 0 && plans_for(
                plan,
                crate::catalog::supported_files(nodes@),
                project_name@,
                part_size_bytes,
            ),
            Err(error) => error == ArchiveError::NoImages && crate::catalog::supported_files(
                nodes@,
            ).len() == 0,
        },
{
    let entries = sorted_image_entries(nodes);
    if entries.len() == 0 {
        return Err(ArchiveError::NoImages);
    }
    let ghost all = entries@;
    proof {
        lemma_total_of_sorted(all, crate::catalog::supported_files(nodes@));
    }
    let total_files: usize = entries.len();
    let total_bytes: u64 = sum_sizes(&entries);
    let partitions = partition_image_entries(entries, part_size_bytes);
    let ghost groups = partition_spec(all, part_size_bytes);
    let ghost raw = partitions@;
    let base_name = sanitize_filename_component(project_name);
    let mut parts: Vec<PlannedDownloadPart> = Vec::new();
    proof {
        lemma_partition(all, part_size_bytes);
    }
    let part_count: usize = partitions.len();
    for part_entries in it: partitions
        invariant
            raw.len() == part_count,
            it.seq() == raw,
            part_views(raw) == groups,
            groups == partition_spec(all, part_size_bytes),
            concatenated(groups) == all,
            total_size(all) <= u64::MAX,
            base_name@ == sanitized(project_name@),
            parts@.len() == it.index(),
            forall|i: int|
                0 <= i < it.index() ==> is_part(
                    #[trigger] parts@[i],
                    i,
                    groups[i],
                    project_name@,
                ),
    {
        let index: usize = parts.len();
        assert(part_views(raw)[it.index()] == part_entries@);
        proof {
            lemma_total_of_part(groups, it.index());
        }
        let total: u64 = sum_sizes(&part_entries);
        let mut filename = base_name.clone();
        filename.append("_images_part");
        push_padded_decimal(&mut filename, index as u64 + 1, 3);
        filename.append(".zip");
        parts.push(
            PlannedDownloadPart { index, filename, entries: part_entries, total_bytes: total },
        );
    }
    let plan = PlannedDownload { part_size_bytes, total_files, total_bytes, parts };
    assert(is_plan(plan, all, project_name@, part_size_bytes));
    assert(plans_for(
        plan,
        crate::catalog::supported_files(nodes@),
        project_name@,
        part_size_bytes,
    ));
    Ok(plan)
}

/// The sizes of the parts of a plan add up to its total size, and their file
/// counts to its total count.
pub proof fn lemma_plan_totals(
    plan: PlannedDownload,
    entries: Seq<ImageEntry>,
    project_name: Seq<char>,
    part_size_bytes: u64,
)
    requires
        is_plan(plan, entries, project_name, part_size_bytes),
    ensures
        sum_of_part_bytes(plan.parts@) == plan.total_bytes,
        sum_of_part_files(plan.parts@) == plan.total_files,
{
    let groups = partition_spec(entries, part_size_bytes);
    lemma_partition(entries, part_size_bytes);
    lemma_part_sums(plan.parts@, groups, project_name);
}

/// The sizes of all parts added up.
pub open spec fn sum_of_part_bytes(parts: Seq<PlannedDownloadPart>) -> nat
    decreases parts.len(),
{
    if parts.len() == 0 {
        0
    } else {
        sum_of_part_bytes(parts.drop_last()) + parts.last().total_bytes as nat
    }
}

/// The file counts of all parts added up.
pub open spec fn sum_of_part_files(parts: Seq<PlannedDownloadPart>) -> nat
    decreases parts.len(),
{
    if parts.len() == 0 {
        0
    } else {
        sum_of_part_files(parts.drop_last()) + parts.last().entries@.len()
    }
}

proof fn lemma_part_sums(
    parts: Seq<PlannedDownloadPart>,
    groups: Seq<Seq<ImageEntry>>,
    project_name: Seq<char>,
)
    requires
        parts.len() == groups.len(),
        forall|i: int|
            0 <= i < groups.len() ==> is_part(#[trigger] parts[i], i, groups[i], project_name),
    ensures
        sum_of_part_bytes(parts) == total_size(concatenated(groups)),
        sum_of_part_files(parts) == concatenated(groups).len(),
    decreases parts.len(),
{
    if parts.len() > 0 {
        let front = parts.drop_last();
        let front_groups = groups.drop_last();
        assert forall|i: int| 0 <= i < front_groups.len() implies is_part(
            #[trigger] front[i],
            i,
            front_groups[i],
            project_name,
        ) by {
            assert(is_part(parts[i], i, groups[i], project_name));
        }
        lemma_part_sums(front, front_groups, project_name);
        assert(is_part(parts[parts.len() - 1], parts.len() - 1, groups.last(), project_name));
        lemma_total_append(concatenated(front_groups), groups.last());
    }
}

/// Whether part information is what a client is told about a part.
pub open spec fn tells(info: DownloadPartInfo, part: PlannedDownloadPart) -> bool {
    &&& info.index == part.index
    &&& info.filename@ == part.filename@
    &&& info.file_count == part.entries@.len()
    &&& info.total_bytes == part.total_bytes
}

/// What a client is told about a plan.
pub fn download_plan_response(planned: &PlannedDownload) -> (response: DownloadPlanResponse)
    ensures
        response.total_files == planned.total_files,
        response.total_bytes == planned.total_bytes,
        response.part_size_bytes == planned.part_size_bytes,
        response.part_count == planned.parts@.len(),
        response.parts@.len() == planned.parts@.len(),
        forall|i: int|
            0 <= i < planned.parts@.len() ==> tells(
                #[trigger] response.parts@[i],
                planned.parts@[i],
            ),
{
    let mut parts: Vec<DownloadPartInfo> = Vec::new();
    let mut i: usize = 0;
    while i < planned.parts.len()
        invariant
            i <= planned.parts@.len(),
            parts@.len() == i,
            forall|k: int| 0 <= k < i ==> tells(#[trigger] parts@[k], planned.parts@[k]),
        decreases planned.parts@.len() - i,
    {
        let part = &planned.parts[i];
        parts.push(
            DownloadPartInfo {
                index: part.index,
                filename: part.filename.clone(),
                file_count: part.entries.len(),
                total_bytes: part.total_bytes,
            },
        );
        i = i + 1;
    }
    DownloadPlanResponse {
        total_files: planned.total_files,
        total_bytes: planned.total_bytes,
        part_size_bytes: planned.part_size_bytes,
        part_count: parts.len(),
        parts,
    }
}

/// The message for a part that a plan does not have.
pub open spec fn bad_part_message(part_index: usize, part_count: nat) -> Seq<char> {
    "Invalid download part index "@ + crate::text::decimal(part_index as nat)
        + " (available parts: "@ + crate::text::decimal(part_count) + ")"@
}

/// Picks one part of a plan.
pub fn select_part(planned: PlannedDownload, part_index: usize) -> (r: Result<
    PlannedDownloadPart,
    String,
>)
    ensures
        match r {
            Ok(part) => part_index < planned.parts@.len() && part
                == planned.parts@[part_index as int],
            Err(message) => part_index >= planned.parts@.len() && message@ == bad_part_message(
                part_index,
                planned.parts@.len(),
            ),
        },
{
    let mut parts = planned.parts;
    if part_index < parts.len() {
        Ok(parts.swap_remove(part_index))
    } else {
        let mut message = "Invalid download part index ".to_owned();
        push_decimal(&mut message, part_index as u64);
        message.append(" (available parts: ");
        push_decimal(&mut message, parts.len() as u64);
        message.append(")");
        Err(message)
    }
}

// ----------------------------------------------------------------------------
// Laws
// ----------------------------------------------------------------------------

/// A text that is fit for a file name is kept as it is, and of any other the characters
/// that are allowed are kept where they stand once it is trimmed.
pub proof fn lemma_fit_names_are_kept(value: Seq<char>)
    requires
        value.len() > 0,
        crate::text::is_trimmed(value),
        crate::text::trim_spec(replaced_forbidden(value)).len() > 0,
    ensures
        sanitized(value).len() == value.len(),
        forall|i: int|
            0 <= i < value.len() ==> (#[trigger] sanitized(value)[i]) == if forbidden_in_filename(
                value[i],
            ) {
                '_'
            } else {
                value[i]
            },
        (forall|i: int| 0 <= i < value.len() ==> !forbidden_in_filename(#[trigger] value[i]))
            ==> sanitized(value) == value,
{
    crate::text::lemma_trim_fixed(value);
    if forall|i: int| 0 <= i < value.len() ==> !forbidden_in_filename(#[trigger] value[i]) {
        assert(sanitized(value) =~= value);
    }
}

/// What is blank becomes `project`.
pub proof fn lemma_blank_names(value: Seq<char>)
    requires
        crate::text::trim_spec(value).len() == 0,
    ensures
        sanitized(value) == "project"@,
{
}

/// An archive of files has a member for each, in order: under the file's path, with the
/// bytes that were read of it, and announced as large exactly where its size needs it.
pub proof fn lemma_members_are_the_files(
    entries: Seq<ImageEntry>,
    results: Seq<FileContents>,
    i: int,
)
    requires
        0 <= i < entries.len(),
        results[i] is Bytes,
    ensures
        zip_members(entries, results).len() == entries.len(),
        zip_members(entries, results)[i].0 == entries[i].relative_path@,
        zip_members(entries, results)[i].1 == (results[i]->Bytes_0)@,
        zip_members(entries, results)[i].2 <==> entries[i].size_bytes >= 0x1_0000_0000,
        zip_members(entries, results)[i].3 == 0o644,
{
}

/// The same of files that are read whole, none of which is announced as large.
pub proof fn lemma_whole_members_are_the_files(
    entries: Seq<ImageEntry>,
    results: Seq<Result<Vec<u8>, UnreadFile>>,
    i: int,
)
    requires
        0 <= i < entries.len(),
        results[i] is Ok,
    ensures
        whole_members(entries, results).len() == entries.len(),
        whole_members(entries, results)[i].0 == entries[i].relative_path@,
        whole_members(entries, results)[i].1 == (results[i]->Ok_0)@,
        !whole_members(entries, results)[i].2,
        whole_members(entries, results)[i].3 == 0o644,
{
}

/// A file can be archived exactly where it was read and is no larger than announced.
pub proof fn lemma_what_can_be_archived(
    entries: Seq<ImageEntry>,
    i: int,
    result: FileContents,
    whole: Result<Vec<u8>, UnreadFile>,
)
    ensures
        read_failure(entries[i], result) is None <==> (result matches FileContents::Bytes(bytes) && (
        bytes@.len() < 0x1_0000_0000 || entries[i].size_bytes >= 0x1_0000_0000)),
        whole_failure(entries, i, whole) is None <==> (whole matches Ok(bytes) && bytes@.len()
            < 0x1_0000_0000 && !repeats_name(entries, i)),
{
}

/// What is told of a file that cannot be archived names the file and ends with the
/// cause.
pub proof fn lemma_archive_failures_name_the_file(
    entry: ImageEntry,
    path: Seq<char>,
    cause: Seq<char>,
)
    ensures
        ({
            let name = entry.relative_path@;
            let added = add_message(entry, cause);
            let opened = open_message(entry, path, cause);
            let written = write_message(entry, cause);
            &&& added.subrange(15, 15 + name.len() as int) == name
            &&& opened.subrange(16, 16 + name.len() as int) == name
            &&& written.subrange(17, 17 + name.len() as int) == name
            &&& added.skip(added.len() - cause.len()) == cause
            &&& opened.skip(opened.len() - cause.len()) == cause
            &&& written.skip(written.len() - cause.len()) == cause
        }),
{
    reveal_strlit("Failed to add '");
    reveal_strlit("Failed to open '");
    reveal_strlit("Failed to write '");
    let name = entry.relative_path@;
    let added = add_message(entry, cause);
    let opened = open_message(entry, path, cause);
    let written = write_message(entry, cause);
    assert(added.subrange(15, 15 + name.len() as int) =~= name);
    assert(opened.subrange(16, 16 + name.len() as int) =~= name);
    assert(written.subrange(17, 17 + name.len() as int) =~= name);
    assert(added.skip(added.len() - cause.len()) =~= cause);
    assert(opened.skip(opened.len() - cause.len()) =~= cause);
    assert(written.skip(written.len() - cause.len()) =~= cause);
}

/// Entries stand for the files of a directory: there are as many, each has the path, the
/// place and the size of one of them, and each file has one.
pub proof fn lemma_entries_are_the_files(
    entries: Seq<ImageEntry>,
    files: Seq<FileNode>,
    i: int,
)
    requires
        sorted_entries_of(entries, files),
        0 <= i < files.len(),
    ensures
        entries.len() == files.len(),
        exists|k: int|
            #![trigger entries[k]]
            0 <= k < entries.len() && entries[k].relative_path@ == crate::text::replace_char_spec(
                files[i].relative_path@,
                '\\',
                '/',
            ) && entries[k].file_path == files[i].path && entries[k].size_bytes
                == files[i].size_bytes,
{
    let found = choose|found: Seq<ImageEntry>| #[trigger]
        stand_for_all(found, files) && crate::ordering::is_stable_sort(entries, found);
    assert(stands_for(found[i], files[i]));
    assert(found.contains(found[i]));
    crate::ordering::lemma_stable_sort_keeps_items(entries, found, found[i]);
    let k = choose|k: int| 0 <= k < entries.len() && entries[k] == found[i];
    assert(entries[k].relative_path@ == crate::catalog::normalized_path(files[i]));
}

/// A part size that is asked for is kept between the least and the greatest: within them
/// it is what was asked for, more is never given for less, and without a wish it is the
/// size of 256 megabytes.
pub proof fn lemma_part_sizes(a: u64, b: u64)
    ensures
        16 * 1024 * 1024 <= part_size_spec(Some(a)) <= 1024 * 1024 * 1024,
        16 <= a <= 1024 ==> part_size_spec(Some(a)) == a * 1024 * 1024,
        a <= b ==> part_size_spec(Some(a)) <= part_size_spec(Some(b)),
        part_size_spec(None) == part_size_spec(Some(256)),
{
}

/// What entries count for adds up, is never less than their bytes, and counts every
/// entry.
pub proof fn lemma_weights(entries: Seq<ImageEntry>, entry: ImageEntry)
    ensures
        part_weight(entries.push(entry)) == part_weight(entries) + entry_weight(entry),
        total_size(entries.push(entry)) == total_size(entries) + entry.size_bytes,
        entry_weight(entry) >= 1,
        entry.size_bytes >= 1 ==> entry_weight(entry) == entry.size_bytes,
        part_weight(entries) >= total_size(entries),
        part_weight(entries) >= entries.len(),
        part_weight(entries) <= total_size(entries) + entries.len(),
    decreases entries.len(),
{
    assert(entries.push(entry).drop_last() =~= entries);
    if entries.len() > 0 {
        lemma_weights(entries.drop_last(), entry);
    }
}

/// The parts of a plan keep the size that was asked for, unless a single file is larger;
/// together they hold every file once, in order; and each is told with its own place,
/// name, count and size.
pub proof fn lemma_plans_keep_the_size(
    plan: PlannedDownload,
    entries: Seq<ImageEntry>,
    project_name: Seq<char>,
    part_size_bytes: u64,
    i: int,
    info: DownloadPartInfo,
)
    requires
        is_plan(plan, entries, project_name, part_size_bytes),
        part_size_bytes < u64::MAX,
        0 <= i < plan.parts@.len(),
        tells(info, plan.parts@[i]),
    ensures
        plan.parts@[i].total_bytes <= part_size_bytes || plan.parts@[i].entries@.len() == 1,
        plan.parts@[i].entries@.len() >= 1,
        info.index == i,
        info.filename@ == part_filename(project_name, i),
        info.file_count == plan.parts@[i].entries@.len(),
        info.total_bytes == total_size(plan.parts@[i].entries@),
        concatenated(plan.parts@.map_values(|part: PlannedDownloadPart| part.entries@)) == entries,
{
    let groups = partition_spec(entries, part_size_bytes);
    lemma_partition(entries, part_size_bytes);
    assert(is_part(plan.parts@[i], i, groups[i], project_name));
    if groups[i].len() > 0 {
        lemma_weights(groups[i], groups[i][0]);
    }
    let held = plan.parts@.map_values(|part: PlannedDownloadPart| part.entries@);
    assert(held =~= groups) by {
        assert forall|k: int| 0 <= k < groups.len() implies held[k] == groups[k] by {
            assert(is_part(plan.parts@[k], k, groups[k], project_name));
        }
    }
}

/// The parts of a download have different names, which start with the project's and end
/// as those of archives do.
pub proof fn lemma_part_names_differ(project_name: Seq<char>, a: int, b: int)
    requires
        a >= 0,
        b >= 0,
    ensures
        part_filename(project_name, a) == part_filename(project_name, b) ==> a == b,
        part_filename(project_name, a).take(sanitized(project_name).len() as int) == sanitized(
            project_name,
        ),
        part_filename(project_name, a).skip(part_filename(project_name, a).len() - 4) == ".zip"@,
        archive_filename(project_name).take(sanitized(project_name).len() as int) == sanitized(
            project_name,
        ),
        archive_filename(project_name).skip(archive_filename(project_name).len() - 4) == ".zip"@,
        archive_filename(project_name) != part_filename(project_name, a),
{
    reveal_strlit("_images_part");
    reveal_strlit(".zip");
    reveal_strlit("_images.zip");
    let base = sanitized(project_name);
    let na = crate::text::zero_padded(crate::text::decimal((a + 1) as nat), 3);
    let nb = crate::text::zero_padded(crate::text::decimal((b + 1) as nat), 3);
    let fa = part_filename(project_name, a);
    let fb = part_filename(project_name, b);
    let whole = archive_filename(project_name);
    crate::text::lemma_padding_keeps_the_number((a + 1) as nat, 3);
    crate::text::lemma_padding_keeps_the_number((b + 1) as nat, 3);
    assert(fa.subrange(base.len() as int + 12, base.len() as int + 12 + na.len()) =~= na);
    assert(fb.subrange(base.len() as int + 12, base.len() as int + 12 + nb.len()) =~= nb);
    assert(fa.len() == base.len() + 16 + na.len());
    assert(fb.len() == base.len() + 16 + nb.len());
    assert(fa.take(base.len() as int) =~= base);
    assert(fa.skip(fa.len() - 4) =~= ".zip"@);
    assert(whole.take(base.len() as int) =~= base);
    assert(whole.skip(whole.len() - 4) =~= ".zip"@);
    assert(whole.len() == base.len() + 11);
}

/// The message for a part that is not there tells how many there are.
pub proof fn lemma_bad_part_is_told(part_index: usize, part_count: nat)
    ensures
        bad_part_message(part_index, part_count).subrange(
            28,
            28 + crate::text::decimal(part_index as nat).len() as int,
        ) == crate::text::decimal(part_index as nat),
        ({
            let message = bad_part_message(part_index, part_count);
            let count = crate::text::decimal(part_count);
            message.subrange(message.len() - 1 - count.len(), message.len() - 1) == count
        }),
{
    reveal_strlit("Invalid download part index ");
    reveal_strlit(")");
    let index = crate::text::decimal(part_index as nat);
    let count = crate::text::decimal(part_count);
    let message = bad_part_message(part_index, part_count);
    assert(message.subrange(28, 28 + index.len() as int) =~= index);
    assert(message.subrange(message.len() - 1 - count.len(), message.len() - 1) =~= count);
}

/// None of the characters that file systems reserve stands in a file name that was made
/// fit, and letters, digits, blanks, dots, hyphens and underscores are not touched.
pub proof fn lemma_reserved_characters(value: Seq<char>, c: char)
    ensures
        seq!['/', '\\', ':', '*', '?', '"', '<', '>', '|'].contains(c) ==> !sanitized(
            value,
        ).contains(c),
        crate::text::ascii_alphanumeric(c) || c == ' ' || c == '.' || c == '-' || c == '_'
            ==> !forbidden_in_filename(c),
{
    lemma_sanitized(value);
    let reserved = seq!['/', '\\', ':', '*', '?', '"', '<', '>', '|'];
    if reserved.contains(c) {
        let k = choose|k: int| 0 <= k < reserved.len() && reserved[k] == c;
        assert(k == 0 || k == 1 || k == 2 || k == 3 || k == 4 || k == 5 || k == 6 || k == 7 || k
            == 8);
        assert(forbidden_in_filename(c));
        if sanitized(value).contains(c) {
            let i = choose|i: int| 0 <= i < sanitized(value).len() && sanitized(value)[i] == c;
            assert(!forbidden_in_filename(sanitized(value)[i]));
        }
    }
}

/// Files with names of their own that can all be read whole, and are not too large, make
/// an archive: of every file once, in order, under its path, with the bytes that were
/// read.
pub proof fn lemma_whole_files_make_an_archive<F: Fn(&ImageEntry) -> Result<Vec<u8>, UnreadFile>>(
    read: F,
    entries: Seq<ImageEntry>,
    outcome: Result<Seq<u8>, Seq<char>>,
)
    requires
        archives_whole(read, entries, outcome),
        all_whole(read, entries),
    ensures
        outcome matches Ok(archive) && exists|results: Seq<Result<Vec<u8>, UnreadFile>>|
            results.len() == entries.len() && archive == #[trigger] crate::zip_file::zip_archive(
                whole_members(entries, results),
            ) && forall|i: int|
                0 <= i < entries.len() ==> call_ensures(read, (&entries[i],), #[trigger] results[i])
                    && results[i] is Ok,
{
    match outcome {
        Ok(archive) => {
            let results = choose|results: Seq<Result<Vec<u8>, UnreadFile>>|
                results.len() == entries.len() && #[trigger] whole_archivable(
                    read,
                    entries,
                    results,
                    entries.len() as int,
                ) && archive == crate::zip_file::zip_archive(whole_members(entries, results));
            assert(archive == crate::zip_file::zip_archive(whole_members(entries, results)));
        },
        Err(message) => {
            let (results, i) = choose|results: Seq<Result<Vec<u8>, UnreadFile>>, i: int| #[trigger]
                whole_failed_at(message, read, entries, results, i);
            lemma_whole_failure_ends_it(message, read, entries, results, i);
        },
    }
}

/// A plan for files counts all of them and their bytes, and so do its parts together;
/// every file stands in exactly one place.
pub proof fn lemma_plans_hold_the_files(
    plan: PlannedDownload,
    files: Seq<FileNode>,
    project_name: Seq<char>,
    part_size_bytes: u64,
)
    requires
        plans_for(plan, files, project_name, part_size_bytes),
    ensures
        plan.part_size_bytes == part_size_bytes,
        plan.total_files == files.len(),
        plan.total_bytes == total_file_size(files),
        sum_of_part_bytes(plan.parts@) == total_file_size(files),
        sum_of_part_files(plan.parts@) == files.len(),
{
    let entries = choose|entries: Seq<ImageEntry>|
        sorted_entries_of(entries, files) && #[trigger] is_plan(
            plan,
            entries,
            project_name,
            part_size_bytes,
        );
    lemma_plan_totals(plan, entries, project_name, part_size_bytes);
    lemma_total_of_sorted(entries, files);
    let found = choose|found: Seq<ImageEntry>| #[trigger]
        stand_for_all(found, files) && crate::ordering::is_stable_sort(entries, found);
    assert(entries.len() == found.len());
}

/// One more file adds its size to the total, and nothing else.
pub proof fn lemma_file_sizes_add_up(files: Seq<FileNode>, file: FileNode)
    ensures
        total_file_size(Seq::<FileNode>::empty()) == 0,
        total_file_size(files.push(file)) == total_file_size(files) + file.size_bytes,
{
    assert(files.push(file).drop_last() =~= files);
}

} // verus!
