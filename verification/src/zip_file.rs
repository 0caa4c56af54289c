//! Access to the `zip` crate: an archive that is built in memory.

use std::io::Cursor;
use std::io::Write;

use vstd::prelude::*;

verus! {

/// An archive that is being written: a `zip::ZipWriter` over a byte vector.
#[verifier::external_body]
pub struct ZipFile {
    writer: zip::ZipWriter<Cursor<Vec<u8>>>,
}

/// Names what an archive holds so far: of each file, in order, its name, its
/// bytes, whether it was announced as larger than 4 GiB, and its permission bits.
pub uninterp spec fn zip_contents(zip: ZipFile) -> Seq<
    (Seq<char>, Seq<u8>, bool, u32),
>;

/// Names whether an archive can still be written to: whether every call on it so
/// far has succeeded.
pub uninterp spec fn zip_open(zip: ZipFile) -> bool;

/// Names the bytes of a finished archive that holds given files.
pub uninterp spec fn zip_archive(contents: Seq<(Seq<char>, Seq<u8>, bool, u32)>) -> Seq<u8>;

/// Whether an archive holds a file of this name.
pub open spec fn has_name(contents: Seq<(Seq<char>, Seq<u8>, bool, u32)>, name: Seq<char>) -> bool {
    exists|i: int| 0 <= i < contents.len() && (#[trigger] contents[i]).0 == name
}

/// Why an archive refuses a name that it already holds.
pub open spec fn duplicate_cause(name: Seq<char>) -> Seq<char> {
    "invalid Zip archive: Duplicate filename: "@ + name
}

/// Why an archive refuses bytes that make a file too large.
pub open spec fn too_large_cause() -> Seq<char> {
    "Large file option has not been set"@
}

/// Trusted: `ZipWriter::new` on an empty cursor starts an archive without files.
#[verifier::external_body]
pub(crate) fn zip_new() -> (zip: ZipFile)
    ensures
        zip_open(zip),
        zip_contents(zip) == Seq::<(Seq<char>, Seq<u8>, bool, u32)>::empty(),
{
    ZipFile { writer: zip::ZipWriter::new(Cursor::new(Vec::new())) }
}

/// Trusted: `ZipWriter::start_file` on an archive on which no call has failed adds
/// an empty file, stored without compression, behind those already there. It
/// fails, with a fixed message, exactly on a name that the archive already holds.
/// A name of more than 65535 bytes would make it panic, and only the nine
/// permission bits of a mode are kept.
#[verifier::external_body]
pub(crate) fn zip_start_file(
    zip: &mut ZipFile,
    name: &str,
    large: bool,
    mode: u32,
) -> (r: Result<(), String>)
    requires
        zip_open(*old(zip)),
        vstd::utf8::encode_utf8(name@).len() <= u16::MAX,
        mode <= 0o777,
    ensures
        match r {
            Ok(()) => {
                &&& !has_name(zip_contents(*old(zip)), name@)
                &&& zip_open(*final(zip))
                &&& zip_contents(*final(zip)) == zip_contents(*old(zip)).push(
                    (name@, Seq::<u8>::empty(), large, mode),
                )
            },
            Err(cause) => has_name(zip_contents(*old(zip)), name@) && cause@ == duplicate_cause(
                name@,
            ),
        },
{
    let options = zip::write::SimpleFileOptions::default()
        .compression_method(zip::CompressionMethod::Stored)
        .unix_permissions(mode)
        .large_file(large);
    match zip.writer.start_file(name, options) {
        Ok(()) => Ok(()),
        Err(e) => Err(e.to_string()),
    }
}

/// Trusted: `Write::write_all` on a `ZipWriter` on which no call has failed and
/// which holds a file appends all the bytes to the file that was started last. It
/// fails, with a fixed message, exactly where it was given bytes and these make a
/// file larger than 4 GiB that was not announced as such.
#[verifier::external_body]
pub(crate) fn zip_write_all(zip: &mut ZipFile, data: &Vec<u8>) -> (r: Result<(), String>)
    requires
        zip_open(*old(zip)),
        zip_contents(*old(zip)).len() > 0,
    ensures
        ({
            let before = zip_contents(*old(zip));
            let bytes = before.last().1 + data@;
            let fits = data@.len() == 0 || before.last().2 || bytes.len() <= u32::MAX;
            match r {
                Ok(()) => {
                    &&& fits
                    &&& zip_open(*final(zip))
                    &&& zip_contents(*final(zip)) == before.update(
                        before.len() - 1,
                        (before.last().0, bytes, before.last().2, before.last().3),
                    )
                },
                Err(cause) => !fits && cause@ == too_large_cause(),
            }
        }),
{
    match zip.writer.write_all(data) {
        Ok(()) => Ok(()),
        Err(e) => Err(e.to_string()),
    }
}

/// Trusted: `ZipWriter::finish` on an archive on which no call has failed succeeds
/// and gives the bytes of the archive, which are determined by what it holds:
/// without the crate's clock feature every file carries the same fixed time.
#[verifier::external_body]
pub(crate) fn zip_finish(zip: ZipFile) -> (r: Result<Vec<u8>, String>)
    requires
        zip_open(zip),
    ensures
        r is Ok,
        match r {
            Ok(bytes) => bytes@ == zip_archive(zip_contents(zip)),
            Err(_) => true,
        },
{
    match zip.writer.finish() {
        Ok(cursor) => Ok(cursor.into_inner()),
        Err(e) => Err(e.to_string()),
    }
}

} // verus!
