//! The catalogue of images in a data directory: identifiers, listing, lookup.

use std::path::PathBuf;

use vstd::prelude::*;
use vstd::string::*;
use vstd::utf8::*;

use crate::error::Error;
use crate::ordering::{sort_by_path, HasPath};
use crate::paths::is_safe_relative_path;
use crate::text::{hex_nibble, replace_char, same_text, to_chars};

verus! {

// ----------------------------------------------------------------------------
// Identifiers
// ----------------------------------------------------------------------------

/// Whether a character may stand in a URL-safe identifier.
pub open spec fn url_safe_char(c: char) -> bool {
    crate::text::alphanumeric(c) || c == '-' || c == '_'
}

/// A text with `_` in place of every character that is not URL-safe.
pub open spec fn url_safe(value: Seq<char>) -> Seq<char> {
    value.map_values(
        |c: char|
            if url_safe_char(c) {
                c
            } else {
                '_'
            },
    )
}

/// Make a string URL-safe by replacing non-alphanumeric characters with `_`.
///
/// Retained for lookups by older identifiers, which are not unique. New
/// identifiers come from `encode_image_id_from_relative`.
pub fn make_url_safe(value: &str) -> (out: String)
    ensures
        out@ == url_safe(value@),
{
    let chars = to_chars(value);
    let mut out = String::new();
    let mut i: usize = 0;
    while i < chars.len()
        invariant
            i <= chars@.len(),
            chars@ == value@,
            out@ == url_safe(value@).take(i as int),
        decreases chars@.len() - i,
    {
        let c = chars[i];
        let safe = c.is_alphanumeric() || c == '-' || c == '_';
        out.push(if safe { c } else { '_' });
        i = i + 1;
        assert(url_safe(value@).take(i as int) =~= url_safe(value@).take(i - 1).push(
            url_safe(value@)[i - 1],
        ));
    }
    assert(url_safe(value@).take(i as int) =~= url_safe(value@));
    out
}

/// A URL-safe text is as long as the text it came from, holds only URL-safe
/// characters, and is left alone by a second pass.
pub proof fn lemma_url_safe(value: Seq<char>)
    ensures
        url_safe(value).len() == value.len(),
        forall|i: int| 0 <= i < value.len() ==> url_safe_char(#[trigger] url_safe(value)[i]),
        url_safe(url_safe(value)) == url_safe(value),
{
    assert(url_safe(url_safe(value)) =~= url_safe(value));
}

/// The hexadecimal form of a byte sequence, two digits per byte.
pub open spec fn hex_text(bytes: Seq<u8>) -> Seq<char>
    decreases bytes.len(),
{
    if bytes.len() == 0 {
        Seq::empty()
    } else {
        hex_text(bytes.drop_last()) + seq![
            crate::text::hex_char_spec((bytes.last() / 16) as nat),
            crate::text::hex_char_spec((bytes.last() % 16) as nat),
        ]
    }
}

/// The prefix of stable image identifiers.
pub open spec fn id_prefix() -> Seq<char> {
    seq!['i', 'd', ':']
}

/// The stable identifier of a relative path.
pub open spec fn image_id_of(relative_path: Seq<char>) -> Seq<char> {
    id_prefix() + hex_text(encode_utf8(relative_path))
}

/// Encode a normalized relative path into a stable, collision-free image ID.
///
/// Format: `id:{hex-utf8-bytes}`
pub fn encode_image_id_from_relative(relative_path: &str) -> (out: String)
    ensures
        out@ == image_id_of(relative_path@),
{
    let bytes = relative_path.as_bytes();
    let mut out = String::new();
    out.push('i');
    out.push('d');
    out.push(':');
    let mut i: usize = 0;
    assert(bytes@.take(0) =~= Seq::<u8>::empty());
    assert(out@ =~= id_prefix() + hex_text(bytes@.take(0)));
    while i < bytes.len()
        invariant
            i <= bytes@.len(),
            bytes@ == relative_path.spec_bytes(),
            out@ == id_prefix() + hex_text(bytes@.take(i as int)),
        decreases bytes@.len() - i,
    {
        let byte = bytes[i];
        out.push(hex_nibble(byte / 16));
        out.push(hex_nibble(byte % 16));
        assert(bytes@.take(i + 1).drop_last() =~= bytes@.take(i as int));
        i = i + 1;
        assert(out@ =~= id_prefix() + hex_text(bytes@.take(i as int)));
    }
    assert(bytes@.take(i as int) =~= bytes@);
    out
}

/// The value of a hexadecimal digit of either case.
pub open spec fn hex_digit_value(c: char) -> Option<u8> {
    if '0' <= c && c <= '9' {
        Some((c as u32 - 48) as u8)
    } else if 'a' <= c && c <= 'f' {
        Some((c as u32 - 87) as u8)
    } else if 'A' <= c && c <= 'F' {
        Some((c as u32 - 55) as u8)
    } else {
        None
    }
}

/// The value of a hexadecimal digit of either case.
pub fn from_hex_digit(c: char) -> (r: Option<u8>)
    ensures
        r == hex_digit_value(c),
        r matches Some(v) ==> v < 16,
{
    if '0' <= c && c <= '9' {
        Some((c as u32 - 48) as u8)
    } else if 'a' <= c && c <= 'f' {
        Some((c as u32 - 87) as u8)
    } else if 'A' <= c && c <= 'F' {
        Some((c as u32 - 55) as u8)
    } else {
        None
    }
}

/// Whether a text consists of pairs of hexadecimal digits.
pub open spec fn is_hex_text(s: Seq<char>) -> bool {
    s.len() % 2 == 0 && forall|i: int|
        0 <= i < s.len() ==> (#[trigger] hex_digit_value(s[i])) is Some
}

/// The bytes that pairs of hexadecimal digits stand for.
pub open spec fn unhex(s: Seq<char>) -> Seq<u8>
    decreases s.len(),
{
    if s.len() < 2 {
        Seq::empty()
    } else {
        unhex(s.take(s.len() - 2)).push(
            (16 * hex_digit_value(s[s.len() - 2])->0 + hex_digit_value(s[s.len() - 1])->0) as u8,
        )
    }
}

/// The relative path that a stable identifier stands for.
pub open spec fn decoded_path(image_id: Seq<char>) -> Option<Seq<char>> {
    if crate::text::starts_with_spec(image_id, id_prefix()) && is_hex_text(image_id.skip(3))
        && valid_utf8(unhex(image_id.skip(3))) {
        Some(decode_utf8(unhex(image_id.skip(3))))
    } else {
        None
    }
}

/// Trusted: `String::from_utf8` succeeds exactly on valid UTF-8, and then gives
/// the text that the bytes encode.
#[verifier::external_body]
fn string_from_utf8(bytes: Vec<u8>) -> (r: Option<String>)
    ensures
        match r {
            Some(s) => valid_utf8(bytes@) && s@ == decode_utf8(bytes@),
            None => !valid_utf8(bytes@),
        },
{
    String::from_utf8(bytes).ok()
}

/// Decode a stable image ID back into a normalized relative path.
pub fn decode_relative_path_from_image_id(image_id: &str) -> (r: Option<String>)
    ensures
        match r {
            Some(path) => decoded_path(image_id@) == Some(path@),
            None => decoded_path(image_id@) is None,
        },
{
    let chars = to_chars(image_id);
    if chars.len() < 3 || chars[0] != 'i' || chars[1] != 'd' || chars[2] != ':' {
        proof {
            if crate::text::starts_with_spec(image_id@, id_prefix()) {
                assert(image_id@.take(3)[0] == 'i');
                assert(image_id@.take(3)[1] == 'd');
                assert(image_id@.take(3)[2] == ':');
            }
        }
        return None;
    }
    assert(image_id@.take(3) =~= id_prefix());
    let ghost rest = image_id@.skip(3);
    if (chars.len() - 3) % 2 != 0 {
        return None;
    }
    let mut bytes: Vec<u8> = Vec::new();
    let mut i: usize = 3;
    while i < chars.len()
        invariant
            3 <= i <= chars@.len(),
            (chars@.len() - i) % 2 == 0,
            (i - 3) % 2 == 0,
            chars@ == image_id@,
            rest == image_id@.skip(3),
            bytes@ == unhex(rest.take(i - 3)),
            forall|k: int| 0 <= k < i - 3 ==> (#[trigger] hex_digit_value(rest[k])) is Some,
        decreases chars@.len() - i,
    {
        let hi = match from_hex_digit(chars[i]) {
            Some(v) => v,
            None => {
                assert(hex_digit_value(rest[i - 3]) is None);
                return None;
            },
        };
        let lo = match from_hex_digit(chars[i + 1]) {
            Some(v) => v,
            None => {
                assert(hex_digit_value(rest[i - 2]) is None);
                return None;
            },
        };
        bytes.push(16 * hi + lo);
        let ghost next = rest.take(i - 1);
        assert(next.take(next.len() - 2) =~= rest.take(i - 3));
        assert(next[next.len() - 2] == chars@[i as int]);
        assert(next[next.len() - 1] == chars@[i + 1]);
        i = i + 2;
    }
    assert(rest.take(i - 3) =~= rest);
    string_from_utf8(bytes)
}

proof fn lemma_unhex_of_hex(bytes: Seq<u8>)
    ensures
        hex_text(bytes).len() == 2 * bytes.len(),
        is_hex_text(hex_text(bytes)),
        unhex(hex_text(bytes)) == bytes,
    decreases bytes.len(),
{
    if bytes.len() > 0 {
        let front = bytes.drop_last();
        let hex = hex_text(bytes);
        lemma_unhex_of_hex(front);
        assert(hex.take(hex.len() - 2) =~= hex_text(front));
        assert forall|i: int| 0 <= i < hex.len() implies (#[trigger] hex_digit_value(
            hex[i],
        )) is Some by {
            if i < hex_text(front).len() {
                assert(hex_digit_value(hex_text(front)[i]) is Some);
            }
        }
        assert(hex_digit_value(hex[hex.len() - 2]) == Some((bytes.last() / 16) as u8));
        assert(hex_digit_value(hex[hex.len() - 1]) == Some((bytes.last() % 16) as u8));
        assert(unhex(hex) =~= bytes);
    }
}

/// Decoding the identifier of a path gives the path back.
pub proof fn lemma_image_id_round_trip(relative_path: Seq<char>)
    ensures
        decoded_path(image_id_of(relative_path)) == Some(relative_path),
        crate::text::starts_with_spec(image_id_of(relative_path), id_prefix()),
{
    let bytes = encode_utf8(relative_path);
    let id = image_id_of(relative_path);
    lemma_unhex_of_hex(bytes);
    assert(id.take(3) =~= id_prefix());
    assert(id.skip(3) =~= hex_text(bytes));
    encode_utf8_valid_utf8(relative_path);
    encode_utf8_decode_utf8(relative_path);
}

/// Different paths have different identifiers.
pub proof fn lemma_image_ids_are_collision_free(a: Seq<char>, b: Seq<char>)
    requires
        image_id_of(a) == image_id_of(b),
    ensures
        a == b,
{
    lemma_image_id_round_trip(a);
    lemma_image_id_round_trip(b);
}

// ----------------------------------------------------------------------------
// Directory contents
// ----------------------------------------------------------------------------

/// A file found under the data directory.
#[derive(Debug)]
pub struct FileNode {
    /// Path relative to the data directory, as the file system spells it.
    pub relative_path: String,
    /// The file name, where it is text.
    pub file_name: Option<String>,
    /// The extension, where there is one and it is text.
    pub extension: Option<String>,
    /// Whether a loader supports the file.
    pub supported: bool,
    /// Size in bytes.
    pub size_bytes: u64,
    /// The path under which the file is opened.
    pub path: PathBuf,
}

/// An entry of a directory, with the entries of a subdirectory below it.
#[derive(Debug)]
pub enum DirNode {
    Directory(Vec<DirNode>),
    File(FileNode),
}

/// The supported files of one entry, depth first.
pub open spec fn node_files(node: DirNode) -> Seq<FileNode>
    decreases node,
{
    match node {
        DirNode::Directory(children) => supported_files(children@),
        DirNode::File(file) => if file.supported {
            seq![file]
        } else {
            Seq::empty()
        },
    }
}

/// The supported files of a directory, depth first, in directory order.
pub open spec fn supported_files(nodes: Seq<DirNode>) -> Seq<FileNode>
    decreases nodes,
{
    if nodes.len() == 0 {
        Seq::empty()
    } else {
        supported_files(nodes.drop_last()) + node_files(nodes.last())
    }
}

/// Appends the supported files of a directory.
pub fn visit_supported_files<'a>(nodes: &'a Vec<DirNode>, out: &mut Vec<&'a FileNode>)
    ensures
        final(out)@.unref() == old(out)@.unref() + supported_files(nodes@),
    decreases nodes,
{
    let mut i: usize = 0;
    assert(nodes@.take(0) =~= Seq::<DirNode>::empty());
    assert(out@.unref() =~= old(out)@.unref() + supported_files(nodes@.take(0)));
    while i < nodes.len()
        invariant
            i <= nodes@.len(),
            out@.unref() == old(out)@.unref() + supported_files(nodes@.take(i as int)),
        decreases nodes@.len() - i,
    {
        let ghost before = out@;
        match &nodes[i] {
            DirNode::Directory(children) => {
                visit_supported_files(children, out);
            },
            DirNode::File(file) => {
                if file.supported {
                    out.push(file);
                }
            },
        }
        assert(out@.unref() =~= before.unref() + node_files(nodes@[i as int]));
        assert(nodes@.take(i + 1).drop_last() =~= nodes@.take(i as int));
        i = i + 1;
        assert(out@.unref() =~= old(out)@.unref() + supported_files(nodes@.take(i as int)));
    }
    assert(nodes@.take(i as int) =~= nodes@);
}

/// Count recursively all supported image files of a directory.
pub fn count_supported_images(nodes: &Vec<DirNode>) -> (count: usize)
    ensures
        count == supported_files(nodes@).len(),
{
    let mut files: Vec<&FileNode> = Vec::new();
    visit_supported_files(nodes, &mut files);
    assert(files@.unref() =~= supported_files(nodes@));
    files.len()
}

/// The paths of files, in order.
pub open spec fn file_paths(files: Seq<FileNode>) -> Seq<PathBuf> {
    files.map_values(|file: FileNode| file.path)
}

/// Collect recursively the paths of all supported images of a directory.
pub fn collect_supported_image_paths(nodes: &Vec<DirNode>) -> (out: Vec<PathBuf>)
    ensures
        out@ == file_paths(supported_files(nodes@)),
{
    let mut files: Vec<&FileNode> = Vec::new();
    visit_supported_files(nodes, &mut files);
    let ghost all = supported_files(nodes@);
    assert(files@.unref() =~= all);
    let mut out: Vec<PathBuf> = Vec::new();
    let mut i: usize = 0;
    while i < files.len()
        invariant
            i <= files@.len(),
            files@.unref() == all,
            out@ == file_paths(all).take(i as int),
        decreases files@.len() - i,
    {
        out.push(files[i].path.clone());
        assert(files@.unref()[i as int] == *files@[i as int]);
        i = i + 1;
        assert(file_paths(all).take(i as int) =~= file_paths(all).take(i - 1).push(
            all[i - 1].path,
        ));
    }
    assert(file_paths(all).take(i as int) =~= file_paths(all));
    out
}

// ----------------------------------------------------------------------------
// Listing
// ----------------------------------------------------------------------------

/// List entry for an image in a data directory.
#[derive(Clone, Debug, PartialEq, Eq)]
pub struct ImageInfo {
    /// URL-safe identifier derived from relative path.
    pub id: String,
    /// Display name (filename).
    pub name: String,
    /// Relative path inside the data directory.
    pub path: String,
    /// Uppercase extension or "UNKNOWN".
    pub format: String,
}

impl HasPath for ImageInfo {
    open spec fn path_key(&self) -> Seq<char> {
        self.path@
    }

    fn path_text(&self) -> (path: &str) {
        self.path.as_str()
    }
}

/// The relative path of a file with `/` as its separator.
pub open spec fn normalized_path(file: FileNode) -> Seq<char> {
    crate::text::replace_char_spec(file.relative_path@, '\\', '/')
}

/// The display name of a file.
pub open spec fn display_name(file: FileNode) -> Seq<char> {
    match file.file_name {
        Some(name) => name@,
        None => "unknown"@,
    }
}

/// The format of a file: its extension in upper case.
pub open spec fn display_format(extension: Option<String>) -> Seq<char> {
    match extension {
        Some(ext) => crate::text::uppercased(ext@),
        None => "UNKNOWN"@,
    }
}

/// The display name of a file.
fn file_display_name(file: &FileNode) -> (name: String)
    ensures
        name@ == display_name(*file),
{
    match &file.file_name {
        Some(name) => name.clone(),
        None => "unknown".to_owned(),
    }
}

/// The format of a file: its extension in upper case.
pub fn file_display_format(extension: &Option<String>) -> (format: String)
    ensures
        format@ == display_format(*extension),
{
    match extension {
        Some(ext) => ext.as_str().to_uppercase(),
        None => "UNKNOWN".to_owned(),
    }
}

/// Whether a list entry describes a file under its stable identifier.
pub open spec fn describes(info: ImageInfo, file: FileNode) -> bool {
    &&& info.id@ == image_id_of(normalized_path(file))
    &&& info.name@ == display_name(file)
    &&& info.path@ == normalized_path(file)
    &&& info.format@ == display_format(file.extension)
}

/// Whether list entries describe files one by one under stable identifiers.
pub open spec fn describe_all(infos: Seq<ImageInfo>, files: Seq<FileNode>) -> bool {
    infos.len() == files.len() && forall|i: int|
        0 <= i < files.len() ==> describes(#[trigger] infos[i], files[i])
}

/// Whether list entries describe files under stable identifiers, in the order of
/// their paths.
pub open spec fn is_listing(infos: Seq<ImageInfo>, files: Seq<FileNode>) -> bool {
    exists|found: Seq<ImageInfo>| #[trigger]
        describe_all(found, files) && crate::ordering::is_stable_sort(infos, found)
}

/// List recursively all supported images of a directory, sorted by relative path.
pub fn list_supported_images(nodes: &Vec<DirNode>) -> (out: Vec<ImageInfo>)
    ensures
        is_listing(out@, supported_files(nodes@)),
{
    let mut files: Vec<&FileNode> = Vec::new();
    visit_supported_files(nodes, &mut files);
    let ghost all = supported_files(nodes@);
    assert(files@.unref() =~= all);
    let mut found: Vec<ImageInfo> = Vec::new();
    let mut i: usize = 0;
    while i < files.len()
        invariant
            i <= files@.len(),
            files@.unref() == all,
            describe_all(found@, all.take(i as int)),
        decreases files@.len() - i,
    {
        let file = files[i];
        assert(files@.unref()[i as int] == *file);
        let path = replace_char(file.relative_path.as_str(), '\\', '/');
        let id = encode_image_id_from_relative(path.as_str());
        let name = file_display_name(file);
        let format = file_display_format(&file.extension);
        found.push(ImageInfo { id, name, path, format });
        i = i + 1;
    }
    assert(all.take(i as int) =~= all);
    assert(describe_all(found@, supported_files(nodes@)));
    sort_by_path(found)
}

/// Whether a list entry describes a file under its path as spelled and its
/// URL-safe identifier.
pub open spec fn describes_plainly(info: ImageInfo, file: FileNode) -> bool {
    &&& info.id@ == url_safe(file.relative_path@)
    &&& info.name@ == display_name(file)
    &&& info.path@ == file.relative_path@
    &&& info.format@ == display_format(file.extension)
}

/// Whether list entries describe files one by one under URL-safe identifiers.
pub open spec fn describe_all_plainly(infos: Seq<ImageInfo>, files: Seq<FileNode>) -> bool {
    infos.len() == files.len() && forall|i: int|
        0 <= i < files.len() ==> describes_plainly(#[trigger] infos[i], files[i])
}

/// List all images of a directory under their URL-safe identifiers, sorted by
/// relative path.
pub fn list_images(nodes: &Vec<DirNode>) -> (out: Vec<ImageInfo>)
    ensures
        exists|found: Seq<ImageInfo>|
            #![trigger describe_all_plainly(found, supported_files(nodes@))]
            describe_all_plainly(found, supported_files(nodes@)) && crate::ordering::is_stable_sort(
                out@,
                found,
            ),
{
    let mut files: Vec<&FileNode> = Vec::new();
    visit_supported_files(nodes, &mut files);
    let ghost all = supported_files(nodes@);
    assert(files@.unref() =~= all);
    let mut found: Vec<ImageInfo> = Vec::new();
    let mut i: usize = 0;
    while i < files.len()
        invariant
            i <= files@.len(),
            files@.unref() == all,
            describe_all_plainly(found@, all.take(i as int)),
        decreases files@.len() - i,
    {
        let file = files[i];
        assert(files@.unref()[i as int] == *file);
        let path = file.relative_path.clone();
        let id = make_url_safe(path.as_str());
        let name = file_display_name(file);
        let format = file_display_format(&file.extension);
        found.push(ImageInfo { id, name, path, format });
        i = i + 1;
    }
    assert(all.take(i as int) =~= all);
    assert(describe_all_plainly(found@, supported_files(nodes@)));
    sort_by_path(found)
}

/// The identifier of a listed image decodes to the path it is listed under.
pub proof fn lemma_listed_ids_decode(info: ImageInfo, file: FileNode)
    requires
        describes(info, file),
    ensures
        decoded_path(info.id@) == Some(info.path@),
{
    lemma_image_id_round_trip(normalized_path(file));
}

// ----------------------------------------------------------------------------
// Lookup
// ----------------------------------------------------------------------------

/// The relative path at which a stable identifier says to look, if it stays
/// inside the data directory.
pub open spec fn candidate_path(image_id: Seq<char>) -> Option<Seq<char>> {
    match decoded_path(image_id) {
        Some(path) => if crate::paths::is_safe_relative(path) {
            Some(path)
        } else {
            None
        },
        None => None,
    }
}

/// The relative path at which a stable identifier says to look.
pub fn stable_candidate(image_id: &str) -> (r: Option<String>)
    ensures
        match r {
            Some(path) => candidate_path(image_id@) == Some(path@),
            None => candidate_path(image_id@) is None,
        },
{
    match decode_relative_path_from_image_id(image_id) {
        Some(path) => if is_safe_relative_path(path.as_str()) {
            Some(path)
        } else {
            None
        },
        None => None,
    }
}

/// Where a lookup found an image.
#[derive(Debug)]
pub enum ImageMatch {
    /// At this path relative to the data directory.
    Candidate(String),
    /// At the path of a listed file.
    Listed(PathBuf),
}

/// Whether a file answers to a URL-safe identifier.
pub open spec fn answers_to(file: FileNode, image_id: Seq<char>) -> bool {
    url_safe(normalized_path(file)) == image_id
}

/// Whether `i` is the first file that answers to a URL-safe identifier.
pub open spec fn first_answer(files: Seq<FileNode>, image_id: Seq<char>, i: int) -> bool {
    0 <= i < files.len() && answers_to(files[i], image_id) && forall|k: int|
        0 <= k < i ==> !answers_to(#[trigger] files[k], image_id)
}

/// Find a supported file by its URL-safe identifier.
pub fn find_by_url_safe_id(nodes: &Vec<DirNode>, image_id: &str) -> (r: Option<PathBuf>)
    ensures
        match r {
            Some(path) => exists|i: int|
                first_answer(supported_files(nodes@), image_id@, i) && #[trigger] supported_files(
                    nodes@,
                )[i].path == path,
            None => forall|i: int|
                0 <= i < supported_files(nodes@).len() ==> !answers_to(
                    #[trigger] supported_files(nodes@)[i],
                    image_id@,
                ),
        },
{
    let mut files: Vec<&FileNode> = Vec::new();
    visit_supported_files(nodes, &mut files);
    let ghost all = supported_files(nodes@);
    assert(files@.unref() =~= all);
    let mut i: usize = 0;
    while i < files.len()
        invariant
            i <= files@.len(),
            files@.unref() == all,
            all == supported_files(nodes@),
            forall|k: int| 0 <= k < i ==> !answers_to(#[trigger] all[k], image_id@),
        decreases files@.len() - i,
    {
        let file = files[i];
        assert(files@.unref()[i as int] == *file);
        let path = replace_char(file.relative_path.as_str(), '\\', '/');
        let id = make_url_safe(path.as_str());
        if same_text(id.as_str(), image_id) {
            assert(first_answer(all, image_id@, i as int));
            return Some(file.path.clone());
        }
        i = i + 1;
    }
    None
}

/// Find an image file by its URL-safe ID.
pub fn find_image(nodes: &Vec<DirNode>, image_id: &str) -> (r: Result<PathBuf, Error>)
    ensures
        match r {
            Ok(path) => exists|i: int|
                first_answer(supported_files(nodes@), image_id@, i) && #[trigger] supported_files(
                    nodes@,
                )[i].path == path,
            Err(error) => {
                &&& error matches Error::ImageNotFound(text) && text@ == image_id@
                &&& forall|i: int|
                    0 <= i < supported_files(nodes@).len() ==> !answers_to(
                        #[trigger] supported_files(nodes@)[i],
                        image_id@,
                    )
            },
        },
{
    match find_by_url_safe_id(nodes, image_id) {
        Some(path) => Ok(path),
        None => Err(Error::ImageNotFound(image_id.to_owned())),
    }
}

/// Whether this is what a lookup finds: the candidate where it is there, else the
/// first file that answers to the identifier.
pub open spec fn finds(
    files: Seq<FileNode>,
    image_id: Seq<char>,
    candidate_found: bool,
    r: Option<ImageMatch>,
) -> bool {
    match r {
        Some(ImageMatch::Candidate(path)) => candidate_found && candidate_path(image_id) == Some(
            path@,
        ),
        Some(ImageMatch::Listed(path)) => !(candidate_found && candidate_path(image_id) is Some)
            && exists|i: int|
            first_answer(files, image_id, i) && #[trigger] files[i].path == path,
        None => !(candidate_found && candidate_path(image_id) is Some) && forall|i: int|
            0 <= i < files.len() ==> !answers_to(#[trigger] files[i], image_id),
    }
}

/// Find a supported file by `image_id`. `candidate_found` says whether a
/// supported file exists at the path that `stable_candidate` gives; where there
/// is no such path it is not looked at.
pub fn find_supported_image_by_id(
    nodes: &Vec<DirNode>,
    image_id: &str,
    candidate_found: bool,
) -> (r: Option<ImageMatch>)
    ensures
        finds(supported_files(nodes@), image_id@, candidate_found, r),
{
    if candidate_found {
        if let Some(path) = stable_candidate(image_id) {
            return Some(ImageMatch::Candidate(path));
        }
    }
    match find_by_url_safe_id(nodes, image_id) {
        Some(path) => Some(ImageMatch::Listed(path)),
        None => None,
    }
}

/// Whether one of the files is at a path.
pub open spec fn has_file_at(files: Seq<FileNode>, path: Option<Seq<char>>) -> bool {
    exists|i: int|
        0 <= i < files.len() && Some(normalized_path(#[trigger] files[i])) == path
}

/// Every listed identifier resolves to its own file: a lookup in the same directory,
/// which looks for the candidate there, finds the path that is listed with it. The
/// paths of files below a directory do not start at the root or go to a parent.
pub proof fn lemma_listed_images_resolve(
    files: Seq<FileNode>,
    infos: Seq<ImageInfo>,
    i: int,
    candidate_found: bool,
    r: Option<ImageMatch>,
)
    requires
        forall|k: int|
            0 <= k < files.len() ==> crate::paths::is_safe_relative(
                normalized_path(#[trigger] files[k]),
            ),
        is_listing(infos, files),
        0 <= i < infos.len(),
        candidate_found == has_file_at(files, candidate_path(infos[i].id@)),
        finds(files, infos[i].id@, candidate_found, r),
    ensures
        r matches Some(ImageMatch::Candidate(path)) && path@ == infos[i].path@,
{
    let found = choose|found: Seq<ImageInfo>| #[trigger]
        describe_all(found, files) && crate::ordering::is_stable_sort(infos, found);
    assert(infos.contains(infos[i]));
    crate::ordering::lemma_stable_sort_keeps_items(infos, found, infos[i]);
    let k = choose|k: int| 0 <= k < found.len() && found[k] == infos[i];
    assert(describes(found[k], files[k]));
    lemma_stable_id_resolves(normalized_path(files[k]));
}

/// A safe listed path is found again under its stable identifier.
pub proof fn lemma_stable_id_resolves(relative_path: Seq<char>)
    requires
        crate::paths::is_safe_relative(relative_path),
    ensures
        candidate_path(image_id_of(relative_path)) == Some(relative_path),
{
    lemma_image_id_round_trip(relative_path);
}

/// A listed file is found under its URL-safe identifier, unless an earlier file
/// answers to it too.
pub proof fn lemma_url_safe_id_resolves(files: Seq<FileNode>, i: int)
    requires
        0 <= i < files.len(),
    ensures
        exists|k: int|
            k <= i && #[trigger] first_answer(files, url_safe(normalized_path(files[i])), k),
    decreases i,
{
    let id = url_safe(normalized_path(files[i]));
    lemma_first_answer(files, id, i);
}

proof fn lemma_first_answer(files: Seq<FileNode>, id: Seq<char>, i: int)
    requires
        0 <= i < files.len(),
        answers_to(files[i], id),
    ensures
        exists|k: int| k <= i && #[trigger] first_answer(files, id, k),
    decreases i,
{
    if exists|k: int| 0 <= k < i && answers_to(#[trigger] files[k], id) {
        let k = choose|k: int| 0 <= k < i && answers_to(#[trigger] files[k], id);
        lemma_first_answer(files, id, k);
    } else {
        assert(first_answer(files, id, i));
    }
}

// ----------------------------------------------------------------------------
// Laws
// ----------------------------------------------------------------------------

/// Of a text that is made URL-safe, the characters that may stand in an identifier are
/// kept where they are, and every other becomes an underscore.
pub proof fn lemma_safe_characters_are_kept(value: Seq<char>, i: int)
    requires
        0 <= i < value.len(),
    ensures
        url_safe_char(value[i]) ==> url_safe(value)[i] == value[i],
        !url_safe_char(value[i]) ==> url_safe(value)[i] == '_',
        (forall|k: int| 0 <= k < value.len() ==> url_safe_char(#[trigger] value[k])) ==> url_safe(
            value,
        ) == value,
{
    if forall|k: int| 0 <= k < value.len() ==> url_safe_char(#[trigger] value[k]) {
        assert(url_safe(value) =~= value);
    }
}

/// A digit is read as the value that it is written for, in either case.
pub proof fn lemma_hex_digits_read_back(c: char)
    ensures
        hex_digit_value(c) matches Some(v) ==> v < 16 && crate::text::hex_char_spec(v as nat)
            == crate::text::ascii_lower(c),
        hex_digit_value(crate::text::ascii_lower(c)) == hex_digit_value(c),
{
}

/// Where a directory is listed in pieces, its files are those of the pieces, in order;
/// a file counts exactly where it is supported, and a subdirectory for what is in it.
pub proof fn lemma_files_of_directories(
    a: Seq<DirNode>,
    b: Seq<DirNode>,
    file: FileNode,
    children: Vec<DirNode>,
)
    ensures
        supported_files(a + b) == supported_files(a) + supported_files(b),
        supported_files(seq![DirNode::File(file)]) == if file.supported {
            seq![file]
        } else {
            Seq::empty()
        },
        supported_files(seq![DirNode::Directory(children)]) == supported_files(children@),
    decreases b.len(),
{
    let one = seq![DirNode::File(file)];
    assert(one.drop_last() =~= Seq::<DirNode>::empty());
    assert(supported_files(Seq::<DirNode>::empty()) =~= Seq::<FileNode>::empty());
    assert(supported_files(one) =~= node_files(one[0]));
    let below = seq![DirNode::Directory(children)];
    assert(below.drop_last() =~= Seq::<DirNode>::empty());
    assert(node_files(below[0]) == supported_files(children@)) by {
        reveal_with_fuel(node_files, 2);
    }
    assert(supported_files(below) =~= node_files(below[0]));
    if b.len() == 0 {
        assert(a + b =~= a);
        assert(supported_files(a) + supported_files(b) =~= supported_files(a));
    } else {
        lemma_files_of_directories(a, b.drop_last(), file, children);
        assert((a + b).drop_last() =~= a + b.drop_last());
        assert(supported_files(a + b) =~= supported_files(a) + supported_files(b));
    }
}

/// The paths that are collected are those of the files, one for one.
pub proof fn lemma_collected_paths(files: Seq<FileNode>, i: int)
    requires
        0 <= i < files.len(),
    ensures
        file_paths(files).len() == files.len(),
        file_paths(files)[i] == files[i].path,
{
}

/// A listing has an entry for each file: under the file's own path with slashes, which
/// its identifier decodes to, with the file's name and its extension in upper case. It
/// has no others.
pub proof fn lemma_listings_are_complete(infos: Seq<ImageInfo>, files: Seq<FileNode>, i: int)
    requires
        is_listing(infos, files),
        0 <= i < files.len(),
    ensures
        infos.len() == files.len(),
        exists|k: int|
            #![trigger infos[k]]
            0 <= k < infos.len() && infos[k].path@ == crate::text::replace_char_spec(
                files[i].relative_path@,
                '\\',
                '/',
            ) && decoded_path(infos[k].id@) == Some(infos[k].path@) && (
            files[i].file_name matches Some(name) ==> infos[k].name@ == name@) && (
            files[i].extension matches Some(ext) ==> infos[k].format@ == crate::text::uppercased(
                ext@,
            )),
{
    let found = choose|found: Seq<ImageInfo>| #[trigger]
        describe_all(found, files) && crate::ordering::is_stable_sort(infos, found);
    assert(describes(found[i], files[i]));
    assert(found.contains(found[i]));
    crate::ordering::lemma_stable_sort_keeps_items(infos, found, found[i]);
    let k = choose|k: int| 0 <= k < infos.len() && infos[k] == found[i];
    lemma_listed_ids_decode(infos[k], files[i]);
    assert(infos[k].path@ == normalized_path(files[i]));
}

/// Listed paths have no backslashes, and otherwise spell what the file system does.
pub proof fn lemma_listed_paths_have_slashes(file: FileNode, i: int)
    requires
        0 <= i < file.relative_path@.len(),
    ensures
        normalized_path(file).len() == file.relative_path@.len(),
        normalized_path(file)[i] != '\\',
        file.relative_path@[i] != '\\' ==> normalized_path(file)[i] == file.relative_path@[i],
        file.relative_path@[i] == '\\' ==> normalized_path(file)[i] == '/',
{
}

/// The format of a file is its extension, whatever the case of its letters.
pub proof fn lemma_formats_are_extensions(ext: String)
    requires
        crate::text::is_ascii_text(ext@),
    ensures
        crate::text::lowercased(display_format(Some(ext))) == crate::text::lowercased(ext@),
        forall|i: int|
            0 <= i < ext@.len() ==> !('a' <= #[trigger] display_format(Some(ext))[i] <= 'z'),
{
    crate::text::lemma_case_is_dropped(ext@);
}

/// What is looked for by a stable identifier stands inside the data directory, at the
/// path that the identifier decodes to; nothing else is looked for.
pub proof fn lemma_candidates_stay_inside(image_id: Seq<char>)
    ensures
        candidate_path(image_id) matches Some(path) ==> crate::paths::is_safe_relative(path)
            && decoded_path(image_id) == Some(path),
        candidate_path(image_id) is None ==> (decoded_path(image_id) matches Some(path)
            ==> !crate::paths::is_safe_relative(path)),
{
}

/// A file that is listed under its URL-safe identifier answers to it, and is listed under
/// its path as it is spelled, with its name and its extension in upper case.
pub proof fn lemma_plainly_listed_files_answer(info: ImageInfo, file: FileNode)
    requires
        describes_plainly(info, file),
    ensures
        answers_to(file, info.id@),
        info.path@ == file.relative_path@,
        file.file_name matches Some(name) ==> info.name@ == name@,
        file.extension matches Some(ext) ==> info.format@ == crate::text::uppercased(ext@),
        forall|i: int|
            0 <= i < info.id@.len() ==> url_safe_char(#[trigger] info.id@[i]),
{
    lemma_url_safe(file.relative_path@);
    assert(!url_safe_char('\\'));
    assert(!url_safe_char('/'));
    assert(url_safe(normalized_path(file)) =~= url_safe(file.relative_path@));
}

/// A stable identifier starts with `id:`, and goes on with two digits for each byte of
/// the path.
pub proof fn lemma_form_of_identifiers(relative_path: Seq<char>)
    ensures
        image_id_of(relative_path).take(3) == "id:"@,
        image_id_of(relative_path).len() == 3 + 2 * encode_utf8(relative_path).len(),
        is_hex_text(image_id_of(relative_path).skip(3)),
        unhex(image_id_of(relative_path).skip(3)) == encode_utf8(relative_path),
{
    reveal_strlit("id:");
    lemma_unhex_of_hex(encode_utf8(relative_path));
    assert(image_id_of(relative_path).take(3) =~= "id:"@);
    assert(image_id_of(relative_path).skip(3) =~= hex_text(encode_utf8(relative_path)));
}

/// A plain listing has one entry for each file, which answers to the entry's identifier
/// and is told by its own path and name.
pub proof fn lemma_plain_listings_are_complete(infos: Seq<ImageInfo>, files: Seq<FileNode>, i: int)
    requires
        describe_all_plainly(infos, files),
        0 <= i < files.len() || 0 <= i < infos.len(),
    ensures
        0 <= i < infos.len() && 0 <= i < files.len(),
        answers_to(files[i], infos[i].id@),
        infos[i].path@ == files[i].relative_path@,
        files[i].file_name matches Some(name) ==> infos[i].name@ == name@,
        files[i].extension matches Some(ext) ==> infos[i].format@ == crate::text::uppercased(ext@),
{
    assert(describes_plainly(infos[i], files[i]));
    lemma_plainly_listed_files_answer(infos[i], files[i]);
}

/// A lookup finds an image wherever one answers to the identifier, and finds nothing
/// else: the candidate where it is there, else a file that answers, and none before it
/// does.
pub proof fn lemma_lookups_are_complete(
    files: Seq<FileNode>,
    image_id: Seq<char>,
    candidate_found: bool,
    r: Option<ImageMatch>,
    k: int,
)
    requires
        finds(files, image_id, candidate_found, r),
        0 <= k < files.len(),
    ensures
        answers_to(files[k], image_id) ==> r is Some,
        r matches Some(ImageMatch::Candidate(_)) ==> candidate_found,
        candidate_found && candidate_path(image_id) is Some ==> r matches Some(
            ImageMatch::Candidate(_),
        ),
        r matches Some(ImageMatch::Listed(path)) ==> exists|i: int|
            0 <= i < files.len() && #[trigger] files[i].path == path && answers_to(
                files[i],
                image_id,
            ) && (answers_to(files[k], image_id) ==> i <= k),
{
    if let Some(ImageMatch::Listed(path)) = r {
        let i = choose|i: int|
            first_answer(files, image_id, i) && #[trigger] files[i].path == path;
        assert(files[i].path == path);
    }
}

} // verus!
