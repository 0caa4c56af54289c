//! How pyramids are cached: the level file format, the status file, and where
//! the files stand.
//!
//! ```text
//! cache_dir/
//! └── {image_hash}/
//!     ├── meta.json
//!     ├── status          "building", "ready", or "failed: error message"
//!     ├── level_0.bin     full resolution
//!     ├── level_1.bin
//!     └── ...
//! ```

use vstd::prelude::*;

use crate::bytes::{push_le, read_le};
use crate::paths::join;
use crate::text::{push_decimal, push_hex_fixed, same_text, starts_with, trim};

verus! {

// ----------------------------------------------------------------------------
// Level files
// ----------------------------------------------------------------------------

/// The layers of a level: each its index and its bytes.
pub open spec fn layer_views(layers: Seq<(u32, Vec<u8>)>) -> Seq<(u32, Seq<u8>)> {
    layers.map_values(|layer: (u32, Vec<u8>)| (layer.0, layer.1@))
}

/// One layer in a level file: `[layer_index:u32][data_len:u64][bytes]`.
pub open spec fn layer_record(layer: (u32, Seq<u8>)) -> Seq<u8> {
    crate::bytes::le_bytes(layer.0 as nat, 4) + crate::bytes::le_bytes(layer.1.len(), 8) + layer.1
}

/// The layers of a level file, one behind the other.
pub open spec fn layer_records(layers: Seq<(u32, Seq<u8>)>) -> Seq<u8>
    decreases layers.len(),
{
    if layers.len() == 0 {
        Seq::empty()
    } else {
        layer_records(layers.drop_last()) + layer_record(layers.last())
    }
}

/// A level file: `[num_layers:u32]` and the layers.
pub open spec fn level_file(layers: Seq<(u32, Seq<u8>)>) -> Seq<u8> {
    crate::bytes::le_bytes(layers.len(), 4) + layer_records(layers)
}

/// Encodes the layers of a level.
pub fn encode_level(layers: &Vec<(u32, Vec<u8>)>) -> (data: Vec<u8>)
    ensures
        data@ == level_file(layer_views(layers@)),
{
    let ghost views = layer_views(layers@);
    let mut data: Vec<u8> = Vec::new();
    push_le(&mut data, layers.len() as u64, 4);
    let mut i: usize = 0;
    assert(views.take(0) =~= Seq::<(u32, Seq<u8>)>::empty());
    assert(data@ =~= crate::bytes::le_bytes(views.len(), 4) + layer_records(views.take(0)));
    while i < layers.len()
        invariant
            i <= layers@.len(),
            views == layer_views(layers@),
            data@ == crate::bytes::le_bytes(views.len(), 4) + layer_records(views.take(i as int)),
        decreases layers@.len() - i,
    {
        let ghost before = data@;
        push_le(&mut data, layers[i].0 as u64, 4);
        push_le(&mut data, layers[i].1.len() as u64, 8);
        data.extend_from_slice(layers[i].1.as_slice());
        assert(data@ =~= before + layer_record(views[i as int]));
        assert(views.take(i + 1).drop_last() =~= views.take(i as int));
        i = i + 1;
        assert(data@ =~= crate::bytes::le_bytes(views.len(), 4) + layer_records(
            views.take(i as int),
        ));
    }
    assert(views.take(i as int) =~= views);
    data
}

/// Why a level file cannot be read.
#[derive(Clone, Copy, Debug, PartialEq, Eq, Structural)]
pub enum LevelFileError {
    /// There is no layer count.
    TooSmall,
    /// A layer's index and length are missing.
    TruncatedFile,
    /// A layer's bytes are missing.
    TruncatedLayer,
}

impl LevelFileError {
    /// What a user is told.
    pub open spec fn text(self) -> Seq<char> {
        match self {
            LevelFileError::TooSmall => "Level file too small"@,
            LevelFileError::TruncatedFile => "Truncated level file"@,
            LevelFileError::TruncatedLayer => "Truncated layer data"@,
        }
    }

    /// What a user is told.
    pub fn message(&self) -> (out: String)
        ensures
            out@ == self.text(),
    {
        match self {
            LevelFileError::TooSmall => "Level file too small".to_owned(),
            LevelFileError::TruncatedFile => "Truncated level file".to_owned(),
            LevelFileError::TruncatedLayer => "Truncated layer data".to_owned(),
        }
    }
}

/// The next `count` layers in `data`.
pub open spec fn parse_layers(data: Seq<u8>, count: nat) -> Result<
    Seq<(u32, Seq<u8>)>,
    LevelFileError,
>
    decreases count,
{
    if count == 0 {
        Ok(Seq::empty())
    } else if data.len() < 12 {
        Err(LevelFileError::TruncatedFile)
    } else {
        let index = crate::bytes::le_value(data.subrange(0, 4)) as u32;
        let len = crate::bytes::le_value(data.subrange(4, 12));
        if data.len() - 12 < len {
            Err(LevelFileError::TruncatedLayer)
        } else {
            match parse_layers(data.skip(12 + len as int), (count - 1) as nat) {
                Ok(rest) => Ok(seq![(index, data.subrange(12, 12 + len as int))] + rest),
                Err(error) => Err(error),
            }
        }
    }
}

/// The layers of a level file. Bytes behind the last layer are ignored.
pub open spec fn parsed_level(data: Seq<u8>) -> Result<Seq<(u32, Seq<u8>)>, LevelFileError> {
    if data.len() < 4 {
        Err(LevelFileError::TooSmall)
    } else {
        parse_layers(data.skip(4), crate::bytes::le_value(data.take(4)))
    }
}

/// Layers that were read already, in front of those still to be read.
pub open spec fn behind(
    done: Seq<(u32, Seq<u8>)>,
    rest: Result<Seq<(u32, Seq<u8>)>, LevelFileError>,
) -> Result<Seq<(u32, Seq<u8>)>, LevelFileError> {
    match rest {
        Ok(layers) => Ok(done + layers),
        Err(error) => Err(error),
    }
}

/// Parses a level file.
pub fn parse_level(data: &Vec<u8>) -> (r: Result<Vec<(u32, Vec<u8>)>, LevelFileError>)
    ensures
        match r {
            Ok(layers) => parsed_level(data@) == Ok::<Seq<(u32, Seq<u8>)>, LevelFileError>(
                layer_views(layers@),
            ),
            Err(error) => parsed_level(data@) == Err::<Seq<(u32, Seq<u8>)>, LevelFileError>(error),
        },
{
    if data.len() < 4 {
        return Err(LevelFileError::TooSmall);
    }
    let bytes = data.as_slice();
    let num_layers: u64 = read_le(bytes, 0, 4);
    assert(data@.subrange(0, 4) =~= data@.take(4));
    let mut layers: Vec<(u32, Vec<u8>)> = Vec::new();
    let mut offset: usize = 4;
    let mut done: u64 = 0;
    proof {
        assert(layer_views(layers@) =~= Seq::<(u32, Seq<u8>)>::empty());
        let rest = parse_layers(data@.skip(4), num_layers as nat);
        if let Ok(all) = rest {
            assert(layer_views(layers@) + all =~= all);
        }
    }
    while done < num_layers
        invariant
            bytes@ == data@,
            4 <= offset <= data@.len() <= usize::MAX,
            done <= num_layers,
            parsed_level(data@) == behind(
                layer_views(layers@),
                parse_layers(data@.skip(offset as int), (num_layers - done) as nat),
            ),
        decreases num_layers - done,
    {
        let ghost here = data@.skip(offset as int);
        if data.len() - offset < 12 {
            return Err(LevelFileError::TruncatedFile);
        }
        let index: u64 = read_le(bytes, offset, 4);
        let len: u64 = read_le(bytes, offset + 4, 8);
        proof {
            assert(here.subrange(0, 4) =~= data@.subrange(offset as int, offset + 4));
            assert(here.subrange(4, 12) =~= data@.subrange(offset + 4, offset + 12));
            crate::bytes::lemma_le_value_bound(here.subrange(0, 4));
            crate::bytes::lemma_byte_ranges();
        }
        let start: usize = offset + 12;
        if len > (data.len() - start) as u64 {
            return Err(LevelFileError::TruncatedLayer);
        }
        let end: usize = start + len as usize;
        let mut layer: Vec<u8> = Vec::new();
        layer.extend_from_slice(&bytes[start..end]);
        let ghost before = layer_views(layers@);
        let ghost first = (index as u32, here.subrange(12, 12 + len as int));
        proof {
            assert(layer@ =~= here.subrange(12, 12 + len as int));
            assert(here.skip(12 + len as int) =~= data@.skip(end as int));
        }
        layers.push((index as u32, layer));
        proof {
            assert(layer_views(layers@) =~= before.push(first));
            let rest = parse_layers(data@.skip(end as int), (num_layers - done - 1) as nat);
            if let Ok(all) = rest {
                assert(before + (seq![first] + all) =~= before.push(first) + all);
            }
        }
        offset = end;
        done = done + 1;
    }
    proof {
        assert(layer_views(layers@) + Seq::<(u32, Seq<u8>)>::empty() =~= layer_views(layers@));
    }
    Ok(layers)
}

proof fn lemma_parse_record(layer: (u32, Seq<u8>), tail: Seq<u8>, count: nat)
    requires
        count > 0,
        layer.1.len() <= u64::MAX,
    ensures
        parse_layers(layer_record(layer) + tail, count) == behind(
            seq![layer],
            parse_layers(tail, (count - 1) as nat),
        ),
{
    let data = layer_record(layer) + tail;
    let len = layer.1.len();
    crate::bytes::lemma_byte_ranges();
    crate::bytes::lemma_le_round_trip(layer.0 as nat, 4);
    crate::bytes::lemma_le_round_trip(len, 8);
    assert(data.subrange(0, 4) =~= crate::bytes::le_bytes(layer.0 as nat, 4));
    assert(data.subrange(4, 12) =~= crate::bytes::le_bytes(len, 8));
    assert(data.subrange(12, 12 + len as int) =~= layer.1);
    assert(data.skip(12 + len as int) =~= tail);
}

proof fn lemma_parse_records(layers: Seq<(u32, Seq<u8>)>, tail: Seq<u8>)
    requires
        forall|i: int| 0 <= i < layers.len() ==> (#[trigger] layers[i]).1.len() <= u64::MAX,
    ensures
        parse_layers(layer_records(layers) + tail, layers.len()) == Ok::<
            Seq<(u32, Seq<u8>)>,
            LevelFileError,
        >(layers),
    decreases layers.len(),
{
    lemma_parse_records_more(layers, tail, 0);
    assert(layers + Seq::<(u32, Seq<u8>)>::empty() =~= layers);
}

proof fn lemma_parse_records_more(layers: Seq<(u32, Seq<u8>)>, tail: Seq<u8>, more: nat)
    requires
        forall|i: int| 0 <= i < layers.len() ==> (#[trigger] layers[i]).1.len() <= u64::MAX,
    ensures
        parse_layers(layer_records(layers) + tail, layers.len() + more) == behind(
            layers,
            parse_layers(tail, more),
        ),
    decreases layers.len(),
{
    if layers.len() == 0 {
        assert(layer_records(layers) + tail =~= tail);
        if let Ok(rest) = parse_layers(tail, more) {
            assert(layers + rest =~= rest);
        }
    } else {
        let front = layers.drop_last();
        let last = layers.last();
        assert(layers[layers.len() - 1].1.len() <= u64::MAX);
        assert forall|i: int| 0 <= i < front.len() implies (#[trigger] front[i]).1.len()
            <= u64::MAX by {
            assert(layers[i].1.len() <= u64::MAX);
        }
        let inner = layer_record(last) + tail;
        lemma_parse_records_more(front, inner, more + 1);
        lemma_parse_record(last, tail, more + 1);
        assert(layer_records(layers) + tail =~= layer_records(front) + inner);
        if let Ok(rest) = parse_layers(tail, more) {
            assert(front + (seq![last] + rest) =~= layers + rest);
        }
    }
}

/// Parsing an encoded level gives its layers back, whatever follows it.
pub proof fn lemma_level_round_trip(layers: Seq<(u32, Seq<u8>)>, tail: Seq<u8>)
    requires
        layers.len() <= u32::MAX,
        forall|i: int| 0 <= i < layers.len() ==> (#[trigger] layers[i]).1.len() <= u64::MAX,
    ensures
        parsed_level(level_file(layers) + tail) == Ok::<Seq<(u32, Seq<u8>)>, LevelFileError>(
            layers,
        ),
{
    let data = level_file(layers) + tail;
    crate::bytes::lemma_byte_ranges();
    crate::bytes::lemma_le_round_trip(layers.len(), 4);
    assert(data.take(4) =~= crate::bytes::le_bytes(layers.len(), 4));
    assert(data.skip(4) =~= layer_records(layers) + tail);
    lemma_parse_records(layers, tail);
}

/// A layer that is cut short cannot be read.
proof fn lemma_cut_record(layer: (u32, Seq<u8>), n: int, count: nat)
    requires
        count > 0,
        layer.1.len() <= u64::MAX,
        0 <= n < layer_record(layer).len(),
    ensures
        parse_layers(layer_record(layer).take(n), count) is Err,
{
    let cut = layer_record(layer).take(n);
    crate::bytes::lemma_byte_ranges();
    crate::bytes::lemma_le_round_trip(layer.0 as nat, 4);
    crate::bytes::lemma_le_round_trip(layer.1.len(), 8);
    if n >= 12 {
        assert(cut.subrange(4, 12) =~= crate::bytes::le_bytes(layer.1.len(), 8));
    }
}

/// Layers that are cut short cannot be read.
proof fn lemma_cut_records(layers: Seq<(u32, Seq<u8>)>, n: int, more: nat)
    requires
        forall|i: int| 0 <= i < layers.len() ==> (#[trigger] layers[i]).1.len() <= u64::MAX,
        0 <= n < layer_records(layers).len(),
    ensures
        parse_layers(layer_records(layers).take(n), layers.len() + more) is Err,
    decreases layers.len(),
{
    let front = layers.drop_last();
    let last = layers.last();
    assert(layers[layers.len() - 1].1.len() <= u64::MAX);
    assert forall|i: int| 0 <= i < front.len() implies (#[trigger] front[i]).1.len()
        <= u64::MAX by {
        assert(layers[i].1.len() <= u64::MAX);
    }
    let cut = layer_records(layers).take(n);
    let whole = layer_records(front).len();
    if n < whole {
        assert(cut =~= layer_records(front).take(n));
        lemma_cut_records(front, n, more + 1);
    } else {
        let rest = layer_record(last).take(n - whole);
        assert(cut =~= layer_records(front) + rest);
        lemma_parse_records_more(front, rest, more + 1);
        lemma_cut_record(last, n - whole, more + 1);
    }
}

/// An encoded level that is cut short by one or more bytes is refused.
pub proof fn lemma_cut_level_is_refused(layers: Seq<(u32, Seq<u8>)>, n: int)
    requires
        layers.len() <= u32::MAX,
        forall|i: int| 0 <= i < layers.len() ==> (#[trigger] layers[i]).1.len() <= u64::MAX,
        0 <= n < level_file(layers).len(),
    ensures
        parsed_level(level_file(layers).take(n)) is Err,
{
    let cut = level_file(layers).take(n);
    crate::bytes::lemma_byte_ranges();
    crate::bytes::lemma_le_round_trip(layers.len(), 4);
    if n >= 4 {
        assert(cut.take(4) =~= crate::bytes::le_bytes(layers.len(), 4));
        assert(cut.skip(4) =~= layer_records(layers).take(n - 4));
        lemma_cut_records(layers, n - 4, 0);
    }
}

// ----------------------------------------------------------------------------
// Status files
// ----------------------------------------------------------------------------

/// Status of pyramid generation.
#[derive(Clone, Copy, Debug, PartialEq, Eq, Structural)]
pub enum PyramidStatus {
    /// Pyramid doesn't exist yet.
    Pending,
    /// Pyramid is being generated.
    Building,
    /// Pyramid is ready for use.
    Ready,
    /// Pyramid generation failed.
    Failed,
}

/// The status that the contents of a status file stand for; `None` where the
/// file is missing or cannot be read.
pub open spec fn status_of(content: Option<Seq<char>>) -> PyramidStatus {
    match content {
        None => PyramidStatus::Pending,
        Some(raw) => {
            let text = crate::text::trim_spec(raw);
            if text == "ready"@ {
                PyramidStatus::Ready
            } else if text == "building"@ {
                PyramidStatus::Building
            } else if crate::text::starts_with_spec(text, "failed:"@) {
                PyramidStatus::Failed
            } else {
                PyramidStatus::Pending
            }
        },
    }
}

/// Reads the contents of a status file.
pub fn get_status(content: &Option<String>) -> (status: PyramidStatus)
    ensures
        status == status_of(
            match *content {
                Some(text) => Some(text@),
                None => None,
            },
        ),
{
    match content {
        None => PyramidStatus::Pending,
        Some(raw) => {
            let text = trim(raw.as_str());
            if same_text(text.as_str(), "ready") {
                PyramidStatus::Ready
            } else if same_text(text.as_str(), "building") {
                PyramidStatus::Building
            } else if starts_with(text.as_str(), "failed:") {
                PyramidStatus::Failed
            } else {
                PyramidStatus::Pending
            }
        },
    }
}

/// Whether a pyramid can be streamed from its cache.
pub fn has_pyramid(content: &Option<String>) -> (r: bool)
    ensures
        r == (status_of(
            match *content {
                Some(text) => Some(text@),
                None => None,
            },
        ) == PyramidStatus::Ready),
{
    match get_status(content) {
        PyramidStatus::Ready => true,
        _ => false,
    }
}

/// What is written while a pyramid is being generated.
pub open spec fn building_text() -> Seq<char> {
    "building"@
}

/// What is written when a pyramid is ready.
pub open spec fn ready_text() -> Seq<char> {
    "ready"@
}

/// What is written when the generation of a pyramid failed.
pub open spec fn failed_text(error: Seq<char>) -> Seq<char> {
    "failed: "@ + error
}

/// What is written while a pyramid is being generated.
pub fn building_mark() -> (out: String)
    ensures
        out@ == building_text(),
{
    "building".to_owned()
}

/// What is written when a pyramid is ready.
pub fn ready_mark() -> (out: String)
    ensures
        out@ == ready_text(),
{
    "ready".to_owned()
}

/// What is written when the generation of a pyramid failed.
pub fn failed_mark(error: &str) -> (out: String)
    ensures
        out@ == failed_text(error@),
{
    let mut out = "failed: ".to_owned();
    out.append(error);
    out
}

/// Every status that is written is read back.
pub proof fn lemma_status_round_trip(error: Seq<char>)
    ensures
        status_of(Some("building"@)) == PyramidStatus::Building,
        status_of(Some("ready"@)) == PyramidStatus::Ready,
        status_of(Some("failed: "@ + error)) == PyramidStatus::Failed,
        status_of(Some(building_text())) == PyramidStatus::Building,
        status_of(Some(ready_text())) == PyramidStatus::Ready,
        status_of(Some(failed_text(error))) == PyramidStatus::Failed,
        failed_text(error).skip(8) == error,
{
    reveal_strlit("building");
    reveal_strlit("ready");
    reveal_strlit("failed: ");
    reveal_strlit("failed:");
    crate::text::lemma_trim_fixed("building"@);
    crate::text::lemma_trim_fixed("ready"@);
    assert("building"@.len() != "ready"@.len());
    let raw = "failed: "@ + error;
    let text = crate::text::trim_spec(raw);
    lemma_trim_keeps_head(raw, 7);
    assert(text.take(7) =~= "failed:"@);
    assert("failed:"@[0] == 'f');
    assert("ready"@[0] == 'r');
    assert("building"@[0] == 'b');
    assert(text[0] == text.take(7)[0]);
    assert(failed_text(error).skip(8) =~= error);
}

/// Trimming keeps what stands at the front, up to a character that is not
/// whitespace.
proof fn lemma_trim_keeps_head(s: Seq<char>, n: int)
    requires
        0 < n <= s.len(),
        !crate::text::whitespace(s[0]),
        !crate::text::whitespace(s[n - 1]),
    ensures
        crate::text::trim_spec(s).len() >= n,
        crate::text::trim_spec(s).take(n) == s.take(n),
{
    assert(crate::text::trim_start_spec(s) == s);
    lemma_trim_end_keeps_head(s, n);
}

proof fn lemma_trim_end_keeps_head(s: Seq<char>, n: int)
    requires
        0 < n <= s.len(),
        !crate::text::whitespace(s[n - 1]),
    ensures
        crate::text::trim_end_spec(s).len() >= n,
        crate::text::trim_end_spec(s).take(n) == s.take(n),
    decreases s.len(),
{
    if crate::text::whitespace(s.last()) {
        assert(n < s.len());
        lemma_trim_end_keeps_head(s.drop_last(), n);
        assert(s.drop_last().take(n) =~= s.take(n));
    }
}

// ----------------------------------------------------------------------------
// Files
// ----------------------------------------------------------------------------

/// Filesystem-based pyramid storage.
pub struct FilesystemStorage {
    pub cache_dir: String,
}

impl FilesystemStorage {
    /// Create a new filesystem storage.
    pub fn new(cache_dir: String) -> (storage: Self)
        ensures
            storage.cache_dir == cache_dir,
    {
        FilesystemStorage { cache_dir }
    }

    /// The directory of a pyramid.
    pub open spec fn dir(&self, image_hash: Seq<char>) -> Seq<char> {
        crate::paths::join_spec(self.cache_dir@, image_hash)
    }

    /// The metadata file of a pyramid.
    pub open spec fn metadata_file(&self, image_hash: Seq<char>) -> Seq<char> {
        crate::paths::join_spec(self.dir(image_hash), "meta.json"@)
    }

    /// The status file of a pyramid.
    pub open spec fn status_file(&self, image_hash: Seq<char>) -> Seq<char> {
        crate::paths::join_spec(self.dir(image_hash), "status"@)
    }

    /// The progress file of a pyramid.
    pub open spec fn progress_file(&self, image_hash: Seq<char>) -> Seq<char> {
        crate::paths::join_spec(self.dir(image_hash), "progress.json"@)
    }

    /// The file of one level of a pyramid.
    pub open spec fn level_file_path(&self, image_hash: Seq<char>, level: u32) -> Seq<char> {
        crate::paths::join_spec(self.dir(image_hash), level_name(level))
    }

    /// The directory of a pyramid.
    pub fn pyramid_dir(&self, image_hash: &str) -> (path: String)
        ensures
            path@ == self.dir(image_hash@),
    {
        join(self.cache_dir.as_str(), image_hash)
    }

    /// The metadata file of a pyramid.
    pub fn metadata_path(&self, image_hash: &str) -> (path: String)
        ensures
            path@ == self.metadata_file(image_hash@),
    {
        join(self.pyramid_dir(image_hash).as_str(), "meta.json")
    }

    /// The status file of a pyramid.
    pub fn status_path(&self, image_hash: &str) -> (path: String)
        ensures
            path@ == self.status_file(image_hash@),
    {
        join(self.pyramid_dir(image_hash).as_str(), "status")
    }

    /// The progress file of a pyramid.
    pub fn progress_path(&self, image_hash: &str) -> (path: String)
        ensures
            path@ == self.progress_file(image_hash@),
    {
        join(self.pyramid_dir(image_hash).as_str(), "progress.json")
    }

    /// The file of one level of a pyramid.
    pub fn level_path(&self, image_hash: &str, level: u32) -> (path: String)
        ensures
            path@ == self.level_file_path(image_hash@, level),
    {
        let mut name = "level_".to_owned();
        push_decimal(&mut name, level as u64);
        name.append(".bin");
        join(self.pyramid_dir(image_hash).as_str(), name.as_str())
    }
}

/// The cache key of an image: the sixteen hexadecimal digits of a digest.
pub fn image_hash_text(digest: u64) -> (out: String)
    ensures
        out@ == cache_key(digest),
{
    let mut out = String::new();
    push_hex_fixed(&mut out, digest, 16);
    assert(out@ =~= crate::text::hex_fixed(digest as nat, 16));
    out
}

// ----------------------------------------------------------------------------
// Laws of status and files
// ----------------------------------------------------------------------------

/// A pyramid counts as ready, being built or failed only where its status file says so;
/// without one it is pending.
pub proof fn lemma_status_is_what_the_file_says(content: Seq<char>)
    ensures
        status_of(None) == PyramidStatus::Pending,
        status_of(Some(content)) == PyramidStatus::Ready <==> crate::text::trim_spec(content)
            == "ready"@,
        status_of(Some(content)) == PyramidStatus::Building <==> crate::text::trim_spec(content)
            == "building"@,
        status_of(Some(content)) == PyramidStatus::Failed <==> crate::text::starts_with_spec(
            crate::text::trim_spec(content),
            "failed:"@,
        ),
{
    reveal_strlit("building");
    reveal_strlit("ready");
    reveal_strlit("failed:");
    let text = crate::text::trim_spec(content);
    assert("ready"@[0] == 'r');
    assert("building"@[0] == 'b');
    assert("failed:"@[0] == 'f');
    if crate::text::starts_with_spec(text, "failed:"@) {
        assert(text[0] == text.take("failed:"@.len() as int)[0]);
    }
}

/// The name of a level's file.
pub open spec fn level_name(level: u32) -> Seq<char> {
    "level_"@ + crate::text::decimal(level as nat) + ".bin"@
}

/// Different levels of a pyramid have different files, none of which is the file of its
/// metadata, its status or its progress, which differ too.
pub proof fn lemma_files_of_a_pyramid_differ(
    storage: FilesystemStorage,
    image_hash: Seq<char>,
    a: u32,
    b: u32,
)
    ensures
        a != b ==> storage.level_file_path(image_hash, a) != storage.level_file_path(image_hash, b),
        storage.level_file_path(image_hash, a) != storage.metadata_file(image_hash),
        storage.level_file_path(image_hash, a) != storage.status_file(image_hash),
        storage.level_file_path(image_hash, a) != storage.progress_file(image_hash),
        storage.metadata_file(image_hash) != storage.status_file(image_hash),
        storage.metadata_file(image_hash) != storage.progress_file(image_hash),
        storage.status_file(image_hash) != storage.progress_file(image_hash),
{
    let dir = storage.dir(image_hash);
    reveal_strlit("level_");
    reveal_strlit(".bin");
    reveal_strlit("meta.json");
    reveal_strlit("status");
    reveal_strlit("progress.json");
    let na = level_name(a);
    let nb = level_name(b);
    assert(na[0] == 'l');
    assert(nb[0] == 'l');
    crate::paths::lemma_joined_name_is_kept(dir, na, nb);
    crate::paths::lemma_joined_name_is_kept(dir, na, "meta.json"@);
    crate::paths::lemma_joined_name_is_kept(dir, na, "status"@);
    crate::paths::lemma_joined_name_is_kept(dir, na, "progress.json"@);
    crate::paths::lemma_joined_name_is_kept(dir, "meta.json"@, "status"@);
    crate::paths::lemma_joined_name_is_kept(dir, "meta.json"@, "progress.json"@);
    crate::paths::lemma_joined_name_is_kept(dir, "status"@, "progress.json"@);
    if na == nb {
        let da = crate::text::decimal(a as nat);
        let db = crate::text::decimal(b as nat);
        assert(na.len() == 10 + da.len());
        assert(nb.len() == 10 + db.len());
        assert(da =~= na.subrange(6, 6 + da.len() as int));
        assert(db =~= nb.subrange(6, 6 + db.len() as int));
        crate::text::lemma_decimal_injective(a as nat, b as nat);
    }
}

/// The cache key of an image.
pub open spec fn cache_key(digest: u64) -> Seq<char> {
    crate::text::hex_fixed(digest as nat, 16)
}

/// Images with different digests have different cache keys, of sixteen characters, and
/// so different directories, all of them below that of the cache.
pub proof fn lemma_pyramids_have_directories_of_their_own(
    storage: FilesystemStorage,
    a: u64,
    b: u64,
)
    requires
        a != b,
    ensures
        cache_key(a).len() == 16,
        cache_key(a) != cache_key(b),
        storage.dir(cache_key(a)) != storage.dir(cache_key(b)),
        storage.dir(cache_key(a)).take(storage.cache_dir@.len() as int) == storage.cache_dir@,
{
    let cache_dir = storage.cache_dir@;
    let ka = cache_key(a);
    let kb = cache_key(b);
    crate::text::lemma_hex_range_of_u64();
    crate::text::lemma_hex_fixed_digits(a as nat, 16);
    crate::text::lemma_hex_fixed_digits(b as nat, 16);
    if ka == kb {
        crate::text::lemma_hex_fixed_injective(a as nat, b as nat, 16);
    }
    assert(crate::text::is_digit(ka[0]) || 'a' <= ka[0] <= 'f');
    assert(crate::text::is_digit(kb[0]) || 'a' <= kb[0] <= 'f');
    crate::paths::lemma_joined_name_is_kept(cache_dir, ka, kb);
}

/// A level file counts its layers first. Each layer is told with its index, its length
/// and its bytes.
pub proof fn lemma_level_files_read_back(layers: Seq<(u32, Seq<u8>)>, layer: (u32, Seq<u8>))
    requires
        layers.len() <= u32::MAX,
        layer.1.len() <= u64::MAX,
    ensures
        crate::bytes::le_value(level_file(layers).take(4)) == layers.len(),
        level_file(layers).skip(4) == layer_records(layers),
        layer_records(layers.push(layer)) == layer_records(layers) + layer_record(layer),
        layer_record(layer).len() == 12 + layer.1.len(),
        crate::bytes::le_value(layer_record(layer).subrange(0, 4)) == layer.0,
        crate::bytes::le_value(layer_record(layer).subrange(4, 12)) == layer.1.len(),
        layer_record(layer).skip(12) == layer.1,
{
    crate::bytes::lemma_byte_ranges();
    crate::bytes::lemma_le_round_trip(layers.len(), 4);
    crate::bytes::lemma_le_round_trip(layer.0 as nat, 4);
    crate::bytes::lemma_le_round_trip(layer.1.len(), 8);
    let record = layer_record(layer);
    assert(level_file(layers).take(4) =~= crate::bytes::le_bytes(layers.len(), 4));
    assert(level_file(layers).skip(4) =~= layer_records(layers));
    assert(layers.push(layer).drop_last() =~= layers);
    assert(record.subrange(0, 4) =~= crate::bytes::le_bytes(layer.0 as nat, 4));
    assert(record.subrange(4, 12) =~= crate::bytes::le_bytes(layer.1.len(), 8));
    assert(record.skip(12) =~= layer.1);
}

/// A file without a count is told apart from one that ends inside a layer's head, and
/// that from one that ends inside its bytes.
pub proof fn lemma_level_file_errors(data: Seq<u8>, count: nat)
    requires
        count > 0,
    ensures
        parsed_level(data) == Err::<Seq<(u32, Seq<u8>)>, LevelFileError>(LevelFileError::TooSmall)
            <== data.len() < 4,
        parse_layers(data, count) == Err::<Seq<(u32, Seq<u8>)>, LevelFileError>(
            LevelFileError::TruncatedFile,
        ) <== data.len() < 12,
        parse_layers(data, count) == Err::<Seq<(u32, Seq<u8>)>, LevelFileError>(
            LevelFileError::TruncatedLayer,
        ) <== data.len() >= 12 && crate::bytes::le_value(data.subrange(4, 12)) > data.len() - 12,
        LevelFileError::TooSmall.text() != LevelFileError::TruncatedFile.text(),
        LevelFileError::TooSmall.text() != LevelFileError::TruncatedLayer.text(),
        LevelFileError::TruncatedFile.text() != LevelFileError::TruncatedLayer.text(),
{
    reveal_strlit("Level file too small");
    reveal_strlit("Truncated level file");
    reveal_strlit("Truncated layer data");
    assert("Level file too small"@[0] == 'L');
    assert("Truncated level file"@[0] == 'T');
    assert("Truncated layer data"@[0] == 'T');
    assert("Truncated level file"@[12] == 'v');
    assert("Truncated layer data"@[12] == 'y');
}

} // verus!
