//! Image loaders: which files they read, and what they make of what they read.

use vstd::prelude::*;

use crate::error::Error;
use crate::npy::NpyHeader;
use crate::paths::{extension, file_name};
use crate::streaming::num_layers;
use crate::text::{push_decimal, same_text};

verus! {

/// Metadata about a loaded image.
#[derive(Debug)]
pub struct ImageMetadata {
    /// Image width in pixels.
    pub width: u32,
    /// Image height in pixels.
    pub height: u32,
    /// Number of spectral bands.
    pub num_bands: usize,
    /// Original filename.
    pub filename: String,
    /// File format (e.g., "PNG", "NPY").
    pub format: String,
}

/// Band data loaded from an image file. `S` is the type of samples.
#[derive(Debug)]
pub struct BandData<S> {
    pub width: u32,
    pub height: u32,
    /// The samples of each band in row-major order.
    pub bands: Vec<Vec<S>>,
}

impl<S> BandData<S> {
    /// Get the number of bands.
    pub fn num_bands(&self) -> (count: usize)
        ensures
            count == self.bands@.len(),
    {
        self.bands.len()
    }

    /// Calculate the number of RGBA texture layers needed (4 bands per layer).
    pub fn num_layers(&self) -> (layers: u32)
        ensures
            layers == crate::streaming::layer_count(self.bands@.len()) as u32,
    {
        num_layers(self.bands.len())
    }
}

// ----------------------------------------------------------------------------
// Which files are read
// ----------------------------------------------------------------------------

/// A loader of image files, as far as it says which files it reads.
pub trait ImageLoader {
    /// Whether the loader reads files of this extension.
    spec fn reads(&self, extension: Seq<char>) -> bool;

    /// Whether the loader reads the file at a path, by its extension.
    fn supports(&self, path: &str) -> (r: bool)
        ensures
            r == match crate::paths::extension_spec(path@) {
                Some(ext) => self.reads(ext),
                None => false,
            },
    ;
}

/// Whether a loader reads the file at a path.
pub open spec fn reads_path<L: ImageLoader>(loader: L, path: Seq<char>) -> bool {
    match crate::paths::extension_spec(path) {
        Some(ext) => loader.reads(ext),
        None => false,
    }
}

/// Loader for standard image formats (PNG, JPEG, TIFF, etc.).
#[derive(Debug)]
pub struct StandardImageLoader;

/// Loader for NumPy .npy files containing hyperspectral data.
#[derive(Debug)]
pub struct NpyLoader;

/// Whether a lower-case extension is that of a standard image format.
pub open spec fn is_standard_extension(lower: Seq<char>) -> bool {
    ||| lower == "png"@
    ||| lower == "jpg"@
    ||| lower == "jpeg"@
    ||| lower == "gif"@
    ||| lower == "webp"@
    ||| lower == "bmp"@
    ||| lower == "tiff"@
    ||| lower == "tif"@
}

impl StandardImageLoader {
    /// A loader of standard image formats.
    pub fn new() -> (loader: Self)
        ensures
            loader == StandardImageLoader,
    {
        StandardImageLoader
    }

    /// Whether an extension, in any case of letters, is that of a standard image
    /// format.
    pub fn is_supported_extension(ext: &str) -> (r: bool)
        ensures
            r == is_standard_extension(crate::text::lowercased(ext@)),
    {
        let lower = ext.to_lowercase();
        let lower = lower.as_str();
        same_text(lower, "png") || same_text(lower, "jpg") || same_text(lower, "jpeg") || same_text(
            lower,
            "gif",
        ) || same_text(lower, "webp") || same_text(lower, "bmp") || same_text(lower, "tiff")
            || same_text(lower, "tif")
    }
}

impl ImageLoader for StandardImageLoader {
    open spec fn reads(&self, extension: Seq<char>) -> bool {
        is_standard_extension(crate::text::lowercased(extension))
    }

    fn supports(&self, path: &str) -> (r: bool) {
        match extension(path) {
            Some(ext) => StandardImageLoader::is_supported_extension(ext.as_str()),
            None => false,
        }
    }
}

impl NpyLoader {
    /// A loader of NumPy files.
    pub fn new() -> (loader: Self)
        ensures
            loader == NpyLoader,
    {
        NpyLoader
    }
}

impl Default for NpyLoader {
    fn default() -> (loader: Self)
        ensures
            loader == NpyLoader,
    {
        NpyLoader::new()
    }
}

impl ImageLoader for NpyLoader {
    open spec fn reads(&self, extension: Seq<char>) -> bool {
        crate::text::lowercased(extension) == "npy"@
    }

    fn supports(&self, path: &str) -> (r: bool) {
        match extension(path) {
            Some(ext) => same_text(ext.to_lowercase().as_str(), "npy"),
            None => false,
        }
    }
}

/// A loader that the server brings along.
#[derive(Debug)]
pub enum DefaultLoader {
    Standard(StandardImageLoader),
    Npy(NpyLoader),
}

impl ImageLoader for DefaultLoader {
    open spec fn reads(&self, extension: Seq<char>) -> bool {
        match self {
            DefaultLoader::Standard(loader) => loader.reads(extension),
            DefaultLoader::Npy(loader) => loader.reads(extension),
        }
    }

    fn supports(&self, path: &str) -> (r: bool) {
        match self {
            DefaultLoader::Standard(loader) => loader.supports(path),
            DefaultLoader::Npy(loader) => loader.supports(path),
        }
    }
}

/// Registry of available image loaders.
#[derive(Debug)]
pub struct ImageLoaderRegistry<L> {
    pub loaders: Vec<L>,
}

/// Whether the loader at a position is the first that reads the file at a path.
pub open spec fn first_reader<L: ImageLoader>(loaders: Seq<L>, path: Seq<char>, i: int) -> bool {
    &&& 0 <= i < loaders.len()
    &&& reads_path(loaders[i], path)
    &&& forall|k: int| 0 <= k < i ==> !reads_path(#[trigger] loaders[k], path)
}

/// Whether some loader reads the file at a path.
pub open spec fn some_reader<L: ImageLoader>(loaders: Seq<L>, path: Seq<char>) -> bool {
    exists|i: int| 0 <= i < loaders.len() && reads_path(#[trigger] loaders[i], path)
}

impl<L: ImageLoader> ImageLoaderRegistry<L> {
    /// Create a new empty registry.
    pub fn new() -> (registry: Self)
        ensures
            registry.loaders@.len() == 0,
    {
        ImageLoaderRegistry { loaders: Vec::new() }
    }

    /// Register a new loader.
    pub fn register(&mut self, loader: L)
        ensures
            final(self).loaders@ == old(self).loaders@.push(loader),
    {
        self.loaders.push(loader);
    }

    /// Find a loader that supports the given path: the first one registered that
    /// does.
    pub fn find_loader(&self, path: &str) -> (r: Option<usize>)
        ensures
            match r {
                Some(i) => first_reader(self.loaders@, path@, i as int),
                None => !some_reader(self.loaders@, path@),
            },
    {
        let mut i: usize = 0;
        while i < self.loaders.len()
            invariant
                i <= self.loaders@.len(),
                forall|k: int| 0 <= k < i ==> !reads_path(#[trigger] self.loaders@[k], path@),
            decreases self.loaders@.len() - i,
        {
            if self.loaders[i].supports(path) {
                return Some(i);
            }
            i = i + 1;
        }
        None
    }

    /// Get all registered loaders.
    pub fn loaders(&self) -> (r: &Vec<L>)
        ensures
            *r == self.loaders,
    {
        &self.loaders
    }

    /// Check if any loader supports the given path.
    pub fn supports(&self, path: &str) -> (r: bool)
        ensures
            r == some_reader(self.loaders@, path@),
    {
        match self.find_loader(path) {
            Some(_i) => {
                assert(reads_path(self.loaders@[_i as int], path@));
                true
            },
            None => false,
        }
    }
}

impl ImageLoaderRegistry<DefaultLoader> {
    /// Create a registry pre-loaded with the standard and NPY loaders.
    pub fn with_defaults() -> (registry: Self)
        ensures
            registry.loaders@ == seq![
                DefaultLoader::Standard(StandardImageLoader),
                DefaultLoader::Npy(NpyLoader),
            ],
    {
        let mut registry = ImageLoaderRegistry::new();
        registry.register(DefaultLoader::Standard(StandardImageLoader::new()));
        registry.register(DefaultLoader::Npy(NpyLoader::new()));
        assert(registry.loaders@ =~= seq![
            DefaultLoader::Standard(StandardImageLoader),
            DefaultLoader::Npy(NpyLoader),
        ]);
        registry
    }
}

/// A file is supported exactly where a loader for it is found, and registering
/// further loaders takes no file away and changes no choice.
pub proof fn lemma_registry_grows<L: ImageLoader>(
    loaders: Seq<L>,
    more: L,
    path: Seq<char>,
)
    ensures
        some_reader(loaders, path) ==> some_reader(loaders.push(more), path),
        forall|i: int|
            first_reader(loaders, path, i) ==> first_reader(loaders.push(more), path, i),
        reads_path(more, path) ==> some_reader(loaders.push(more), path),
{
    let grown = loaders.push(more);
    if some_reader(loaders, path) {
        let i = choose|i: int| 0 <= i < loaders.len() && reads_path(#[trigger] loaders[i], path);
        assert(reads_path(grown[i], path));
    }
    if reads_path(more, path) {
        assert(reads_path(grown[loaders.len() as int], path));
    }
}

// ----------------------------------------------------------------------------
// What is made of a file
// ----------------------------------------------------------------------------

/// The name of the file at a path.
pub open spec fn metadata_name(path: Seq<char>) -> Seq<char> {
    match crate::paths::file_name_spec(path) {
        Some(name) => name,
        None => "unknown"@,
    }
}

fn name_of(path: &str) -> (out: String)
    ensures
        out@ == metadata_name(path@),
{
    match file_name(path) {
        Some(name) => name,
        None => "unknown".to_owned(),
    }
}

/// How an image file stores its colours.
#[derive(Clone, Copy, Debug, PartialEq, Eq, Structural)]
pub enum ColorKind {
    L8,
    L16,
    La8,
    La16,
    Colors,
}

/// How many bands a standard image has: grey ones have one, all others three.
pub open spec fn color_bands(color: ColorKind) -> nat {
    if color == ColorKind::Colors {
        3
    } else {
        1
    }
}

/// Every standard image has as many bands as can be shown: one as grey or three as
/// colours, and it is grey exactly where it has no colours.
pub proof fn lemma_bands_of_standard_images(color: ColorKind)
    ensures
        color_bands(color) == 1 || color_bands(color) == 3,
        color_bands(color) == 1 <==> (color == ColorKind::L8 || color == ColorKind::L16 || color
            == ColorKind::La8 || color == ColorKind::La16),
{
}

/// The metadata of a standard image: grey ones have one band, all others three.
pub fn standard_metadata(width: u32, height: u32, color: ColorKind, path: &str) -> (meta:
    ImageMetadata)
    ensures
        meta.width == width,
        meta.height == height,
        meta.num_bands == color_bands(color),
        meta.filename@ == metadata_name(path@),
        meta.format@ == crate::text::uppercased(
            match crate::paths::extension_spec(path@) {
                Some(ext) => ext,
                None => "unknown"@,
            },
        ),
{
    let num_bands: usize = match color {
        ColorKind::L8 | ColorKind::L16 => 1,
        ColorKind::La8 | ColorKind::La16 => 1,
        ColorKind::Colors => 3,
    };
    let ext = match extension(path) {
        Some(ext) => ext,
        None => "unknown".to_owned(),
    };
    ImageMetadata {
        width,
        height,
        num_bands,
        filename: name_of(path),
        format: ext.to_uppercase(),
    }
}

/// Every fourth byte, from one of the first four on: a channel of RGBA pixels.
pub open spec fn channel(pixels: Seq<u8>, from: int) -> Seq<u8> {
    Seq::new((pixels.len() / 4) as nat, |i: int| pixels[4 * i + from])
}

/// The red, green and blue samples of RGBA pixels.
pub fn split_rgba(pixels: &Vec<u8>) -> (r: (Vec<u8>, Vec<u8>, Vec<u8>))
    requires
        pixels@.len() % 4 == 0,
    ensures
        r.0@ == channel(pixels@, 0),
        r.1@ == channel(pixels@, 1),
        r.2@ == channel(pixels@, 2),
{
    let mut red: Vec<u8> = Vec::new();
    let mut green: Vec<u8> = Vec::new();
    let mut blue: Vec<u8> = Vec::new();
    let count: usize = pixels.len() / 4;
    let mut i: usize = 0;
    while i < count
        invariant
            i <= count,
            4 * count == pixels@.len() <= usize::MAX,
            red@ == channel(pixels@, 0).take(i as int),
            green@ == channel(pixels@, 1).take(i as int),
            blue@ == channel(pixels@, 2).take(i as int),
        decreases count - i,
    {
        red.push(pixels[4 * i]);
        green.push(pixels[4 * i + 1]);
        blue.push(pixels[4 * i + 2]);
        i = i + 1;
        assert(channel(pixels@, 0).take(i as int) =~= channel(pixels@, 0).take(i - 1).push(
            channel(pixels@, 0)[i - 1],
        ));
        assert(channel(pixels@, 1).take(i as int) =~= channel(pixels@, 1).take(i - 1).push(
            channel(pixels@, 1)[i - 1],
        ));
        assert(channel(pixels@, 2).take(i as int) =~= channel(pixels@, 2).take(i - 1).push(
            channel(pixels@, 2)[i - 1],
        ));
    }
    assert(channel(pixels@, 0).take(count as int) =~= channel(pixels@, 0));
    assert(channel(pixels@, 1).take(count as int) =~= channel(pixels@, 1));
    assert(channel(pixels@, 2).take(count as int) =~= channel(pixels@, 2));
    (red, green, blue)
}

/// What is said of an array that has not three dimensions.
pub open spec fn shape_message(dimensions: nat) -> Seq<char> {
    "Expected 3D array (B, H, W), got "@ + crate::text::decimal(dimensions) + "D"@
}

/// The dimensions of an array as bands, height and width, unless it has another
/// number of dimensions.
pub fn check_shape(shape: &Vec<usize>) -> (r: Result<(usize, usize, usize), Error>)
    ensures
        match r {
            Ok((bands, height, width)) => shape@ == seq![bands, height, width],
            Err(error) => {
                &&& shape@.len() != 3
                &&& error matches Error::InvalidImageData(text) && text@ == shape_message(
                    shape@.len(),
                )
            },
        },
{
    if shape.len() != 3 {
        let mut message = "Expected 3D array (B, H, W), got ".to_owned();
        push_decimal(&mut message, shape.len() as u64);
        message.append("D");
        return Err(Error::InvalidImageData(message));
    }
    assert(shape@ =~= seq![shape@[0], shape@[1], shape@[2]]);
    Ok((shape[0], shape[1], shape[2]))
}

/// The bands, the height and the width of an array of three dimensions, as far as its
/// dimensions can be counted.
pub open spec fn array_size(shape: Seq<usize>) -> (usize, u32, u32) {
    (shape[0], shape[1] as u32, shape[2] as u32)
}

/// The first dimension counts the bands, the second the rows, the third the samples of
/// a row.
pub proof fn lemma_order_of_dimensions(bands: usize, height: u32, width: u32)
    requires
        height <= usize::MAX,
        width <= usize::MAX,
    ensures
        array_size(seq![bands, height as usize, width as usize]) == (bands, height, width),
{
}

/// The metadata of a NumPy file. Width and height are kept as far as 32 bits hold
/// them.
pub fn npy_metadata(header: &NpyHeader, path: &str) -> (r: Result<ImageMetadata, Error>)
    ensures
        match r {
            Ok(meta) => {
                &&& header.shape@.len() == 3
                &&& (meta.num_bands, meta.height, meta.width) == array_size(header.shape@)
                &&& meta.filename@ == metadata_name(path@)
                &&& meta.format@ == "NPY"@
            },
            Err(error) => {
                &&& header.shape@.len() != 3
                &&& error matches Error::InvalidImageData(text) && text@ == shape_message(
                    header.shape@.len(),
                )
            },
        },
{
    match check_shape(&header.shape) {
        Err(error) => Err(error),
        Ok((num_bands, height, width)) => Ok(
            ImageMetadata {
                width: width as u32,
                height: height as u32,
                num_bands,
                filename: name_of(path),
                format: "NPY".to_owned(),
            },
        ),
    }
}

/// The band data of a NumPy file with these samples.
pub fn npy_band_data<S>(header: &NpyHeader, bands: Vec<Vec<S>>) -> (r: Result<BandData<S>, Error>)
    ensures
        match r {
            Ok(data) => {
                &&& header.shape@.len() == 3
                &&& bands@.len() > 0
                &&& (data.height, data.width) == (
                    array_size(header.shape@).1,
                    array_size(header.shape@).2,
                )
                &&& data.bands == bands
            },
            Err(error) => {
                &&& header.shape@.len() != 3 || bands@.len() == 0
                &&& error matches Error::InvalidImageData(text) && text@ == if header.shape@.len()
                    != 3 {
                    shape_message(header.shape@.len())
                } else {
                    "NPY file has no bands"@
                }
            },
        },
{
    match check_shape(&header.shape) {
        Err(error) => Err(error),
        Ok((_num_bands, height, width)) => {
            if bands.len() == 0 {
                return Err(Error::InvalidImageData("NPY file has no bands".to_owned()));
            }
            Ok(BandData { width: width as u32, height: height as u32, bands })
        },
    }
}

// ----------------------------------------------------------------------------
// Laws
// ----------------------------------------------------------------------------

/// The extensions of the standard image formats.
pub open spec fn standard_extensions() -> Seq<Seq<char>> {
    seq!["png"@, "jpg"@, "jpeg"@, "gif"@, "webp"@, "bmp"@, "tiff"@, "tif"@]
}

/// These extensions, and no others, are those of standard images.
pub proof fn lemma_standard_extensions(lower: Seq<char>)
    ensures
        is_standard_extension(lower) <==> standard_extensions().contains(lower),
{
    let all = standard_extensions();
    if is_standard_extension(lower) {
        assert(lower == all[0] || lower == all[1] || lower == all[2] || lower == all[3] || lower
            == all[4] || lower == all[5] || lower == all[6] || lower == all[7]);
    }
}

/// No file is read by both of the loaders that the server brings along: NumPy files by
/// one, standard images by the other.
pub proof fn lemma_default_loaders_share_nothing(path: Seq<char>)
    ensures
        !(reads_path(DefaultLoader::Standard(StandardImageLoader), path) && reads_path(
            DefaultLoader::Npy(NpyLoader),
            path,
        )),
        reads_path(DefaultLoader::Npy(NpyLoader), path) <==> (crate::paths::extension_spec(
            path,
        ) matches Some(ext) && crate::text::lowercased(ext) == "npy"@),
        reads_path(DefaultLoader::Standard(StandardImageLoader), path) <==> (
        crate::paths::extension_spec(path) matches Some(ext) && standard_extensions().contains(
            crate::text::lowercased(ext),
        )),
{
    reveal_strlit("npy");
    reveal_strlit("png");
    reveal_strlit("jpg");
    reveal_strlit("jpeg");
    reveal_strlit("gif");
    reveal_strlit("webp");
    reveal_strlit("bmp");
    reveal_strlit("tiff");
    reveal_strlit("tif");
    assert("npy"@[0] == 'n');
    assert("png"@[0] == 'p');
    assert("jpg"@[0] == 'j');
    assert("jpeg"@[0] == 'j');
    assert("gif"@[0] == 'g');
    assert("webp"@[0] == 'w');
    assert("bmp"@[0] == 'b');
    assert("tiff"@[0] == 't');
    assert("tif"@[0] == 't');
    if let Some(ext) = crate::paths::extension_spec(path) {
        lemma_standard_extensions(crate::text::lowercased(ext));
    }
}

/// The case of an extension's letters does not matter.
pub proof fn lemma_case_of_extensions(extension: Seq<char>)
    requires
        crate::text::is_ascii_text(extension),
    ensures
        StandardImageLoader.reads(crate::text::uppercased(extension)) == StandardImageLoader.reads(
            extension,
        ),
        StandardImageLoader.reads(crate::text::lowercased(extension)) == StandardImageLoader.reads(
            extension,
        ),
        NpyLoader.reads(crate::text::uppercased(extension)) == NpyLoader.reads(extension),
        NpyLoader.reads(crate::text::lowercased(extension)) == NpyLoader.reads(extension),
{
    crate::text::lemma_case_is_dropped(extension);
}

/// Splitting pixels keeps each sample: a pixel's bytes are found in its channels.
pub proof fn lemma_channels_hold_the_pixels(pixels: Seq<u8>, i: int)
    requires
        0 <= i < pixels.len() / 4,
    ensures
        channel(pixels, 0).len() == pixels.len() / 4,
        channel(pixels, 0)[i] == pixels[4 * i],
        channel(pixels, 1)[i] == pixels[4 * i + 1],
        channel(pixels, 2)[i] == pixels[4 * i + 2],
{
}

/// An image is named by the file that it stands in, whatever the directory.
pub proof fn lemma_images_are_named_by_file(dir: Seq<char>, other: Seq<char>, name: Seq<char>)
    requires
        name.len() > 0,
        !name.contains('/'),
        name != seq!['.'],
        name != seq!['.', '.'],
        dir.len() == 0 || dir.last() != '/',
        other.len() == 0 || other.last() != '/',
    ensures
        metadata_name(crate::paths::join_spec(dir, name)) == name,
        metadata_name(crate::paths::join_spec(other, name)) == name,
{
    crate::paths::lemma_file_name_of_joined(dir, name);
    crate::paths::lemma_file_name_of_joined(other, name);
}

/// What is said of an array's dimensions tells how many it has.
pub proof fn lemma_shape_messages_differ(a: nat, b: nat)
    requires
        shape_message(a) == shape_message(b),
    ensures
        a == b,
{
    let said = "Expected 3D array (B, H, W), got "@;
    let end = "D"@;
    let one = crate::text::decimal(a);
    let two = crate::text::decimal(b);
    assert(shape_message(a).len() == said.len() + one.len() + end.len());
    assert(shape_message(b).len() == said.len() + two.len() + end.len());
    assert(one =~= shape_message(a).subrange(said.len() as int, (said.len() + one.len()) as int));
    assert(two =~= shape_message(b).subrange(said.len() as int, (said.len() + two.len()) as int));
    crate::text::lemma_decimal_injective(a, b);
}

/// The first loader that reads a file comes before every other one that does.
pub proof fn lemma_first_loader_goes_first<L: ImageLoader>(
    loaders: Seq<L>,
    path: Seq<char>,
    i: int,
    j: int,
)
    requires
        first_reader(loaders, path, i),
        0 <= j < loaders.len(),
        reads_path(loaders[j], path),
    ensures
        0 <= i <= j,
        i < loaders.len() && reads_path(loaders[i], path),
{
}

} // verus!
