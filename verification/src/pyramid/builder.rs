//! Pyramid generation: from packed levels to what is stored.

use vstd::prelude::*;

verus! {

/// The packer that the server brings along.
#[derive(Debug)]
pub struct DefaultBandPacker;

impl DefaultBandPacker {
    /// A packer.
    pub fn new() -> (packer: Self)
        ensures
            packer == DefaultBandPacker,
    {
        DefaultBandPacker
    }
}

impl Default for DefaultBandPacker {
    fn default() -> (packer: Self)
        ensures
            packer == DefaultBandPacker,
    {
        DefaultBandPacker::new()
    }
}

/// A level that has been packed into RGBA layers.
#[derive(Debug)]
pub struct PackedLevel {
    pub width: u32,
    pub height: u32,
    /// Pre-packed RGBA layers (layer_index, rgba_data).
    pub layers: Vec<(u32, Vec<u8>)>,
}

/// A single pyramid level with pre-packed RGBA data.
#[derive(Debug)]
pub struct PyramidLevel {
    /// Level index (0 = full resolution).
    pub level: u32,
    /// Width at this level.
    pub width: u32,
    /// Height at this level.
    pub height: u32,
    /// Number of RGBA texture layers.
    pub num_layers: u32,
    /// Pre-packed RGBA layers (layer_index, rgba_data).
    pub layers: Vec<(u32, Vec<u8>)>,
}

/// Metadata about a stored pyramid.
#[derive(Debug)]
pub struct PyramidMetadata {
    /// Original image width.
    pub full_width: u32,
    /// Original image height.
    pub full_height: u32,
    /// Number of spectral bands.
    pub num_bands: usize,
    /// Available pyramid levels, from full resolution to thumbnail.
    pub levels: Vec<LevelInfo>,
    /// Hash of the source file for cache invalidation.
    pub source_hash: String,
    /// Timestamp when pyramid was created.
    pub created_at: u64,
}

/// Information about a single pyramid level.
#[derive(Clone, Copy, Debug, PartialEq, Eq, Structural)]
pub struct LevelInfo {
    /// Level index (0 = full resolution).
    pub level: u32,
    /// Width at this level.
    pub width: u32,
    /// Height at this level.
    pub height: u32,
    /// Number of RGBA texture layers.
    pub num_layers: u32,
    /// Size of the level data in bytes.
    pub size_bytes: u64,
}

/// The bytes of all layers together.
pub open spec fn layers_size(layers: Seq<(u32, Vec<u8>)>) -> nat
    decreases layers.len(),
{
    if layers.len() == 0 {
        0
    } else {
        layers_size(layers.drop_last()) + layers.last().1@.len()
    }
}

proof fn lemma_layers_size_grows(layers: Seq<(u32, Vec<u8>)>, i: int)
    requires
        0 <= i <= layers.len(),
    ensures
        layers_size(layers.take(i)) <= layers_size(layers),
    decreases layers.len(),
{
    if i < layers.len() {
        lemma_layers_size_grows(layers.drop_last(), i);
        assert(layers.drop_last().take(i) =~= layers.take(i));
    } else {
        assert(layers.take(i) =~= layers);
    }
}

impl PyramidLevel {
    /// Calculate the total size in bytes of this level's data.
    pub fn size_bytes(&self) -> (total: u64)
        requires
            layers_size(self.layers@) <= u64::MAX,
        ensures
            total == layers_size(self.layers@),
    {
        let mut total: u64 = 0;
        let mut i: usize = 0;
        assert(self.layers@.take(0) =~= Seq::<(u32, Vec<u8>)>::empty());
        while i < self.layers.len()
            invariant
                i <= self.layers@.len(),
                layers_size(self.layers@) <= u64::MAX,
                total == layers_size(self.layers@.take(i as int)),
            decreases self.layers@.len() - i,
        {
            proof {
                let next = self.layers@.take(i + 1);
                assert(next.drop_last() =~= self.layers@.take(i as int));
                lemma_layers_size_grows(self.layers@, i + 1);
            }
            total = total + self.layers[i].1.len() as u64;
            i = i + 1;
        }
        assert(self.layers@.take(i as int) =~= self.layers@);
        total
    }
}

/// Whether a level is a packed level under its index.
pub open spec fn is_numbered(level: PyramidLevel, packed: PackedLevel, index: int) -> bool {
    &&& level.level == index as u32
    &&& level.width == packed.width
    &&& level.height == packed.height
    &&& level.num_layers == packed.layers@.len() as u32
    &&& level.layers == packed.layers
}

/// Numbers packed levels from the full resolution on.
pub fn number_levels(packed: Vec<PackedLevel>) -> (levels: Vec<PyramidLevel>)
    ensures
        levels@.len() == packed@.len(),
        forall|i: int|
            0 <= i < packed@.len() ==> is_numbered(#[trigger] levels@[i], packed@[i], i),
{
    let ghost input = packed@;
    let mut levels: Vec<PyramidLevel> = Vec::new();
    for item in it: packed
        invariant
            it.seq() == input,
            levels@.len() == it.index(),
            forall|i: int|
                0 <= i < it.index() ==> is_numbered(#[trigger] levels@[i], input[i], i),
    {
        let index: usize = levels.len();
        let num_layers: usize = item.layers.len();
        levels.push(
            PyramidLevel {
                level: index as u32,
                width: item.width,
                height: item.height,
                num_layers: num_layers as u32,
                layers: item.layers,
            },
        );
    }
    levels
}

/// Whether level information is what is stored about a level.
pub open spec fn informs(info: LevelInfo, level: PyramidLevel) -> bool {
    &&& info.level == level.level
    &&& info.width == level.width
    &&& info.height == level.height
    &&& info.num_layers == level.num_layers
    &&& info.size_bytes == layers_size(level.layers@)
}

/// The metadata of a pyramid that has been built.
pub fn pyramid_metadata(
    full_width: u32,
    full_height: u32,
    num_bands: usize,
    levels: &Vec<PyramidLevel>,
    image_hash: &str,
    created_at: u64,
) -> (metadata: PyramidMetadata)
    requires
        forall|i: int|
            0 <= i < levels@.len() ==> layers_size((#[trigger] levels@[i]).layers@) <= u64::MAX,
    ensures
        metadata.full_width == full_width,
        metadata.full_height == full_height,
        metadata.num_bands == num_bands,
        metadata.source_hash@ == image_hash@,
        metadata.created_at == created_at,
        metadata.levels@.len() == levels@.len(),
        forall|i: int|
            0 <= i < levels@.len() ==> informs(#[trigger] metadata.levels@[i], levels@[i]),
{
    let mut infos: Vec<LevelInfo> = Vec::new();
    let mut i: usize = 0;
    while i < levels.len()
        invariant
            i <= levels@.len(),
            forall|k: int|
                0 <= k < levels@.len() ==> layers_size((#[trigger] levels@[k]).layers@)
                    <= u64::MAX,
            infos@.len() == i,
            forall|k: int| 0 <= k < i ==> informs(#[trigger] infos@[k], levels@[k]),
        decreases levels@.len() - i,
    {
        let level = &levels[i];
        infos.push(
            LevelInfo {
                level: level.level,
                width: level.width,
                height: level.height,
                num_layers: level.num_layers,
                size_bytes: level.size_bytes(),
            },
        );
        i = i + 1;
    }
    PyramidMetadata {
        full_width,
        full_height,
        num_bands,
        levels: infos,
        source_hash: image_hash.to_owned(),
        created_at,
    }
}

/// A step of building and saving a pyramid.
#[derive(Clone, Copy, Debug, PartialEq, Eq, Structural)]
pub enum BuildStep {
    MarkBuilding,
    SaveLevel(usize),
    SaveMetadata,
    MarkReady,
}

/// The steps of building and saving a pyramid: it is marked as building before
/// anything is saved, and as ready after everything is.
pub open spec fn build_steps_spec(level_count: nat) -> Seq<BuildStep> {
    seq![BuildStep::MarkBuilding] + Seq::new(
        level_count,
        |i: int| BuildStep::SaveLevel(i as usize),
    ) + seq![BuildStep::SaveMetadata, BuildStep::MarkReady]
}

/// The steps of building and saving a pyramid, in order. A step that fails ends
/// the build.
pub fn build_steps(level_count: usize) -> (steps: Vec<BuildStep>)
    ensures
        steps@ == build_steps_spec(level_count as nat),
{
    let mut steps: Vec<BuildStep> = Vec::new();
    steps.push(BuildStep::MarkBuilding);
    let mut i: usize = 0;
    while i < level_count
        invariant
            i <= level_count,
            steps@ == seq![BuildStep::MarkBuilding] + Seq::new(
                i as nat,
                |k: int| BuildStep::SaveLevel(k as usize),
            ),
        decreases level_count - i,
    {
        steps.push(BuildStep::SaveLevel(i));
        i = i + 1;
        assert(steps@ =~= seq![BuildStep::MarkBuilding] + Seq::new(
            i as nat,
            |k: int| BuildStep::SaveLevel(k as usize),
        ));
    }
    steps.push(BuildStep::SaveMetadata);
    steps.push(BuildStep::MarkReady);
    assert(steps@ =~= build_steps_spec(level_count as nat));
    steps
}

// ----------------------------------------------------------------------------
// Laws
// ----------------------------------------------------------------------------

/// The bytes of layers add up.
pub proof fn lemma_sizes_add_up(a: Seq<(u32, Vec<u8>)>, b: Seq<(u32, Vec<u8>)>, layer: (u32, Vec<u8>))
    ensures
        layers_size(a + b) == layers_size(a) + layers_size(b),
        layers_size(a.push(layer)) == layers_size(a) + layer.1@.len(),
        layers_size(Seq::empty()) == 0,
    decreases b.len(),
{
    assert(a.push(layer).drop_last() =~= a);
    if b.len() == 0 {
        assert(a + b =~= a);
    } else {
        lemma_sizes_add_up(a, b.drop_last(), layer);
        assert((a + b).drop_last() =~= a + b.drop_last());
    }
}

/// What is stored about a level is what was packed: its place in the pyramid, its size,
/// and how many layers of how many bytes it has.
pub proof fn lemma_stored_levels_are_the_packed_ones(
    packed: Seq<PackedLevel>,
    levels: Seq<PyramidLevel>,
    infos: Seq<LevelInfo>,
    i: int,
)
    requires
        packed.len() == levels.len() == infos.len(),
        packed.len() <= u32::MAX,
        forall|k: int| 0 <= k < packed.len() ==> is_numbered(#[trigger] levels[k], packed[k], k),
        forall|k: int| 0 <= k < levels.len() ==> informs(#[trigger] infos[k], levels[k]),
        0 <= i < packed.len(),
    ensures
        infos[i].level == i,
        infos[i].width == packed[i].width,
        infos[i].height == packed[i].height,
        packed[i].layers@.len() <= u32::MAX ==> infos[i].num_layers == packed[i].layers@.len(),
        infos[i].size_bytes == layers_size(packed[i].layers@),
        levels[i].layers == packed[i].layers,
{
    assert(is_numbered(levels[i], packed[i], i));
    assert(informs(infos[i], levels[i]));
}

/// A build first marks the pyramid as being built, then saves each level once, in
/// order, then what is known of them all; and only at the end it marks the pyramid as
/// ready.
pub proof fn lemma_ready_comes_last(level_count: usize, i: int)
    ensures
        ({
            let steps = build_steps_spec(level_count as nat);
            &&& steps.len() == level_count + 3
            &&& steps[0] is MarkBuilding
            &&& 0 <= i < level_count ==> steps[1 + i] == BuildStep::SaveLevel(i as usize)
            &&& steps[1 + level_count] is SaveMetadata
            &&& steps[2 + level_count] is MarkReady
            &&& 0 <= i < steps.len() && steps[i] is MarkReady ==> i == steps.len() - 1
        }),
{
}

} // verus!
