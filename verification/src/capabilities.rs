//! What a server tells its clients that it offers.

use vstd::prelude::*;

use crate::config::ServerConfig;
use crate::mux::MAX_CONCURRENT_INFERENCES;

verus! {

/// Who a server is.
#[derive(Debug)]
pub struct ServerIdentity {
    pub name: String,
    pub version: String,
}

/// What a server bears.
#[derive(Clone, Copy, Debug, PartialEq, Eq, Structural)]
pub struct ServerLimits {
    pub max_image_size: u64,
    pub max_pyramid_levels: u32,
    pub max_concurrent_streams: u32,
    pub max_concurrent_inferences: u32,
}

/// What a server offers. What it does not speak of is not given.
#[derive(Clone, Copy, Debug, PartialEq, Eq, Structural)]
pub struct ServerFeatures {
    pub streaming: bool,
    pub project_state: bool,
    pub downloads: bool,
    pub thumbnails: Option<bool>,
    pub inference: bool,
    pub sam: bool,
    pub progressive_streaming: Option<bool>,
}

/// How images are downloaded.
#[derive(Clone, Copy, Debug, PartialEq, Eq, Structural)]
pub enum DownloadMode {
    SingleZip,
    Chunked,
}

/// An input or an output of a model.
#[derive(Debug)]
pub struct FieldSchema {
    pub name: String,
    pub field_type: String,
    pub required: bool,
    pub description: String,
}

/// A model that a server offers.
#[derive(Debug)]
pub struct ModelCapability {
    pub id: String,
    pub name: String,
    pub description: String,
    pub inputs: Vec<FieldSchema>,
    pub outputs: Vec<FieldSchema>,
    pub requires_embedding: bool,
    pub embedding_time_ms: u32,
    /// Whether the model segments on points and boxes.
    pub sam_prompts: bool,
}

/// What a server tells its clients that it offers.
#[derive(Debug)]
pub struct ServerCapabilities {
    pub protocol_version: u8,
    pub server: ServerIdentity,
    pub limits: ServerLimits,
    pub features: ServerFeatures,
    pub download_mode: DownloadMode,
    pub models: Vec<ModelCapability>,
}

/// Whether some model segments on points and boxes.
pub open spec fn some_sam_model(models: Seq<ModelCapability>) -> bool {
    exists|i: int| 0 <= i < models.len() && (#[trigger] models[i]).sam_prompts
}

/// Whether a model is the first that segments on points and boxes.
pub open spec fn is_first_sam_model(models: Seq<ModelCapability>, i: int) -> bool {
    0 <= i < models.len() && models[i].sam_prompts && forall|k: int|
        0 <= k < i ==> !(#[trigger] models[k]).sam_prompts
}

impl ServerCapabilities {
    /// Whether downloads come in parts.
    pub open spec fn chunked(self) -> bool {
        self.features.downloads && self.download_mode == DownloadMode::Chunked
    }

    /// Whether downloads come in parts.
    pub fn supports_chunked_downloads(&self) -> (r: bool)
        ensures
            r == self.chunked(),
    {
        self.features.downloads && self.download_mode == DownloadMode::Chunked
    }

    /// The first model that segments on points and boxes.
    pub fn find_sam_prompt_model(&self) -> (r: Option<&ModelCapability>)
        ensures
            match r {
                Some(model) => exists|i: int| #[trigger]
                    is_first_sam_model(self.models@, i) && self.models@[i] == *model,
                None => !some_sam_model(self.models@),
            },
    {
        let mut i: usize = 0;
        while i < self.models.len()
            invariant
                i <= self.models@.len(),
                forall|k: int| 0 <= k < i ==> !(#[trigger] self.models@[k]).sam_prompts,
            decreases self.models@.len() - i,
        {
            if self.models[i].sam_prompts {
                assert(is_first_sam_model(self.models@, i as int));
                return Some(&self.models[i]);
            }
            i = i + 1;
        }
        None
    }
}

/// Whether these are the capabilities of a server that only streams.
pub open spec fn streaming_only(
    caps: ServerCapabilities,
    config: ServerConfig,
    protocol_version: u8,
    max_pyramid_levels: u32,
    version: Seq<char>,
) -> bool {
    &&& caps.protocol_version == protocol_version
    &&& caps.server.name@ == "hvat-backend-simple"@
    &&& caps.server.version@ == version
    &&& caps.limits == (ServerLimits {
        max_image_size: config.max_cache_memory,
        max_pyramid_levels,
        max_concurrent_streams: config.max_user_streams as u32,
        max_concurrent_inferences: 0,
    })
    &&& caps.features == (ServerFeatures {
        streaming: true,
        project_state: true,
        downloads: true,
        thumbnails: Some(true),
        inference: false,
        sam: false,
        progressive_streaming: Some(false),
    })
    &&& caps.download_mode == DownloadMode::SingleZip
    &&& caps.models@.len() == 0
}

/// Build default server capabilities for a streaming-only backend.
pub fn build_default_capabilities(
    config: &ServerConfig,
    protocol_version: u8,
    max_pyramid_levels: u32,
    version: String,
) -> (caps: ServerCapabilities)
    ensures
        streaming_only(caps, *config, protocol_version, max_pyramid_levels, version@),
{
    ServerCapabilities {
        protocol_version,
        server: ServerIdentity { name: "hvat-backend-simple".to_owned(), version },
        limits: ServerLimits {
            max_image_size: config.max_cache_memory,
            max_pyramid_levels,
            max_concurrent_streams: config.max_user_streams as u32,
            max_concurrent_inferences: 0,
        },
        features: ServerFeatures {
            streaming: true,
            project_state: true,
            downloads: true,
            thumbnails: Some(true),
            inference: false,
            sam: false,
            progressive_streaming: Some(false),
        },
        download_mode: DownloadMode::SingleZip,
        models: Vec::new(),
    }
}

/// Whether these are the capabilities of a server with these models: inference is
/// offered where there is a model, and segmentation where one segments.
pub open spec fn with_models(
    caps: ServerCapabilities,
    max_cache_memory: u64,
    max_user_streams: usize,
    models: Seq<ModelCapability>,
    protocol_version: u8,
    max_pyramid_levels: u32,
    version: Seq<char>,
) -> bool {
    &&& caps.protocol_version == protocol_version
    &&& caps.server.name@ == "hvat-axum"@
    &&& caps.server.version@ == version
    &&& caps.limits == (ServerLimits {
        max_image_size: max_cache_memory,
        max_pyramid_levels,
        max_concurrent_streams: max_user_streams as u32,
        max_concurrent_inferences: MAX_CONCURRENT_INFERENCES,
    })
    &&& caps.features == (ServerFeatures {
        streaming: true,
        project_state: true,
        downloads: true,
        thumbnails: None,
        inference: models.len() > 0,
        sam: some_sam_model(models),
        progressive_streaming: None,
    })
    &&& caps.download_mode == DownloadMode::Chunked
    &&& caps.models@ == models
}

/// Build server capabilities.
pub fn build_server_capabilities(
    max_cache_memory: u64,
    max_user_streams: usize,
    models: Vec<ModelCapability>,
    protocol_version: u8,
    max_pyramid_levels: u32,
    version: String,
) -> (caps: ServerCapabilities)
    ensures
        with_models(
            caps,
            max_cache_memory,
            max_user_streams,
            models@,
            protocol_version,
            max_pyramid_levels,
            version@,
        ),
{
    let inference = models.len() > 0;
    let mut caps = ServerCapabilities {
        protocol_version,
        server: ServerIdentity { name: "hvat-axum".to_owned(), version },
        limits: ServerLimits {
            max_image_size: max_cache_memory,
            max_pyramid_levels,
            max_concurrent_streams: max_user_streams as u32,
            max_concurrent_inferences: MAX_CONCURRENT_INFERENCES,
        },
        features: ServerFeatures {
            streaming: true,
            project_state: true,
            downloads: true,
            thumbnails: None,
            inference,
            sam: false,
            progressive_streaming: None,
        },
        download_mode: DownloadMode::Chunked,
        models,
    };
    let sam = match caps.find_sam_prompt_model() {
        Some(_model) => {
            proof {
                let i = choose|i: int|
                    0 <= i < caps.models@.len() && caps.models@[i] == *_model;
                assert(caps.models@[i].sam_prompts);
            }
            true
        },
        None => false,
    };
    caps.features.sam = sam;
    caps
}

/// A server without models offers neither inference nor segmentation, and one
/// that segments offers inference.
pub proof fn lemma_features_follow_models(
    caps: ServerCapabilities,
    max_cache_memory: u64,
    max_user_streams: usize,
    models: Seq<ModelCapability>,
    protocol_version: u8,
    max_pyramid_levels: u32,
    version: Seq<char>,
)
    requires
        with_models(
            caps,
            max_cache_memory,
            max_user_streams,
            models,
            protocol_version,
            max_pyramid_levels,
            version,
        ),
    ensures
        caps.models@.len() == 0 ==> !caps.features.inference && !caps.features.sam,
        caps.features.sam ==> caps.features.inference,
{
}

/// The name of the segmentation model of a variant.
pub fn sam_model_name(variant: &str) -> (out: String)
    ensures
        out@ == "Segment Anything ("@ + variant@ + ")"@,
{
    let mut out = "Segment Anything (".to_owned();
    out.append(variant);
    out.append(")");
    out
}

/// Whether this is the schema of a field.
pub open spec fn is_field(
    field: FieldSchema,
    name: Seq<char>,
    field_type: Seq<char>,
    description: Seq<char>,
) -> bool {
    &&& field.name@ == name
    &&& field.field_type@ == field_type
    &&& !field.required
    &&& field.description@ == description
}

fn optional_field(name: &str, field_type: &str, description: &str) -> (field: FieldSchema)
    ensures
        is_field(field, name@, field_type@, description@),
{
    FieldSchema {
        name: name.to_owned(),
        field_type: field_type.to_owned(),
        required: false,
        description: description.to_owned(),
    }
}

/// Whether this is what the segmentation model offers.
pub open spec fn is_sam_model(
    model: ModelCapability,
    model_id: String,
    model_name: String,
) -> bool {
    &&& model.id == model_id
    &&& model.name == model_name
    &&& model.description@ == "Interactive segmentation with point/box prompts"@
    &&& model.inputs@.len() == 2
    &&& is_field(
        model.inputs@[0],
        "points"@,
        "point_list"@,
        "Click points with foreground/background labels"@,
    )
    &&& is_field(model.inputs@[1], "box"@, "bbox"@, "Bounding box prompt"@)
    &&& model.outputs@.len() == 2
    &&& is_field(
        model.outputs@[0],
        "masks"@,
        "polygon_list"@,
        "Segmentation masks as polygons"@,
    )
    &&& is_field(
        model.outputs@[1],
        "scores"@,
        "float_list"@,
        "Confidence scores for each mask"@,
    )
    &&& model.requires_embedding
    &&& model.embedding_time_ms == 1000
    &&& model.sam_prompts
}

/// A server with the segmentation model offers segmentation. The model works on an
/// embedding, and takes each of the prompts that requests are read for, none of which
/// it insists on.
pub proof fn lemma_sam_model_segments(
    model: ModelCapability,
    model_id: String,
    model_name: String,
    inputs: crate::json::Json,
)
    requires
        is_sam_model(model, model_id, model_name),
    ensures
        some_sam_model(seq![model]),
        is_first_sam_model(seq![model], 0),
        model.requires_embedding,
        forall|i: int| 0 <= i < model.inputs@.len() ==> !(#[trigger] model.inputs@[i]).required,
        inputs.field(model.inputs@[0].name@) is None && inputs.field(model.inputs@[1].name@) is None
            ==> !crate::sam::has_points(inputs) && !crate::sam::has_box(inputs),
        crate::sam::has_points(inputs) ==> inputs.field(model.inputs@[0].name@) is Some,
        crate::sam::has_box(inputs) ==> inputs.field(model.inputs@[1].name@) is Some,
{
    assert(seq![model][0].sam_prompts);
}

/// What the segmentation model offers.
pub fn sam_capability(model_id: String, model_name: String) -> (model: ModelCapability)
    ensures
        is_sam_model(model, model_id, model_name),
{
    let mut inputs: Vec<FieldSchema> = Vec::new();
    inputs.push(
        optional_field(
            "points",
            "point_list",
            "Click points with foreground/background labels",
        ),
    );
    inputs.push(optional_field("box", "bbox", "Bounding box prompt"));
    let mut outputs: Vec<FieldSchema> = Vec::new();
    outputs.push(optional_field("masks", "polygon_list", "Segmentation masks as polygons"));
    outputs.push(optional_field("scores", "float_list", "Confidence scores for each mask"));
    ModelCapability {
        id: model_id,
        name: model_name,
        description: "Interactive segmentation with point/box prompts".to_owned(),
        inputs,
        outputs,
        requires_embedding: true,
        embedding_time_ms: 1000,
        sam_prompts: true,
    }
}

/// What a server of single-image connections offers.
#[derive(Debug)]
pub struct PlainCapabilities {
    pub protocol_version: u8,
    pub max_image_size: u64,
    pub max_pyramid_levels: u32,
    pub sam_enabled: bool,
    pub sam_model: String,
    pub max_concurrent_streams: u32,
}

/// Whether these are the capabilities of a server of single-image connections. The model
/// is named where there is a segmentation engine.
pub open spec fn offers_plainly(
    caps: PlainCapabilities,
    max_cache_memory: u64,
    max_user_streams: usize,
    sam_variant: Option<String>,
    protocol_version: u8,
    max_pyramid_levels: u32,
) -> bool {
    &&& caps.protocol_version == protocol_version
    &&& caps.max_image_size == max_cache_memory
    &&& caps.max_pyramid_levels == max_pyramid_levels
    &&& caps.sam_enabled == sam_variant is Some
    &&& caps.sam_model@ == match sam_variant {
        Some(name) => name@,
        None => Seq::<char>::empty(),
    }
    &&& caps.max_concurrent_streams == max_user_streams as u32
}

/// Such a server names its model exactly where it segments, and otherwise tells what the
/// server of the same settings with models tells of its limits.
pub proof fn lemma_both_servers_tell_the_same_limits(
    plain: PlainCapabilities,
    caps: ServerCapabilities,
    max_cache_memory: u64,
    max_user_streams: usize,
    sam_variant: Option<String>,
    models: Seq<ModelCapability>,
    protocol_version: u8,
    max_pyramid_levels: u32,
    version: Seq<char>,
)
    requires
        offers_plainly(
            plain,
            max_cache_memory,
            max_user_streams,
            sam_variant,
            protocol_version,
            max_pyramid_levels,
        ),
        with_models(
            caps,
            max_cache_memory,
            max_user_streams,
            models,
            protocol_version,
            max_pyramid_levels,
            version,
        ),
    ensures
        plain.protocol_version == caps.protocol_version,
        plain.max_image_size == caps.limits.max_image_size,
        plain.max_pyramid_levels == caps.limits.max_pyramid_levels,
        plain.max_concurrent_streams == caps.limits.max_concurrent_streams,
        plain.sam_enabled <==> sam_variant is Some,
        sam_variant matches Some(name) ==> plain.sam_model@ == name@,
        !plain.sam_enabled ==> plain.sam_model@.len() == 0,
{
}

/// Build the capabilities of a server of single-image connections. The model is
/// named where there is a segmentation engine.
pub fn build_plain_capabilities(
    max_cache_memory: u64,
    max_user_streams: usize,
    sam_variant: Option<String>,
    protocol_version: u8,
    max_pyramid_levels: u32,
) -> (caps: PlainCapabilities)
    ensures
        offers_plainly(
            caps,
            max_cache_memory,
            max_user_streams,
            sam_variant,
            protocol_version,
            max_pyramid_levels,
        ),
{
    let sam_enabled = sam_variant.is_some();
    PlainCapabilities {
        protocol_version,
        max_image_size: max_cache_memory,
        max_pyramid_levels,
        sam_enabled,
        sam_model: match sam_variant {
            Some(name) => name,
            None => String::new(),
        },
        max_concurrent_streams: max_user_streams as u32,
    }
}

/// A server that only streams tells what it bears as it was configured, offers streams,
/// annotations and downloads in one piece, and nothing that needs a model.
pub proof fn lemma_streaming_only_offers_no_models(
    caps: ServerCapabilities,
    config: ServerConfig,
    protocol_version: u8,
    max_pyramid_levels: u32,
    version: Seq<char>,
)
    requires
        streaming_only(caps, config, protocol_version, max_pyramid_levels, version),
        config.max_user_streams <= u32::MAX,
    ensures
        !caps.features.inference,
        !caps.features.sam,
        caps.models@ == Seq::<ModelCapability>::empty(),
        caps.limits.max_concurrent_inferences == caps.models@.len(),
        caps.limits.max_concurrent_streams == config.max_user_streams,
        caps.limits.max_image_size == config.max_cache_memory,
        caps.limits.max_pyramid_levels == max_pyramid_levels,
        caps.features.streaming && caps.features.project_state && caps.features.downloads,
        !(caps.download_mode is Chunked),
        !caps.chunked(),
        caps.protocol_version == protocol_version,
        caps.server.version@ == version,
{
    assert(caps.models@ =~= Seq::<ModelCapability>::empty());
}

/// A server with models offers inference exactly where it has a model and segmentation
/// exactly where one segments; it bears as much as it was configured to; and its models
/// are those that it has, in their order.
pub proof fn lemma_offers_follow_models(
    caps: ServerCapabilities,
    max_cache_memory: u64,
    max_user_streams: usize,
    models: Seq<ModelCapability>,
    protocol_version: u8,
    max_pyramid_levels: u32,
    version: Seq<char>,
)
    requires
        with_models(
            caps,
            max_cache_memory,
            max_user_streams,
            models,
            protocol_version,
            max_pyramid_levels,
            version,
        ),
        max_user_streams <= u32::MAX,
    ensures
        caps.features.inference <==> exists|model: ModelCapability| caps.models@.contains(model),
        caps.features.sam <==> exists|model: ModelCapability|
            #[trigger] caps.models@.contains(model) && model.sam_prompts,
        caps.limits.max_concurrent_streams == max_user_streams,
        caps.limits.max_image_size == max_cache_memory,
        caps.limits.max_pyramid_levels == max_pyramid_levels,
        caps.limits.max_concurrent_inferences >= 1,
        caps.features.streaming && caps.features.project_state && caps.features.downloads,
        caps.download_mode is Chunked,
        caps.chunked(),
        caps.protocol_version == protocol_version,
        caps.server.version@ == version,
{
    if models.len() > 0 {
        assert(caps.models@.contains(models[0]));
    }
    if some_sam_model(models) {
        let i = choose|i: int| 0 <= i < models.len() && (#[trigger] models[i]).sam_prompts;
        assert(caps.models@.contains(models[i]));
    }
    if exists|model: ModelCapability|
        #[trigger] caps.models@.contains(model) && model.sam_prompts {
        let model = choose|model: ModelCapability|
            #[trigger] caps.models@.contains(model) && model.sam_prompts;
        let i = choose|i: int| 0 <= i < models.len() && models[i] == model;
        assert(models[i].sam_prompts);
    }
}

/// A field is described in one way only, and no field is insisted on.
pub proof fn lemma_fields_are_told_apart(
    field: FieldSchema,
    name: Seq<char>,
    other_name: Seq<char>,
    field_type: Seq<char>,
    other_type: Seq<char>,
    description: Seq<char>,
    other_description: Seq<char>,
)
    requires
        is_field(field, name, field_type, description),
        is_field(field, other_name, other_type, other_description),
    ensures
        name == other_name,
        field_type == other_type,
        description == other_description,
        !field.required,
{
}

/// The segmentation model is offered under its own identifier and name; whatever these
/// are, it is described in the same way, with fields of different names in and out.
pub proof fn lemma_segmentation_is_described_alike(
    model: ModelCapability,
    model_id: String,
    model_name: String,
    other: ModelCapability,
    other_id: String,
    other_name: String,
    i: int,
)
    requires
        is_sam_model(model, model_id, model_name),
        is_sam_model(other, other_id, other_name),
        0 <= i < 2,
    ensures
        model.id == model_id,
        model.name == model_name,
        model.description@ == other.description@,
        model.inputs@.len() == 2,
        model.outputs@.len() == 2,
        model.inputs@[i].name@ == other.inputs@[i].name@,
        model.inputs@[i].field_type@ == other.inputs@[i].field_type@,
        model.inputs@[i].description@ == other.inputs@[i].description@,
        model.outputs@[i].name@ == other.outputs@[i].name@,
        model.outputs@[i].field_type@ == other.outputs@[i].field_type@,
        model.outputs@[i].description@ == other.outputs@[i].description@,
        !model.inputs@[i].required,
        !model.outputs@[i].required,
        model.inputs@[0].name@ != model.inputs@[1].name@,
        model.outputs@[0].name@ != model.outputs@[1].name@,
        model.requires_embedding,
        model.embedding_time_ms == other.embedding_time_ms,
        model.embedding_time_ms > 0,
{
    reveal_strlit("points");
    reveal_strlit("box");
    reveal_strlit("masks");
    reveal_strlit("scores");
    assert("points"@.len() != "box"@.len());
    assert("masks"@.len() != "scores"@.len());
}

/// Servers of the same settings tell the same, and the two kinds of servers tell
/// different names.
pub proof fn lemma_capabilities_follow_settings(
    a: ServerCapabilities,
    b: ServerCapabilities,
    streaming: ServerCapabilities,
    config: ServerConfig,
    max_cache_memory: u64,
    max_user_streams: usize,
    models: Seq<ModelCapability>,
    protocol_version: u8,
    max_pyramid_levels: u32,
    version: Seq<char>,
)
    requires
        with_models(
            a,
            max_cache_memory,
            max_user_streams,
            models,
            protocol_version,
            max_pyramid_levels,
            version,
        ),
        with_models(
            b,
            max_cache_memory,
            max_user_streams,
            models,
            protocol_version,
            max_pyramid_levels,
            version,
        ),
        streaming_only(streaming, config, protocol_version, max_pyramid_levels, version),
    ensures
        a.protocol_version == b.protocol_version,
        a.protocol_version == streaming.protocol_version,
        a.server.name@ == b.server.name@,
        a.server.version@ == b.server.version@,
        a.server.version@ == streaming.server.version@,
        a.server.name@ != streaming.server.name@,
        a.limits == b.limits,
        a.features == b.features,
        a.download_mode == b.download_mode,
        a.download_mode != streaming.download_mode,
        a.models@ == b.models@,
{
    reveal_strlit("hvat-axum");
    reveal_strlit("hvat-backend-simple");
    assert("hvat-axum"@.len() != "hvat-backend-simple"@.len());
}

/// The first model that segments comes before every other one that does.
pub proof fn lemma_first_model_goes_first(models: Seq<ModelCapability>, i: int, j: int)
    requires
        is_first_sam_model(models, i),
        0 <= j < models.len(),
        models[j].sam_prompts,
    ensures
        i <= j,
        0 <= i < models.len() && models[i].sam_prompts,
        some_sam_model(models),
{
}

} // verus!
