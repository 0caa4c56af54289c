//! Configuration of the server that offers segmentation.

use vstd::prelude::*;

use crate::config::{project_name, BYTES_PER_MB, DEFAULT_MAX_CACHE_BYTES};
use crate::sam::ExecutionProvider;
use crate::text::{join, push_decimal, same_text};

verus! {

pub const DEFAULT_MAX_USER_BYTES: u64 = 524_288_000;

pub const DEFAULT_SAM_CACHE_SIZE: usize = 50;

/// Command line arguments.
#[derive(Debug)]
pub struct CliArgs {
    /// Port to listen on.
    pub port: u16,
    /// Root directory containing images to serve.
    pub data_dir: String,
    /// Directory for pyramid cache.
    pub cache_dir: String,
    /// Maximum total memory for pyramid cache in MB.
    pub max_cache_mb: u64,
    /// Maximum memory per user session in MB.
    pub max_user_mb: u64,
    /// Maximum concurrent streams per user.
    pub max_streams: usize,
    /// Maximum total WebSocket connections.
    pub max_connections: usize,
    /// WebSocket ping interval in seconds (0 to disable).
    pub ping_interval: u64,
    /// WebSocket connection timeout in seconds (no pong response).
    pub connection_timeout: u64,
    /// Number of rows to send per WebSocket message.
    pub chunk_rows: u32,
    /// Maximum concurrent pyramid pre-generation jobs at startup.
    pub pyramid_concurrency: usize,
    /// Project name. Defaults to the data directory name.
    pub name: Option<String>,
    /// Enable SAM (Segment Anything Model) integration.
    pub sam_enabled: bool,
    /// SAM model directory.
    pub sam_model_dir: Option<String>,
    /// SAM model variant: tiny, small, base-plus, large.
    pub sam_variant: String,
    /// SAM execution provider: auto, cpu, cuda, rocm, directml, coreml.
    pub sam_provider: String,
    /// Maximum cached image embeddings for SAM.
    pub sam_cache_size: usize,
}

/// Server configuration. `V` is the type of model variants.
#[derive(Debug)]
pub struct ServerConfig<V> {
    pub port: u16,
    pub data_dir: String,
    pub cache_dir: String,
    /// Maximum total memory for pyramid cache in bytes.
    pub max_cache_memory: u64,
    /// Maximum memory per user session in bytes.
    pub max_user_memory: u64,
    pub max_user_streams: usize,
    pub max_connections: usize,
    pub ping_interval_secs: u64,
    pub connection_timeout_secs: u64,
    pub stream_chunk_rows: u32,
    pub pyramid_concurrency: usize,
    pub project_name: String,
    pub sam_enabled: bool,
    pub sam_model_dir: String,
    pub sam_variant: V,
    pub sam_provider: ExecutionProvider,
    pub sam_cache_size: usize,
}

/// What the segmentation engine offers a configuration.
#[derive(Debug)]
pub struct SamEnvironment<V> {
    /// The model directory where none is given.
    pub default_model_dir: String,
    /// The variant where none is recognised.
    pub default_variant: V,
    /// The best provider of this machine.
    pub detected_provider: ExecutionProvider,
}

/// The flags of segmentation that were set, in the form in which they are given.
pub open spec fn flags_set(args: CliArgs) -> Seq<Seq<char>> {
    let variant = if args.sam_variant@ == "tiny"@ {
        Seq::<Seq<char>>::empty()
    } else {
        seq!["--sam-variant="@ + args.sam_variant@]
    };
    let provider = if args.sam_provider@ == "auto"@ {
        Seq::<Seq<char>>::empty()
    } else {
        seq!["--sam-provider="@ + args.sam_provider@]
    };
    let model_dir = match args.sam_model_dir {
        None => Seq::<Seq<char>>::empty(),
        Some(dir) => seq!["--sam-model-dir="@ + dir@],
    };
    let cache_size = if args.sam_cache_size == DEFAULT_SAM_CACHE_SIZE {
        Seq::<Seq<char>>::empty()
    } else {
        seq!["--sam-cache-size="@ + crate::text::decimal(args.sam_cache_size as nat)]
    };
    variant + provider + model_dir + cache_size
}

fn flag(start: &str, value: &str) -> (out: String)
    ensures
        out@ == start@ + value@,
{
    let mut out = start.to_owned();
    out.append(value);
    out
}

/// The flags of segmentation that were set, in the form in which they are given.
pub fn sam_flags_set(args: &CliArgs) -> (out: Vec<String>)
    ensures
        crate::text::texts(out@) == flags_set(*args),
{
    let mut out: Vec<String> = Vec::new();
    assert(crate::text::texts(out@) =~= Seq::<Seq<char>>::empty());
    if !same_text(args.sam_variant.as_str(), "tiny") {
        let ghost before = out@;
        out.push(flag("--sam-variant=", args.sam_variant.as_str()));
        assert(crate::text::texts(out@) =~= crate::text::texts(before).push(
            "--sam-variant="@ + args.sam_variant@,
        ));
    }
    if !same_text(args.sam_provider.as_str(), "auto") {
        let ghost before = out@;
        out.push(flag("--sam-provider=", args.sam_provider.as_str()));
        assert(crate::text::texts(out@) =~= crate::text::texts(before).push(
            "--sam-provider="@ + args.sam_provider@,
        ));
    }
    if let Some(dir) = &args.sam_model_dir {
        let ghost before = out@;
        out.push(flag("--sam-model-dir=", dir.as_str()));
        assert(crate::text::texts(out@) =~= crate::text::texts(before).push(
            "--sam-model-dir="@ + dir@,
        ));
    }
    if args.sam_cache_size != DEFAULT_SAM_CACHE_SIZE {
        let ghost before = out@;
        let mut text = "--sam-cache-size=".to_owned();
        push_decimal(&mut text, args.sam_cache_size as u64);
        out.push(text);
        assert(crate::text::texts(out@) =~= crate::text::texts(before).push(
            "--sam-cache-size="@ + crate::text::decimal(args.sam_cache_size as nat),
        ));
    }
    assert(crate::text::texts(out@) =~= flags_set(*args));
    out
}

/// Whether no flag of segmentation is set while segmentation is off.
pub open spec fn flags_consistent(args: CliArgs) -> bool {
    args.sam_enabled || flags_set(args).len() == 0
}

/// What a user is told who set flags of segmentation while it is off.
pub open spec fn flags_message(flags: Seq<Seq<char>>) -> Seq<char> {
    "\n\nERROR: SAM flags specified without --sam-enabled!\n\nThe following SAM flags were set:\n  "@
        + crate::text::join_spec(flags, "\n  "@)
        + "\n\nBut --sam-enabled was not specified (defaults to false).\n\nTo enable SAM, add --sam-enabled to your command:\n  cargo run -p hvat_axum -- --sam-enabled "@
        + crate::text::join_spec(flags, " "@) + "\n\n"@
}

impl<V> ServerConfig<V> {
    /// Validate SAM-related command line flags: none is set without
    /// `--sam-enabled`.
    pub fn validate_sam_flags(args: &CliArgs) -> (r: Result<(), String>)
        ensures
            match r {
                Ok(()) => flags_consistent(*args),
                Err(message) => !flags_consistent(*args) && message@ == flags_message(
                    flags_set(*args),
                ),
            },
    {
        if args.sam_enabled {
            return Ok(());
        }
        let flags = sam_flags_set(args);
        assert(crate::text::texts(flags@).len() == flags@.len());
        if flags.len() == 0 {
            return Ok(());
        }
        let mut message =
            "\n\nERROR: SAM flags specified without --sam-enabled!\n\nThe following SAM flags were set:\n  ".to_owned();
        message.append(join(&flags, "\n  ").as_str());
        message.append(
            "\n\nBut --sam-enabled was not specified (defaults to false).\n\nTo enable SAM, add --sam-enabled to your command:\n  cargo run -p hvat_axum -- --sam-enabled ",
        );
        message.append(join(&flags, " ").as_str());
        message.append("\n\n");
        Err(message)
    }

    /// Whether this is the configuration without arguments.
    pub open spec fn is_default(self, environment: SamEnvironment<V>) -> bool {
        &&& self.port == 3000
        &&& self.data_dir@ == "./data"@
        &&& self.cache_dir@ == "./.cache/pyramids"@
        &&& self.max_cache_memory == DEFAULT_MAX_CACHE_BYTES
        &&& self.max_user_memory == DEFAULT_MAX_USER_BYTES
        &&& self.max_user_streams == 4
        &&& self.max_connections == 100
        &&& self.ping_interval_secs == 30
        &&& self.connection_timeout_secs == 90
        &&& self.stream_chunk_rows == 128
        &&& self.pyramid_concurrency == 2
        &&& self.project_name@ == "data"@
        &&& !self.sam_enabled
        &&& self.sam_model_dir == environment.default_model_dir
        &&& self.sam_variant == environment.default_variant
        &&& self.sam_provider == ExecutionProvider::Cpu
        &&& self.sam_cache_size == DEFAULT_SAM_CACHE_SIZE
    }

    /// The configuration without arguments.
    pub fn with_defaults(environment: SamEnvironment<V>) -> (config: Self)
        ensures
            config.is_default(environment),
    {
        ServerConfig {
            port: 3000,
            data_dir: "./data".to_owned(),
            cache_dir: "./.cache/pyramids".to_owned(),
            max_cache_memory: DEFAULT_MAX_CACHE_BYTES,
            max_user_memory: DEFAULT_MAX_USER_BYTES,
            max_user_streams: 4,
            max_connections: 100,
            ping_interval_secs: 30,
            connection_timeout_secs: 90,
            stream_chunk_rows: 128,
            pyramid_concurrency: 2,
            project_name: "data".to_owned(),
            sam_enabled: false,
            sam_model_dir: environment.default_model_dir,
            sam_variant: environment.default_variant,
            sam_provider: ExecutionProvider::default(),
            sam_cache_size: DEFAULT_SAM_CACHE_SIZE,
        }
    }

    /// The provider that a name asks for: `auto` is the detected one, and an
    /// unknown name the processor.
    pub open spec fn provider_for(name: Seq<char>, detected: ExecutionProvider) -> ExecutionProvider {
        if name == "auto"@ {
            detected
        } else {
            match crate::sam::provider_of(crate::text::lowercased(name)) {
                Some(provider) => provider,
                None => ExecutionProvider::Cpu,
            }
        }
    }

    /// Whether a configuration is what arguments ask for, where the variant's
    /// name was recognised as `variant` or not.
    pub open spec fn configured(
        self,
        args: CliArgs,
        variant: Option<V>,
        environment: SamEnvironment<V>,
    ) -> bool {
        &&& self.port == args.port
        &&& self.data_dir == args.data_dir
        &&& self.cache_dir == args.cache_dir
        &&& self.max_cache_memory == args.max_cache_mb * BYTES_PER_MB
        &&& self.max_user_memory == args.max_user_mb * BYTES_PER_MB
        &&& self.max_user_streams == args.max_streams
        &&& self.max_connections == args.max_connections
        &&& self.ping_interval_secs == args.ping_interval
        &&& self.connection_timeout_secs == args.connection_timeout
        &&& self.stream_chunk_rows == args.chunk_rows
        &&& self.pyramid_concurrency == if args.pyramid_concurrency == 0 {
            1
        } else {
            args.pyramid_concurrency
        }
        &&& self.project_name@ == crate::config::project_name_of(args.name, args.data_dir@)
        &&& self.sam_enabled == args.sam_enabled
        &&& self.sam_model_dir == match args.sam_model_dir {
            Some(dir) => dir,
            None => environment.default_model_dir,
        }
        &&& self.sam_variant == match variant {
            Some(known) => known,
            None => environment.default_variant,
        }
        &&& self.sam_provider == ServerConfig::<V>::provider_for(
            args.sam_provider@,
            environment.detected_provider,
        )
        &&& self.sam_cache_size == args.sam_cache_size
    }

    /// Create configuration from command line arguments. `variant` is what the
    /// variant's name was recognised as.
    pub fn from_cli(
        args: CliArgs,
        variant: Option<V>,
        environment: SamEnvironment<V>,
    ) -> (config: Self)
        requires
            flags_consistent(args),
            args.max_cache_mb * BYTES_PER_MB <= u64::MAX,
            args.max_user_mb * BYTES_PER_MB <= u64::MAX,
        ensures
            config.configured(args, variant, environment),
    {
        let project_name = project_name(args.name, args.data_dir.as_str());
        let sam_variant = match variant {
            Some(known) => known,
            None => environment.default_variant,
        };
        let sam_provider = if same_text(args.sam_provider.as_str(), "auto") {
            environment.detected_provider
        } else {
            match ExecutionProvider::from_str(args.sam_provider.as_str()) {
                Some(provider) => provider,
                None => ExecutionProvider::default(),
            }
        };
        let sam_model_dir = match args.sam_model_dir {
            Some(dir) => dir,
            None => environment.default_model_dir,
        };
        ServerConfig {
            port: args.port,
            data_dir: args.data_dir,
            cache_dir: args.cache_dir,
            max_cache_memory: args.max_cache_mb * BYTES_PER_MB,
            max_user_memory: args.max_user_mb * BYTES_PER_MB,
            max_user_streams: args.max_streams,
            max_connections: args.max_connections,
            ping_interval_secs: args.ping_interval,
            connection_timeout_secs: args.connection_timeout,
            stream_chunk_rows: args.chunk_rows,
            pyramid_concurrency: if args.pyramid_concurrency == 0 {
                1
            } else {
                args.pyramid_concurrency
            },
            project_name,
            sam_enabled: args.sam_enabled,
            sam_model_dir,
            sam_variant,
            sam_provider,
            sam_cache_size: args.sam_cache_size,
        }
    }
}

// ----------------------------------------------------------------------------
// Laws
// ----------------------------------------------------------------------------

/// A flag counts as set exactly where it differs from what it is without being given,
/// and is told with the value that it was given.
pub proof fn lemma_set_flags_are_told(args: CliArgs)
    ensures
        flags_set(args).len() == 0 <==> args.sam_variant@ == "tiny"@ && args.sam_provider@
            == "auto"@ && args.sam_model_dir is None && args.sam_cache_size == 50,
        args.sam_variant@ != "tiny"@ ==> flags_set(args)[0] == "--sam-variant="@
            + args.sam_variant@,
        args.sam_cache_size != 50 ==> flags_set(args).last() == "--sam-cache-size="@
            + crate::text::decimal(args.sam_cache_size as nat),
        args.sam_provider@ != "auto"@ ==> flags_set(args).contains(
            "--sam-provider="@ + args.sam_provider@,
        ),
        args.sam_model_dir matches Some(dir) ==> flags_set(args).contains(
            "--sam-model-dir="@ + dir@,
        ),
{
    let flags = flags_set(args);
    let first: int = if args.sam_variant@ == "tiny"@ {
        0
    } else {
        1
    };
    let second: int = if args.sam_provider@ == "auto"@ {
        first
    } else {
        first + 1
    };
    if args.sam_provider@ != "auto"@ {
        assert(flags[first] == "--sam-provider="@ + args.sam_provider@);
    }
    if let Some(dir) = args.sam_model_dir {
        assert(flags[second] == "--sam-model-dir="@ + dir@);
    }
}

/// Flags of segmentation go with segmentation: arguments that enable it are consistent,
/// whatever else they set, and others only where they set nothing of it.
pub proof fn lemma_consistent_flags(args: CliArgs)
    ensures
        args.sam_enabled ==> flags_consistent(args),
        !args.sam_enabled ==> (flags_consistent(args) <==> args.sam_variant@ == "tiny"@
            && args.sam_provider@ == "auto"@ && args.sam_model_dir is None && args.sam_cache_size
            == 50),
{
    lemma_set_flags_are_told(args);
}

/// The provider that is named is taken; without a name it is the one that was detected,
/// and for a name that none has it is the processor.
pub proof fn lemma_named_providers_are_taken(
    provider: ExecutionProvider,
    name: Seq<char>,
    detected: ExecutionProvider,
)
    ensures
        ServerConfig::<u8>::provider_for(provider.display_name(), detected) == provider,
        ServerConfig::<u8>::provider_for("auto"@, detected) == detected,
        name != "auto"@ && (forall|other: ExecutionProvider|
            crate::text::lowercased(name) != crate::text::lowercased(
                #[trigger] other.display_name(),
            )) ==> ServerConfig::<u8>::provider_for(name, detected) == ExecutionProvider::Cpu,
{
    crate::sam::lemma_provider_name_parses(provider);
    crate::sam::lemma_provider_has_one_name(crate::text::lowercased(name));
    reveal_strlit("auto");
    reveal_strlit("CPU");
    reveal_strlit("CUDA");
    reveal_strlit("ROCm");
    reveal_strlit("DirectML");
    reveal_strlit("CoreML");
    assert("auto"@[0] == 'a');
    assert(provider.display_name()[0] != 'a');
}

/// Nothing of the arguments is lost: configurations that agree come from arguments that
/// agree, but for names that mean the same and for zero jobs at a time, which count as
/// one.
pub proof fn lemma_configurations_keep_the_arguments<V>(
    config: ServerConfig<V>,
    a: CliArgs,
    b: CliArgs,
    variant: Option<V>,
    environment: SamEnvironment<V>,
)
    requires
        config.configured(a, variant, environment),
        config.configured(b, variant, environment),
    ensures
        a.port == b.port,
        a.data_dir == b.data_dir,
        a.cache_dir == b.cache_dir,
        a.max_cache_mb == b.max_cache_mb,
        a.max_user_mb == b.max_user_mb,
        a.max_streams == b.max_streams,
        a.max_connections == b.max_connections,
        a.ping_interval == b.ping_interval,
        a.connection_timeout == b.connection_timeout,
        a.chunk_rows == b.chunk_rows,
        a.sam_enabled == b.sam_enabled,
        a.sam_cache_size == b.sam_cache_size,
        a.pyramid_concurrency > 0 && b.pyramid_concurrency > 0 ==> a.pyramid_concurrency
            == b.pyramid_concurrency,
        a.sam_model_dir is Some && b.sam_model_dir is Some ==> a.sam_model_dir == b.sam_model_dir,
{
}

/// At least one pyramid is built at a time, megabytes are 1024 times 1024 bytes, and
/// what the arguments do not say is taken from the environment.
pub proof fn lemma_configured_sizes<V>(
    config: ServerConfig<V>,
    args: CliArgs,
    variant: Option<V>,
    environment: SamEnvironment<V>,
)
    requires
        config.configured(args, variant, environment),
    ensures
        config.pyramid_concurrency >= 1,
        args.pyramid_concurrency >= 1 ==> config.pyramid_concurrency == args.pyramid_concurrency,
        config.max_cache_memory == args.max_cache_mb * 1024 * 1024,
        config.max_user_memory == args.max_user_mb * 1024 * 1024,
        args.max_user_mb == 500 ==> config.max_user_memory == DEFAULT_MAX_USER_BYTES,
        args.sam_model_dir matches Some(dir) ==> config.sam_model_dir == dir,
        args.sam_model_dir is None ==> config.sam_model_dir == environment.default_model_dir,
        variant matches Some(known) ==> config.sam_variant == known,
        variant is None ==> config.sam_variant == environment.default_variant,
{
}

/// Without arguments both servers are configured alike in what they share. The one that
/// could segment does not until it is told to, builds pyramids, and keeps embeddings.
pub proof fn lemma_default_configs_agree<V>(
    config: ServerConfig<V>,
    environment: SamEnvironment<V>,
    plain: crate::config::ServerConfig,
)
    requires
        config.is_default(environment),
        crate::config::is_default_config(plain),
    ensures
        config.port == plain.port,
        config.data_dir@ == plain.data_dir@,
        config.cache_dir@ == plain.cache_dir@,
        config.max_cache_memory == plain.max_cache_memory,
        config.max_user_streams == plain.max_user_streams,
        config.max_connections == plain.max_connections,
        config.ping_interval_secs == plain.ping_interval_secs,
        config.connection_timeout_secs == plain.connection_timeout_secs,
        config.stream_chunk_rows == plain.stream_chunk_rows,
        config.project_name@ == plain.project_name@,
        !config.sam_enabled,
        config.pyramid_concurrency >= 1,
        config.sam_cache_size >= 1,
        config.max_user_memory == 500 * 1024 * 1024,
        config.max_user_memory <= config.max_cache_memory,
{
}

/// A user is told every flag that was set in vain.
pub proof fn lemma_message_names_the_flags(flags: Seq<Seq<char>>, k: int)
    requires
        0 <= k < flags.len(),
    ensures
        exists|i: int| #[trigger] crate::text::occurs_at(flags_message(flags), flags[k], i),
{
    let joined = crate::text::join_spec(flags, "\n  "@);
    crate::text::lemma_joined_parts_occur(flags, "\n  "@, k);
    let at = choose|i: int| #[trigger] crate::text::occurs_at(joined, flags[k], i);
    let start = "\n\nERROR: SAM flags specified without --sam-enabled!\n\nThe following SAM flags were set:\n  "@;
    let message = flags_message(flags);
    let i = start.len() + at;
    assert(message.subrange(i, i + flags[k].len()) =~= joined.subrange(at, at + flags[k].len()));
    assert(crate::text::occurs_at(message, flags[k], i));
}

} // verus!
