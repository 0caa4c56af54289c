//! Server configuration, from defaults and from command line arguments.

use vstd::prelude::*;

use crate::paths::file_name;

verus! {

pub const BYTES_PER_MB: u64 = 1_048_576;

pub const DEFAULT_MAX_CACHE_BYTES: u64 = 2_147_483_648;

/// Shared base command line arguments.
#[derive(Debug)]
pub struct BaseCliArgs {
    /// Port to listen on.
    pub port: u16,
    /// Root directory containing images to serve.
    pub data_dir: String,
    /// Directory for pyramid cache.
    pub cache_dir: String,
    /// Maximum total memory for pyramid cache in MB.
    pub max_cache_mb: u64,
    /// Maximum concurrent streams per connection.
    pub max_streams: usize,
    /// Maximum total WebSocket connections.
    pub max_connections: usize,
    /// WebSocket ping interval in seconds (0 to disable).
    pub ping_interval: u64,
    /// WebSocket connection timeout in seconds (no pong response).
    pub connection_timeout: u64,
    /// Number of rows to send per WebSocket message.
    pub chunk_rows: u32,
    /// Project name. Defaults to the data directory name.
    pub name: Option<String>,
}

/// Command line arguments of the simple server.
#[derive(Debug)]
pub struct CliArgs {
    pub base: BaseCliArgs,
}

/// Server configuration.
#[derive(Debug)]
pub struct ServerConfig {
    /// Port to listen on.
    pub port: u16,
    /// Root directory for images.
    pub data_dir: String,
    /// Directory for pyramid cache.
    pub cache_dir: String,
    /// Maximum total memory for pyramid cache in bytes.
    pub max_cache_memory: u64,
    /// Maximum concurrent streams per connection.
    pub max_user_streams: usize,
    /// Maximum total WebSocket connections.
    pub max_connections: usize,
    /// WebSocket ping interval in seconds.
    pub ping_interval_secs: u64,
    /// WebSocket connection timeout in seconds.
    pub connection_timeout_secs: u64,
    /// Number of rows to send per WebSocket message.
    pub stream_chunk_rows: u32,
    /// Project name (display name).
    pub project_name: String,
}

/// The name of a project: the given one, else that of the data directory, else
/// `project`.
pub open spec fn project_name_of(name: Option<String>, data_dir: Seq<char>) -> Seq<char> {
    match name {
        Some(given) => given@,
        None => match crate::paths::file_name_spec(data_dir) {
            Some(last) => last,
            None => "project"@,
        },
    }
}

/// The name of a project: the given one, else that of the data directory, else
/// `project`.
pub fn project_name(name: Option<String>, data_dir: &str) -> (out: String)
    ensures
        out@ == project_name_of(name, data_dir@),
{
    match name {
        Some(given) => given,
        None => match file_name(data_dir) {
            Some(last) => last,
            None => "project".to_owned(),
        },
    }
}

/// Whether this is the configuration without arguments.
pub open spec fn is_default_config(config: ServerConfig) -> bool {
    &&& config.port == 3000
    &&& config.data_dir@ == "./data"@
    &&& config.cache_dir@ == "./.cache/pyramids"@
    &&& config.max_cache_memory == DEFAULT_MAX_CACHE_BYTES
    &&& config.max_user_streams == 4
    &&& config.max_connections == 100
    &&& config.ping_interval_secs == 30
    &&& config.connection_timeout_secs == 90
    &&& config.stream_chunk_rows == 128
    &&& config.project_name@ == "data"@
}

/// Without arguments a server works: it sends pings, and gives clients three times as long
/// to answer; it takes connections and streams on them; messages hold rows; the cache
/// holds two gibibytes; and the project is called by its directory.
pub proof fn lemma_default_config_works(config: ServerConfig)
    requires
        is_default_config(config),
    ensures
        config.ping_interval_secs > 0,
        config.connection_timeout_secs == 3 * config.ping_interval_secs,
        config.max_connections >= config.max_user_streams >= 1,
        config.stream_chunk_rows >= 1,
        config.max_cache_memory == 2 * 1024 * 1024 * 1024,
        config.project_name@ == project_name_of(None, config.data_dir@),
        config.data_dir@ != config.cache_dir@,
{
    reveal_strlit("./data");
    reveal_strlit("data");
    reveal_strlit("./.cache/pyramids");
    let dir = seq!['.'];
    let name = "data"@;
    assert(crate::paths::join_spec(dir, name) =~= "./data"@);
    assert forall|i: int| 0 <= i < name.len() implies name[i] != '/' by {}
    assert(name.len() == 4);
    crate::paths::lemma_file_name_of_joined(dir, name);
}

impl Default for ServerConfig {
    fn default() -> (config: Self)
        ensures
            is_default_config(config),
    {
        ServerConfig {
            port: 3000,
            data_dir: "./data".to_owned(),
            cache_dir: "./.cache/pyramids".to_owned(),
            max_cache_memory: DEFAULT_MAX_CACHE_BYTES,
            max_user_streams: 4,
            max_connections: 100,
            ping_interval_secs: 30,
            connection_timeout_secs: 90,
            stream_chunk_rows: 128,
            project_name: "data".to_owned(),
        }
    }
}

impl ServerConfig {
    /// Whether a configuration is what arguments ask for.
    pub open spec fn configured(self, args: BaseCliArgs) -> bool {
        &&& self.port == args.port
        &&& self.data_dir == args.data_dir
        &&& self.cache_dir == args.cache_dir
        &&& self.max_cache_memory == args.max_cache_mb * BYTES_PER_MB
        &&& self.max_user_streams == args.max_streams
        &&& self.max_connections == args.max_connections
        &&& self.ping_interval_secs == args.ping_interval
        &&& self.connection_timeout_secs == args.connection_timeout
        &&& self.stream_chunk_rows == if args.chunk_rows == 0 {
            1
        } else {
            args.chunk_rows
        }
        &&& self.project_name@ == project_name_of(args.name, args.data_dir@)
    }

    /// Create configuration from command line arguments.
    pub fn from_cli(args: CliArgs) -> (config: Self)
        requires
            args.base.max_cache_mb * BYTES_PER_MB <= u64::MAX,
        ensures
            config.configured(args.base),
    {
        ServerConfig::from_base_cli(args.base)
    }

    /// Create configuration from shared base command line arguments.
    pub fn from_base_cli(args: BaseCliArgs) -> (config: Self)
        requires
            args.max_cache_mb * BYTES_PER_MB <= u64::MAX,
        ensures
            config.configured(args),
    {
        let project_name = project_name(args.name, args.data_dir.as_str());
        ServerConfig {
            port: args.port,
            data_dir: args.data_dir,
            cache_dir: args.cache_dir,
            max_cache_memory: args.max_cache_mb * BYTES_PER_MB,
            max_user_streams: args.max_streams,
            max_connections: args.max_connections,
            ping_interval_secs: args.ping_interval,
            connection_timeout_secs: args.connection_timeout,
            stream_chunk_rows: if args.chunk_rows == 0 {
                1
            } else {
                args.chunk_rows
            },
            project_name,
        }
    }
}

/// Nothing of the arguments is lost: configurations that agree come from arguments that
/// agree, but for the name of the project and for zero rows, which count as one.
pub proof fn lemma_configurations_keep_the_arguments(
    config: ServerConfig,
    a: BaseCliArgs,
    b: BaseCliArgs,
)
    requires
        config.configured(a),
        config.configured(b),
    ensures
        a.port == b.port,
        a.data_dir == b.data_dir,
        a.cache_dir == b.cache_dir,
        a.max_cache_mb == b.max_cache_mb,
        a.max_streams == b.max_streams,
        a.max_connections == b.max_connections,
        a.ping_interval == b.ping_interval,
        a.connection_timeout == b.connection_timeout,
        a.chunk_rows > 0 && b.chunk_rows > 0 ==> a.chunk_rows == b.chunk_rows,
{
}

/// A configuration can stream: each message holds at least one row, as many as were
/// asked for; and a megabyte of cache is 1024 times 1024 bytes.
pub proof fn lemma_configured_sizes(config: ServerConfig, args: BaseCliArgs)
    requires
        config.configured(args),
    ensures
        config.stream_chunk_rows >= 1,
        args.chunk_rows >= 1 ==> config.stream_chunk_rows == args.chunk_rows,
        config.max_cache_memory == args.max_cache_mb * 1024 * 1024,
        args.max_cache_mb == 2048 ==> config.max_cache_memory == DEFAULT_MAX_CACHE_BYTES,
{
}

/// Each argument goes to the setting of its name: changing one changes that setting.
pub proof fn lemma_arguments_are_settings(
    config: ServerConfig,
    args: BaseCliArgs,
    changed: BaseCliArgs,
    other: ServerConfig,
)
    requires
        config.configured(args),
        other.configured(changed),
        changed == (BaseCliArgs {
            port: changed.port,
            max_streams: changed.max_streams,
            ping_interval: changed.ping_interval,
            ..args
        }),
    ensures
        other.port == changed.port,
        other.max_user_streams == changed.max_streams,
        other.ping_interval_secs == changed.ping_interval,
        other.max_connections == config.max_connections,
        other.connection_timeout_secs == config.connection_timeout_secs,
        other.max_cache_memory == config.max_cache_memory,
        other.data_dir == config.data_dir,
        other.cache_dir == config.cache_dir,
        other.project_name@ == config.project_name@,
{
}

/// A project is called by the name that was given, whatever its directory; without one,
/// by the last part of its directory.
pub proof fn lemma_given_names_go_first(name: String, data_dir: Seq<char>)
    ensures
        project_name_of(Some(name), data_dir) == name@,
        crate::paths::file_name_spec(data_dir) matches Some(last) ==> project_name_of(
            None,
            data_dir,
        ) == last,
        crate::paths::file_name_spec(data_dir) is None ==> project_name_of(None, data_dir)
            == "project"@,
{
}

} // verus!
