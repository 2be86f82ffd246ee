//! What the daemon decides at startup: where its lock and state files live,
//! which components it supervises, with which delays, and what it reports
//! when another instance holds the lock.

use vstd::prelude::*;
use vstd::string::StrSliceExecFns;
use crate::health::{structured_error, structured_error_text};

verus! {

/// Credentials of one channel adapter.
pub struct ChannelAdapterConfig {
    pub bot_token: String,
    pub allowed_users: Vec<String>,
}

/// The real-time channel adapters that may be configured.
pub struct ChannelsConfig {
    pub telegram: Option<ChannelAdapterConfig>,
    pub discord: Option<ChannelAdapterConfig>,
    pub slack: Option<ChannelAdapterConfig>,
    pub imessage: Option<ChannelAdapterConfig>,
    pub matrix: Option<ChannelAdapterConfig>,
}

/// Restart delays of supervised components, in seconds.
pub struct ReliabilityConfig {
    pub channel_initial_backoff_secs: u64,
    pub channel_max_backoff_secs: u64,
}

/// The periodic heartbeat worker.
pub struct HeartbeatConfig {
    pub enabled: bool,
    pub interval_minutes: u32,
}

/// What the daemon reads from its configuration.
pub struct DaemonConfig {
    /// The directory that holds the configuration file.
    pub config_dir: String,
    pub channels_config: ChannelsConfig,
    pub heartbeat: HeartbeatConfig,
    pub reliability: ReliabilityConfig,
}

impl Default for ChannelsConfig {
    fn default() -> (r: Self)
        ensures
            r.telegram is None && r.discord is None && r.slack is None && r.imessage is None && r.matrix is None,
    {
        ChannelsConfig { telegram: None, discord: None, slack: None, imessage: None, matrix: None }
    }
}

impl Default for DaemonConfig {
    fn default() -> (r: Self)
        ensures
            r.config_dir@ == "."@,
            r.channels_config.telegram is None && r.channels_config.discord is None && r.channels_config.slack is None
                && r.channels_config.imessage is None && r.channels_config.matrix is None,
            !r.heartbeat.enabled,
            r.heartbeat.interval_minutes == 30,
            r.reliability.channel_initial_backoff_secs == 2,
            r.reliability.channel_max_backoff_secs == 60,
    {
        DaemonConfig {
            config_dir: String::from_str("."),
            channels_config: ChannelsConfig { telegram: None, discord: None, slack: None, imessage: None, matrix: None },
            heartbeat: HeartbeatConfig { enabled: false, interval_minutes: 30 },
            reliability: ReliabilityConfig { channel_initial_backoff_secs: 2, channel_max_backoff_secs: 60 },
        }
    }
}

/// `file` inside directory `dir`, joined as a relative path is.
pub open spec fn path_join(dir: Seq<char>, file: Seq<char>) -> Seq<char> {
    if dir.len() == 0 {
        file
    } else if dir.last() == '/' {
        dir + file
    } else {
        dir + "/"@ + file
    }
}

fn join_path(dir: &str, file: &str) -> (r: String)
    ensures
        r@ == path_join(dir@, file@),
{
    let n = dir.unicode_len();
    if n == 0 {
        String::from_str(file)
    } else if dir.get_char(n - 1) == '/' {
        String::from_str(dir).concat(file)
    } else {
        String::from_str(dir).concat("/").concat(file)
    }
}

/// Where the health snapshot is written: `daemon_state.json` in the
/// configuration directory.
pub fn state_file_path(config: &DaemonConfig) -> (r: String)
    ensures
        r@ == path_join(config.config_dir@, "daemon_state.json"@),
{
    join_path(config.config_dir.as_str(), "daemon_state.json")
}

/// The file whose exclusive lock marks the running instance: `daemon.lock`
/// in the configuration directory.
pub fn lock_file_path(config: &DaemonConfig) -> (r: String)
    ensures
        r@ == path_join(config.config_dir@, "daemon.lock"@),
{
    join_path(config.config_dir.as_str(), "daemon.lock")
}

pub open spec fn has_channels_spec(c: ChannelsConfig) -> bool {
    c.telegram is Some || c.discord is Some || c.slack is Some || c.imessage is Some || c.matrix is Some
}

/// Whether any real-time channel adapter is configured.
pub fn has_supervised_channels(config: &DaemonConfig) -> (r: bool)
    ensures
        r == has_channels_spec(config.channels_config),
{
    let c = &config.channels_config;
    c.telegram.is_some() || c.discord.is_some() || c.slack.is_some() || c.imessage.is_some() || c.matrix.is_some()
}

/// The restart delays of supervised components: the first at least one
/// second, the largest at least the first.
pub fn backoff_bounds(config: &DaemonConfig) -> (r: (u64, u64))
    ensures
        r.0 == if config.reliability.channel_initial_backoff_secs < 1 { 1 } else { config.reliability.channel_initial_backoff_secs },
        r.1 == if config.reliability.channel_max_backoff_secs < r.0 { r.0 } else { config.reliability.channel_max_backoff_secs },
{
    let initial = if config.reliability.channel_initial_backoff_secs < 1 {
        1
    } else {
        config.reliability.channel_initial_backoff_secs
    };
    let max = if config.reliability.channel_max_backoff_secs < initial {
        initial
    } else {
        config.reliability.channel_max_backoff_secs
    };
    (initial, max)
}

/// The names of the components that run under a supervisor, in start order:
/// the gateway; the channels if any adapter is configured; the heartbeat if
/// enabled; the scheduler.
pub open spec fn supervised_spec(config: DaemonConfig) -> Seq<Seq<char>> {
    seq!["gateway"@] + (if has_channels_spec(config.channels_config) { seq!["channels"@] } else { Seq::empty() })
        + (if config.heartbeat.enabled { seq!["heartbeat"@] } else { Seq::empty() }) + seq!["scheduler"@]
}

/// Lists the components to supervise.
pub fn supervised_components(config: &DaemonConfig) -> (r: Vec<String>)
    ensures
        r@.map_values(|s: String| s@) == supervised_spec(*config),
{
    let mut v: Vec<String> = Vec::new();
    v.push(String::from_str("gateway"));
    if has_supervised_channels(config) {
        v.push(String::from_str("channels"));
    }
    if config.heartbeat.enabled {
        v.push(String::from_str("heartbeat"));
    }
    v.push(String::from_str("scheduler"));
    assert(v@.map_values(|s: String| s@) =~= supervised_spec(*config));
    v
}

/// The message reported when the lock at `lock_path` is held by another
/// instance.
pub fn lock_conflict_message(lock_path: &str) -> (r: String)
    ensures
        r@ == structured_error_text(
            "Failed to start daemon"@,
            "another instance holds the lock ("@ + lock_path@ + ")"@,
            "stop the existing daemon with Ctrl+C or remove the lock file"@,
        ),
{
    let why = String::from_str("another instance holds the lock (").concat(lock_path).concat(")");
    structured_error("Failed to start daemon", why.as_str(), "stop the existing daemon with Ctrl+C or remove the lock file")
}

} // verus!
