//! The settings of the server.

use vstd::prelude::*;

use crate::analyze::MAX_SOURCE_BYTES;

verus! {

broadcast use vstd::string::group_string_axioms;

/// How clients reach the server.
#[derive(Debug, Clone, Copy, PartialEq, Eq, Structural)]
pub enum Transport {
    Stdio,
    Http,
}

pub const DEFAULT_BIND: &'static str = "127.0.0.1:8080";

pub const DEFAULT_MAX_CONCURRENT_BUILDS: usize = 1;

pub const DEFAULT_MAX_QUEUED_BUILDS: usize = 8;

pub const DEFAULT_COMPILE_TIMEOUT: u64 = 900;

pub const DEFAULT_TASK_TTL: u64 = 900;

pub const DEFAULT_MAX_TASK_TTL: u64 = 3600;

pub const DEFAULT_COMPACT_BIN: &'static str = "compact";

/// Room for a source of the largest size, with every character of it escaped.
pub const DEFAULT_MAX_HTTP_BODY_BYTES: usize = 4 * MAX_SOURCE_BYTES;

/// The settings of the server. Times are in seconds.
#[derive(Debug)]
pub struct Config {
    pub transport: Transport,
    /// The root directory. No tool may touch a path outside it.
    pub workspace_root: Option<String>,
    pub bind: String,
    /// Required to bind an address that is not a loopback. There is no authorization.
    pub allow_insecure_bind: bool,
    /// Offers the tools that install and remove compilers.
    pub allow_toolchain_mutation: bool,
    pub max_concurrent_builds: usize,
    pub max_queued_builds: usize,
    pub compile_timeout: u64,
    pub default_task_ttl: u64,
    pub max_task_ttl: u64,
    /// Pins the compiler.
    pub compiler_version: Option<String>,
    pub compact_bin: String,
    /// The largest request body that is read.
    pub max_http_body_bytes: usize,
}

impl Default for Config {
    fn default() -> (r: Config)
        ensures
            r.transport == Transport::Stdio,
            r.workspace_root is None,
            r.bind@ == DEFAULT_BIND@,
            !r.allow_insecure_bind,
            !r.allow_toolchain_mutation,
            r.max_concurrent_builds == DEFAULT_MAX_CONCURRENT_BUILDS,
            r.max_queued_builds == DEFAULT_MAX_QUEUED_BUILDS,
            r.compile_timeout == DEFAULT_COMPILE_TIMEOUT,
            r.default_task_ttl == DEFAULT_TASK_TTL,
            r.max_task_ttl == DEFAULT_MAX_TASK_TTL,
            r.compiler_version is None,
            r.compact_bin@ == DEFAULT_COMPACT_BIN@,
            r.max_http_body_bytes == DEFAULT_MAX_HTTP_BODY_BYTES,
            r.bind@ == "127.0.0.1:8080"@,
            r.max_concurrent_builds == 1,
            r.max_queued_builds == 8,
            r.compile_timeout == 900,
            r.default_task_ttl == 900,
            r.max_task_ttl == 3600,
            r.compact_bin@ == "compact"@,
            r.max_http_body_bytes == 8_388_608,
    {
        Config {
            transport: Transport::Stdio,
            workspace_root: None,
            bind: DEFAULT_BIND.to_owned(),
            allow_insecure_bind: false,
            allow_toolchain_mutation: false,
            max_concurrent_builds: DEFAULT_MAX_CONCURRENT_BUILDS,
            max_queued_builds: DEFAULT_MAX_QUEUED_BUILDS,
            compile_timeout: DEFAULT_COMPILE_TIMEOUT,
            default_task_ttl: DEFAULT_TASK_TTL,
            max_task_ttl: DEFAULT_MAX_TASK_TTL,
            compiler_version: None,
            compact_bin: DEFAULT_COMPACT_BIN.to_owned(),
            max_http_body_bytes: DEFAULT_MAX_HTTP_BODY_BYTES,
        }
    }
}

/// Where the workspace root comes from.
#[derive(Debug)]
pub enum RootChoice {
    Given(String),
    /// The directory the server was started in.
    CurrentDir,
}

impl Config {
    /// The workspace root: the one that was given; without one, the current directory for a
    /// client that started the server itself, and a refusal for any other.
    pub fn resolved_workspace_root(&self) -> (r: Result<RootChoice, String>)
        ensures
            match self.workspace_root {
                Some(p) => r matches Ok(RootChoice::Given(q)) && q@ == p@,
                None => match self.transport {
                    Transport::Stdio => r matches Ok(RootChoice::CurrentDir),
                    Transport::Http => r matches Err(m) && m@
                        == "--workspace-root is required with --transport http"@,
                },
            },
    {
        match &self.workspace_root {
            Some(p) => Ok(RootChoice::Given(p.as_str().to_owned())),
            None => match self.transport {
                Transport::Stdio => Ok(RootChoice::CurrentDir),
                Transport::Http => Err(
                    "--workspace-root is required with --transport http".to_owned(),
                ),
            },
        }
    }
}

} // verus!
