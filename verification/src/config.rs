//! Server configuration (`config.toml`): the sections and the values the
//! server derives from them at startup.

use vstd::prelude::*;
use crate::text::{chars_of, string_of, trim, trim_ws};

verus! {

/// Root config file shape.
pub struct Config {
    pub server: ServerSection,
    pub mcp: Option<McpSection>,
}

/// Optional `[mcp]` section; without `listen` the MCP listener stays off.
pub struct McpSection {
    /// e.g. `127.0.0.1:3031`.
    pub listen: Option<String>,
    /// Path of a deployment-specific help text, read at startup.
    pub server_help: Option<String>,
}

/// `[server]` section.
pub struct ServerSection {
    /// `host:port`, e.g. `127.0.0.1:3050`.
    pub listen: String,
    pub database_path: String,
    pub index_dir: String,
    /// Runtime worker threads; `0` means one per available core.
    pub workers: u32,
    /// Long-poll `wait` ceiling in seconds.
    pub timeout: u64,
}

/// The `timeout` used when the file leaves it out: one hour.
pub fn default_timeout_secs() -> (t: u64)
    ensures
        t == 3600,
{
    3600
}

impl Default for McpSection {
    /// An empty section: no listener, no help text.
    fn default() -> (m: Self)
        ensures
            m.listen is None,
            m.server_help is None,
    {
        McpSection { listen: None, server_help: None }
    }
}

impl ServerSection {
    /// Worker threads for the runtime: `workers`, or `available` cores when it is 0.
    pub fn worker_threads(&self, available: usize) -> (n: usize)
        ensures
            self.workers == 0 ==> n == available,
            self.workers != 0 ==> n == self.workers,
    {
        if self.workers == 0 {
            available
        } else {
            self.workers as usize
        }
    }

    /// The long-poll ceiling in seconds, never below one.
    pub fn wait_timeout_secs(&self) -> (t: u64)
        ensures
            t == if self.timeout == 0 { 1 } else { self.timeout },
    {
        if self.timeout < 1 {
            1
        } else {
            self.timeout
        }
    }
}

impl Config {
    /// The MCP listen address, when the `[mcp]` section names one.
    pub fn mcp_listen(&self) -> (r: Option<String>)
        ensures
            match r {
                Some(s) => self.mcp matches Some(m) && m.listen matches Some(l) && s@ == l@,
                None => !(self.mcp matches Some(m) && m.listen is Some),
            },
    {
        match &self.mcp {
            Some(m) => match &m.listen {
                Some(l) => Some(string_of(chars_of(l.as_str()).as_slice())),
                None => None,
            },
            None => None,
        }
    }
}

/// The config path: the `TABULARIUM_CONFIG` value when it is not blank
/// (trimmed), else the command-line path.
pub open spec fn spec_config_path(env_value: Option<Seq<char>>, cli_path: Seq<char>) -> Seq<char> {
    match env_value {
        Some(v) => if trim(v).len() > 0 {
            trim(v)
        } else {
            cli_path
        },
        None => cli_path,
    }
}

pub fn config_path(env_value: Option<&str>, cli_path: &str) -> (r: String)
    ensures
        r@ == spec_config_path(crate::shell_path::opt_view(env_value), cli_path@),
{
    match env_value {
        Some(v) => {
            let t = trim_ws(chars_of(v).as_slice());
            if t.len() > 0 {
                string_of(t.as_slice())
            } else {
                string_of(chars_of(cli_path).as_slice())
            }
        },
        None => string_of(chars_of(cli_path).as_slice()),
    }
}

} // verus!
