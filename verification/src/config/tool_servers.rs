//! Servers of tools: what is configured of them.
use crate::config::session::{distinct, variables_view};
use vstd::prelude::*;
use vstd::string::*;

verus! {

/// A hook that runs with a server.
#[derive(Debug, PartialEq, Eq)]
pub struct HookEntry {
    pub command: String,
    pub status_message: Option<String>,
    pub async_hook: Option<bool>,
}

/// The hooks of a server.
#[derive(Debug, PartialEq, Eq)]
pub struct HooksConfig {
    pub max_resume: Option<u32>,
    pub entries: Vec<HookEntry>,
}

/// A server of tools that runs as a process of its own.
#[derive(Debug, PartialEq, Eq)]
pub struct ToolServerConfig {
    /// Its name, which is that of its file.
    pub name: String,
    pub command: String,
    pub args: Vec<String>,
    pub env: Vec<(String, String)>,
    /// Whether it is started.
    pub enabled: bool,
    pub description: Option<String>,
    /// The package that it came with.
    pub package: Option<String>,
    pub hooks: Option<HooksConfig>,
}

/// A server is started unless its file says otherwise.
pub fn default_true() -> (r: bool)
    ensures
        r,
{
    true
}

impl ToolServerConfig {
    /// Each variable of its environment has one value.
    pub open spec fn well_formed(&self) -> bool {
        distinct(variables_view(self.env@))
    }

    /// A server of which nothing is said but how to start it.
    pub fn minimal(command: String) -> (r: ToolServerConfig)
        ensures
            r.well_formed(),
            r.name@ == ""@,
            r.command == command,
            r.args@.len() == 0,
            r.env@.len() == 0,
            r.enabled,
            r.description is None,
            r.package is None,
            r.hooks is None,
    {
        ToolServerConfig {
            name: String::from_str(""),
            command,
            args: Vec::new(),
            env: Vec::new(),
            enabled: default_true(),
            description: None,
            package: None,
            hooks: None,
        }
    }
}

/// Takes the server that a file describes into the list, under the name of the file. A file
/// without a name is passed over.
pub fn take_tool_server(
    servers: &mut Vec<ToolServerConfig>,
    stem: Option<&str>,
    server: ToolServerConfig,
)
    ensures
        if stem is Some && stem->0@.len() > 0 {
            &&& final(servers)@.len() == old(servers)@.len() + 1
            &&& final(servers)@.take(old(servers)@.len() as int) == old(servers)@
            &&& final(servers)@.last().name@ == stem->0@
            &&& final(servers)@.last() == (ToolServerConfig {
                name: final(servers)@.last().name,
                ..server
            })
            &&& server.well_formed() ==> final(servers)@.last().well_formed()
        } else {
            final(servers)@ == old(servers)@
        },
{
    match stem {
        Some(stem) => {
            if !stem.is_empty() {
                let mut named = server;
                named.name = String::from_str(stem);
                servers.push(named);
                assert(servers@.take(old(servers)@.len() as int) =~= old(servers)@);
            }
        },
        None => {},
    }
}

} // verus!
