//! What the multiplexer reports about its own state.
use std::collections::BTreeMap;

use vstd::prelude::*;

verus! {

/// A client of an instance.
#[derive(Debug, PartialEq, Eq)]
pub struct Client {
    pub id: usize,
    /// URIs of the files that the client has open.
    pub files: Vec<String>,
}

/// The workspace directory of an instance.
#[derive(Debug, PartialEq, Eq)]
pub struct WorkspaceRoot {
    pub path: String,
    pub device_id: u64,
    pub file_id: u64,
}

/// A language server instance.
#[derive(Debug, PartialEq, Eq)]
pub struct Instance {
    pub pid: u32,
    pub server: String,
    pub args: Vec<String>,
    pub env: BTreeMap<String, String>,
    pub workspace_root: WorkspaceRoot,
    /// Seconds since the instance was last used.
    pub idle_for: i64,
    pub clients: Vec<Client>,
    /// The methods of the capabilities that the server registered while
    /// running.
    pub registered_dyn_capabilities: Vec<String>,
}

} // verus!
