//! The file-tree layout of the earlier storage format: its records and the
//! pure rules it used (tab ids, keys, JSONC clean-up).

use vstd::prelude::*;

use crate::domain::{is_lower_key, lowercase, sanitize_lowered_spec};
use crate::jsonc::{clean_jsonc, strip_jsonc_spec};
use crate::text::trim;

verus! {

/// Directory of the API-management module under the data root.
pub const MODULE_DIR: &'static str = "api-mgmt";

/// Version stamp of the file format.
pub const SCHEMA_VERSION: u32 = 1;

#[derive(Debug, Clone, Default)]
pub struct TeamInfo {
    pub key: String,
    pub name: String,
}

#[derive(Debug, Clone, Default)]
pub struct ProjectInfo {
    pub key: String,
    pub name: String,
}

#[derive(Debug, Clone, Default)]
pub struct OpenTab {
    pub team_key: String,
    pub project_key: String,
}

impl OpenTab {
    /// The tab id: `project:<team>:<project>`.
    pub fn id(&self) -> (r: String)
        ensures
            r@ == "project:"@ + self.team_key@ + ":"@ + self.project_key@,
    {
        let t = crate::domain::OpenTab {
            team_key: self.team_key.clone(),
            project_key: self.project_key.clone(),
        };
        t.id()
    }
}

#[derive(Debug, Clone, Default)]
pub struct WorkspaceState {
    pub version: u32,
    pub open_tabs: Vec<OpenTab>,
    pub active_tab: Option<String>,
}

impl WorkspaceState {
    /// A fresh workspace: current schema version, no tabs, no active tab.
    pub fn new() -> (r: WorkspaceState)
        ensures
            r.version == SCHEMA_VERSION,
            r.open_tabs@.len() == 0,
            r.active_tab.is_none(),
    {
        WorkspaceState { version: SCHEMA_VERSION, open_tabs: Vec::new(), active_tab: None }
    }
}

/// Turns arbitrary text into a directory key (see `domain::sanitize_key`).
pub fn sanitize_key(raw: &str) -> (r: String)
    ensures
        r@ == sanitize_lowered_spec(lowercase(trim(raw@))),
        is_lower_key(r@),
        trim(r@) == r@,
        is_lower_key(trim(raw@)) ==> r@ == trim(raw@),
{
    crate::domain::sanitize_key(raw)
}

/// Removes JSONC comments and trailing commas, keeping strings as they are.
pub fn strip_jsonc(src: &str) -> (r: String)
    ensures
        r@ == strip_jsonc_spec(src@),
{
    clean_jsonc(src)
}

} // verus!
