//! One-time import of the earlier file-tree storage: the pure part, reading
//! its JSONC files.

use vstd::prelude::*;

use crate::jsonc::{clean_jsonc, strip_jsonc_spec};

verus! {

/// Directory of the API-management module under the data root.
pub const MODULE_DIR: &'static str = "api-mgmt";

/// Workspace file under the data root.
pub const WORKSPACE_FILE: &'static str = "workspace.json";

/// Removes JSONC comments and trailing commas, keeping strings as they are.
pub fn strip_jsonc(src: &str) -> (r: String)
    ensures
        r@ == strip_jsonc_spec(src@),
{
    clean_jsonc(src)
}

} // verus!
