use vstd::prelude::*;

verus! {

/// Which store backs one invocation of the tool.
#[derive(Clone, Copy, Debug, PartialEq, Eq, Structural)]
pub enum StoreRoot {
    /// The per-user store under the home directory.
    Global,
    /// The store under the detected version-control root.
    Project,
}

/// Decides which store backs this invocation: the global per-user store
/// when asked for explicitly, else the project store of the detected
/// version-control root, with the global store as the fallback when no
/// root was detected.
pub fn resolve_store_root(global: bool, vcs_root_detected: bool) -> (r: StoreRoot)
    ensures
        global ==> r == StoreRoot::Global,
        !global && vcs_root_detected ==> r == StoreRoot::Project,
        !global && !vcs_root_detected ==> r == StoreRoot::Global,
{
    if global {
        StoreRoot::Global
    } else if vcs_root_detected {
        StoreRoot::Project
    } else {
        StoreRoot::Global
    }
}

/// The fixed directory name of a store, under the chosen root.
pub fn store_folder_name() -> (r: &'static str)
    ensures
        r@ == ".cltodo"@,
{
    ".cltodo"
}

/// The fixed database file name within the store directory.
pub fn store_file_name() -> (r: &'static str)
    ensures
        r@ == "data.db"@,
{
    "data.db"
}

} // verus!
