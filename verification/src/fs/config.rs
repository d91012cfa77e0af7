//! The settings a file system is described by.
use vstd::prelude::*;

verus! {

/// A file system's name, version, the paths it starts from and the paths
/// it leaves out.
pub struct FSConfig {
    pub name: String,
    pub version: String,
    pub entry_points: Vec<String>,
    pub ignore: Vec<String>,
}

} // verus!
