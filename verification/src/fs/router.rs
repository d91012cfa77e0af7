//! What the file system's start command says before its runtime begins.
use vstd::prelude::*;

verus! {

/// The command that starts the file system.
pub struct VFSStart;

/// The first line the start command prints.
pub open spec fn start_banner(verbose: bool) -> Seq<char> {
    if verbose {
        "\u{1F680} VFS starting (verbose mode)"@
    } else {
        "\u{1F680} VFS starting"@
    }
}

impl VFSStart {
    /// The line announcing the start, which names verbose mode when it is
    /// on.
    pub fn banner(&self, verbose: bool) -> (r: String)
        ensures
            r@ == start_banner(verbose),
    {
        if verbose {
            String::from_str("\u{1F680} VFS starting (verbose mode)")
        } else {
            String::from_str("\u{1F680} VFS starting")
        }
    }
}

} // verus!
