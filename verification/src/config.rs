//! What the caller chooses about a construction.

use vstd::prelude::*;

verus! {

/// The caller's choices.
#[derive(Clone, Copy, Debug, PartialEq, Eq, Structural)]
pub struct Config {
    /// Whether the caller wants diagnostics. The library prints nothing
    /// itself; the flag is carried for the code around it.
    pub verbose: bool,
    /// Whether only the workspace members are wanted, without their
    /// dependencies.
    pub omit_deps: bool,
}

} // verus!
