use vstd::prelude::*;

verus! {

/// The policy of a run.
#[derive(Clone, Copy, Debug, PartialEq, Eq, Structural)]
pub enum Mode {
    /// Only reports the state of the targets.
    Dry,
    /// Links only when no target exists at all.
    Strict,
    /// Fills in the missing targets and leaves the existing ones alone.
    Lazy,
    /// Replaces every target, keeping a backup of what stood there.
    Force,
}

/// The arguments of a run: the linkfile to read and the policy.
#[derive(Clone, Debug)]
pub struct Cli {
    pub linkfile: String,
    pub mode: Mode,
}

} // verus!
