//! What a machine has: the tools that categories and backends need.
//!
//! Detection is by capability and never by distribution.
use vstd::prelude::*;

verus! {

/// A tool that may be there.
#[derive(Debug, Clone, Copy, PartialEq, Eq, Structural, Hash)]
pub enum Capability {
    Apt,
    Dnf,
    Pacman,
    Zypper,
    Journalctl,
    Snap,
    Flatpak,
    Docker,
}

/// The tools that were found.
#[derive(Debug, Clone)]
pub struct Capabilities {
    pub found: Vec<Capability>,
}

impl Capabilities {
    /// Whether a tool is there.
    pub fn has(&self, capability: Capability) -> (r: bool)
        ensures
            r == self.found@.contains(capability),
    {
        let mut i: usize = 0;
        while i < self.found.len()
            invariant
                i <= self.found@.len(),
                forall|k: int| 0 <= k < i ==> self.found@[k] != capability,
            decreases self.found@.len() - i,
        {
            if self.found[i] == capability {
                assert(self.found@[i as int] == capability);
                return true;
            }
            i = i + 1;
        }
        false
    }
}

/// A tool is there exactly where it was found.
pub proof fn law_a_tool_is_there_where_it_was_found(
    caps: Capabilities,
    capability: Capability,
    r: bool,
)
    requires
        call_ensures(Capabilities::has, (&caps, capability), r),
    ensures
        r == exists|i: int| 0 <= i < caps.found@.len() && caps.found@[i] == capability,
{
}

} // verus!
