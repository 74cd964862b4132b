//! What the user has configured.
use vstd::prelude::*;

verus! {

/// The saved settings.
#[derive(Debug, Clone, PartialEq, Eq)]
pub struct Settings {
    /// Paths that the user never wants reclaimed.
    pub protected_paths: Vec<String>,
}

impl Default for Settings {
    fn default() -> (r: Self)
        ensures
            r.protected_paths@ == Seq::<String>::empty(),
    {
        Settings { protected_paths: Vec::new() }
    }
}

} // verus!
