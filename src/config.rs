//! The user's settings.
use vstd::prelude::*;

verus! {

/// Persistent settings: when the mirror was last updated, and whether the
/// program has run before.
#[derive(Debug, Clone, Copy, PartialEq, Eq, Structural)]
pub struct Config {
    /// Epoch milliseconds of the last update; 0 when there was none.
    pub last_update: u64,
    pub first_run: bool,
}

impl Default for Config {
    fn default() -> (r: Self)
        ensures
            r.last_update == 0,
            r.first_run,
    {
        Config { last_update: 0, first_run: true }
    }
}

} // verus!
