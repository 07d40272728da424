//! Options of the command that writes a template out.
use vstd::prelude::*;

verus! {

/// What to do when the destination file already exists.
#[derive(Debug, Clone, Copy, PartialEq, Eq, Structural)]
pub enum PullOpts {
    /// Append to the existing file.
    Append,
    /// Replace the existing file.
    Overwrite,
    /// Leave the existing file alone and stop.
    NoOverwrite,
}

impl PullOpts {
    /// The option the three flags select; at most one of them may be set.
    pub fn get_opt(append: &bool, overwrite: &bool, no_overwrite: &bool) -> (r: Option<PullOpts>)
        requires
            (*append as int) + (*overwrite as int) + (*no_overwrite as int) <= 1,
        ensures
            *append ==> r == Some(PullOpts::Append),
            *overwrite ==> r == Some(PullOpts::Overwrite),
            *no_overwrite ==> r == Some(PullOpts::NoOverwrite),
            !*append && !*overwrite && !*no_overwrite ==> r is None,
    {
        if *append {
            Some(PullOpts::Append)
        } else if *overwrite {
            Some(PullOpts::Overwrite)
        } else if *no_overwrite {
            Some(PullOpts::NoOverwrite)
        } else {
            None
        }
    }
}

} // verus!
