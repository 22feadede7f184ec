//! Output configuration: what the rendering layer shows and how many
//! placements it includes.
use vstd::prelude::*;

verus! {

/// Configuration for output display and filtering.
#[derive(Debug, Clone)]
pub struct OutputOptions {
    pub metadata: bool,
    /// Maximum placement to include (None = all placements).
    pub top_n: Option<u32>,
}

impl Default for OutputOptions {
    /// Metadata on, no placement cap.
    fn default() -> (r: OutputOptions)
        ensures
            r.metadata == true,
            r.top_n is None,
    {
        OutputOptions { metadata: true, top_n: None }
    }
}

/// Whether a result at `place` is included under a placement cap: without
/// a cap everything is; with one, only placed results at or under it.
pub open spec fn place_included(place: Option<u8>, top_n: Option<u32>) -> bool {
    match top_n {
        None => true,
        Some(t) => match place {
            Some(p) => p <= t,
            None => false,
        },
    }
}

pub fn include_place(place: Option<u8>, top_n: Option<u32>) -> (r: bool)
    ensures
        r == place_included(place, top_n),
{
    match top_n {
        None => true,
        Some(t) => match place {
            Some(p) => (p as u32) <= t,
            None => false,
        },
    }
}

} // verus!
