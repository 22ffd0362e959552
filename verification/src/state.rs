use vstd::prelude::*;

verus! {

/// Loading status of a remote resource.
#[derive(Clone, Debug, PartialEq, Eq, Structural)]
pub enum State {
    Loading,
    Loaded,
    Unloaded,
}

impl Default for State {
    fn default() -> (r: Self)
        ensures
            r == State::Unloaded,
    {
        Self::Unloaded
    }
}

} // verus!
