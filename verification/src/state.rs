//! What the daemon remembers between runs.

use vstd::prelude::*;

verus! {

/// What the daemon remembers between runs.
#[derive(Clone, Copy, Debug, PartialEq, Eq, Structural)]
pub struct OrchestratorState {
    /// The id of the last message that was taken in. Without one, nothing is caught up
    /// on.
    pub last_dm_id: Option<u64>,
}

impl Default for OrchestratorState {
    fn default() -> (r: OrchestratorState)
        ensures
            r.last_dm_id is None,
    {
        OrchestratorState { last_dm_id: None }
    }
}

impl OrchestratorState {
    /// What a state file says: nothing where there is none or it cannot be read.
    pub fn loaded(parsed: Option<OrchestratorState>) -> (r: OrchestratorState)
        ensures
            r == match parsed {
                Some(s) => s,
                None => OrchestratorState { last_dm_id: None },
            },
    {
        match parsed {
            Some(s) => s,
            None => OrchestratorState { last_dm_id: None },
        }
    }
}

/// The file that the state is kept in.
#[derive(Debug)]
pub struct StateStore {
    path: String,
}

impl StateStore {
    pub closed spec fn spec_path(self) -> Seq<char> {
        self.path@
    }

    pub fn new(path: String) -> (r: StateStore)
        ensures
            r.spec_path() == path@,
    {
        StateStore { path }
    }

    pub fn path(&self) -> (r: &str)
        ensures
            r@ == self.spec_path(),
    {
        self.path.as_str()
    }
}

} // verus!
