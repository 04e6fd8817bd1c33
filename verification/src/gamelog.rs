//! The append-only game log: an ordered sequence of human-readable event
//! strings, read by the presentation collaborator in reverse order.

use vstd::prelude::*;

verus! {

/// The append-only ordered event log.
#[derive(Debug)]
pub struct GameLog {
    pub entries: Vec<String>,
}

impl GameLog {
    /// An empty log.
    pub fn new() -> (log: GameLog)
        ensures
            log.entries@.len() == 0,
    {
        GameLog { entries: Vec::new() }
    }
}

} // verus!
