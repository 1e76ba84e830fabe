//! The message log the renderer shows: an ordered list of lines, newest
//! appended last.

use vstd::prelude::*;

verus! {

/// The running list of human-readable messages.
pub struct GameLog {
    pub entries: Vec<String>,
}

impl GameLog {
    pub fn new() -> (l: GameLog)
        ensures
            l.entries@.len() == 0,
    {
        GameLog { entries: Vec::new() }
    }
}

} // verus!
