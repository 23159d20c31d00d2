//! Data the Replay API reports that the verified logic reads.
use vstd::prelude::*;

verus! {

/// The running game, as `/replay/game` reports it.
#[derive(Debug, Clone, Copy, PartialEq, Eq, Structural)]
pub struct Game {
    pub process_id: u32,
}

/// The blend a keyframe gets when its file names none.
pub fn default_blend() -> (s: String)
    ensures
        s@ == "linear"@,
{
    "linear".to_owned()
}

} // verus!
