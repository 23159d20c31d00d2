//! Tracks of the sequencer that keyframes can be selected on.
use vstd::prelude::*;

verus! {

/// A sequencer track that holds keyframes.
#[derive(Debug, Clone, Copy, PartialEq, Eq, Structural)]
pub enum TrackId {
    Position,
    Rotation,
    Fov,
    Speed,
    Fog,
    Dof,
    Sky,
    Near,
}

} // verus!
