//! What can go wrong while a frame is computed.

use vstd::prelude::*;

verus! {

/// An error of the scheduler. It names the entities it is about.
#[derive(Debug, PartialEq, Eq)]
pub enum AnimationError {
    /// A frame index was asked for that the entity has no picture for. The
    /// entity keeps the frame it had, and the frame goes on.
    InvalidFrame { entity: String, frame: usize },
    /// Neither member of a colliding pair is in the scheduler: the list of
    /// collisions does not belong to this set of entities.
    CollisionConsistencyFault { first: String, second: String },
}

/// Every one of the errors is about a frame without a picture.
pub open spec fn only_frame_errors(errors: Seq<AnimationError>) -> bool {
    forall|k: int| 0 <= k < errors.len() ==> #[trigger] errors[k] is InvalidFrame
}

} // verus!
