//! The behaviour of entities: what the user of the library supplies.

use vstd::prelude::*;
use crate::animation::{has_name, Animation};
use crate::entity::{Callback, CallbackResult, CollHandler, Entity};

verus! {

/// The hooks of an animation. An entity holds handles ([`Callback`],
/// [`CollHandler`]); the scheduler hands each handle to these methods together
/// with the entity it belongs to and the scheduler itself, both to be read.
/// What a hook wants changed it says in its result, and what it wants to
/// remember it keeps in `self`.
///
/// Each method may rely on what its `requires` says of the call.
pub trait Hooks {
    /// The behaviour of `entity` in this frame. It is asked of every entity
    /// that has a behaviour hook and meets no death condition, and all
    /// entities are asked before any result is applied: what a hook reads of
    /// the others is their state at the start of the frame, their countdowns
    /// reduced.
    fn callback(&mut self, id: Callback, entity: &Entity, anim: &Animation) -> (r: CallbackResult)
        requires
            anim.wf(),
            anim.holds(*entity),
            entity.callback == Some(id),
    ;

    /// The reaction of `entity` to `other`, which it collided with. For each
    /// colliding pair it is asked once of each member that has a collision
    /// hook.
    fn collision(
        &mut self,
        id: CollHandler,
        entity: &Entity,
        other: &Entity,
        anim: &Animation,
    ) -> (r: CallbackResult)
        requires
            anim.wf(),
            anim.holds(*entity),
            anim.holds(*other),
            entity.coll_handler == Some(id),
    ;

    /// The last word of `entity`, which has been removed: it is no longer
    /// among the entities of `anim`. It is called once for each removed
    /// entity that has a death hook.
    fn death(&mut self, id: Callback, entity: &Entity, anim: &Animation)
        requires
            anim.wf(),
            entity.death_callback == Some(id),
            !has_name(anim.entities@, entity.name@),
    ;
}

/// No hooks at all: every answer asks for nothing, and nothing is remembered.
/// For an animation whose entities have no hooks.
pub struct NoHooks;

impl Hooks for NoHooks {
    fn callback(&mut self, id: Callback, entity: &Entity, anim: &Animation) -> (r: CallbackResult)
        ensures
            r == CallbackResult::quiet(),
    {
        CallbackResult::default()
    }

    fn collision(
        &mut self,
        id: CollHandler,
        entity: &Entity,
        other: &Entity,
        anim: &Animation,
    ) -> (r: CallbackResult)
        ensures
            r == CallbackResult::quiet(),
    {
        CallbackResult::default()
    }

    fn death(&mut self, id: Callback, entity: &Entity, anim: &Animation) {
    }
}

} // verus!
