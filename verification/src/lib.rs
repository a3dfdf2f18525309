//! A frame-by-frame engine for terminal animations.
//!
//! The scheduler ([`Animation`]) owns a set of named entities ([`Entity`]).
//! Each call of [`Animation::animate`] advances them by one frame:
//!
//! 1. the entities grow older, those that meet a death condition are marked,
//!    and the behaviour hooks of the others are asked ([`death`],
//!    [`callbacks`]);
//! 2. the physical entities that collide react to each other ([`collision`],
//!    [`reaction`]);
//! 3. the marked entities are removed ([`removal`]);
//! 4. followers take their place beside their leaders ([`follow`]).
//!
//! What an entity does is not stored in it: it holds handles, and the caller
//! hands the scheduler the [`Hooks`] that answer to them.

pub mod animation;
pub mod callbacks;
pub mod collision;
pub mod death;
pub mod entity;
pub mod error;
pub mod follow;
pub mod frame;
pub mod geometry;
pub mod hooks;
pub mod reaction;
pub mod removal;
pub mod sprite;

pub use animation::{Animation, FrameReport};
pub use entity::{CallbackResult, Entity, FollowOffset};
pub use error::AnimationError;
pub use geometry::Position;
pub use hooks::{Hooks, NoHooks};
pub use sprite::{StyledLine, StyledSprite};
