use vstd::prelude::*;
use crate::geometry::Point;

pub mod chasing;
pub mod combat;
pub mod use_items;
pub mod end_turn;
pub mod collisions;
pub mod random_move;
pub mod field_of_view;
pub mod entity_render;
pub mod map_render;
pub mod tooltips;
pub mod debug;
pub mod player_input;
pub mod hud;

verus! {

/// An entity of the world, as the systems refer to it.
pub type EntityId = u64;

/// A request that `entity` move onto `destination`.
#[derive(Clone, Copy, Debug, PartialEq, Eq, Structural)]
pub struct WantsToMove {
    pub entity: EntityId,
    pub destination: Point,
}

/// A request that `attacker` strike `victim`.
#[derive(Clone, Copy, Debug, PartialEq, Eq, Structural)]
pub struct WantsToAttack {
    pub attacker: EntityId,
    pub victim: EntityId,
}

/// A request that `used_by` use `item`.
#[derive(Clone, Copy, Debug, PartialEq, Eq, Structural)]
pub struct WantsActivateItem {
    pub used_by: EntityId,
    pub item: EntityId,
}

/// An item and the entity whose pack it is in.
#[derive(Clone, Copy, Debug, PartialEq, Eq, Structural)]
pub struct Carried {
    pub item: EntityId,
    pub carrier: EntityId,
}

/// What a creature decides to do this turn.
#[derive(Clone, Copy, Debug, PartialEq, Eq, Structural)]
pub enum Intent {
    Attack(WantsToAttack),
    Move(WantsToMove),
}

} // verus!
