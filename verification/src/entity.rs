//! Per-entity component data: position, velocity, animation, pushability
//! and display color, stored together and created or destroyed as a unit.

use vstd::prelude::*;
use crate::geom::{GameInt, Point, Rectangle, MAX_SPEED};

verus! {

/// Display-only color tag; the first render channel is fixed at zero, the
/// remaining three are carried through unchanged.
#[derive(Clone, Copy, Debug, PartialEq, Eq, Structural)]
pub struct Color {
    pub c1: u8,
    pub c2: u8,
    pub c3: u8,
}

/// Optional per-entity animation.
#[derive(Clone, Copy, Debug, PartialEq, Eq, Structural)]
pub enum Animation {
    /// A stylized pendulum: `distance` accumulates the displacement from a
    /// fixed anchor, `max_distance` the amplitude that the restoring motion
    /// is scaled by.
    Pendulum { distance: Point, max_distance: Point },
}

/// One game object: the aggregate of all component slots for one id.
#[derive(Clone, Copy, Debug)]
pub struct Entity {
    pub position: Rectangle,
    pub velocity: Point,
    pub animation: Option<Animation>,
    /// Non-moveable entities act as immovable obstacles that never yield
    /// when pushed.
    pub moveable: bool,
    /// Transient marker: the entity was already processed during the
    /// current movement action and must not be pushed again.
    pub moved_this_action: bool,
    pub color: Color,
}

impl Entity {
    /// The entity's data fits a world of size `w x h`.
    pub open spec fn valid_for(self, w: int, h: int) -> bool {
        &&& self.position.valid_for(w, h)
        &&& -MAX_SPEED <= self.velocity.x <= MAX_SPEED
        &&& -MAX_SPEED <= self.velocity.y <= MAX_SPEED
    }
}

} // verus!
