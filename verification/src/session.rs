//! The server-side state of one client connection: lazy creation of the
//! player's entity, input application to that entity only, snapshot
//! readiness, and exactly-once cleanup on disconnect.
//!
//! The session is a plain state machine — *Connecting* (no entity yet),
//! *Active* (entity allocated), *Disconnected* (terminal) — that the
//! surrounding server drives; suspension, locking and transport live there.

use vstd::prelude::*;
use crate::entity::Entity;
use crate::game::{EntityId, Game, InvalidKeyError, Key};
use crate::geom::{Point, Rectangle};

verus! {

pub struct Session {
    /// The id of the entity this connection owns, once allocated.
    pub entity_id: Option<EntityId>,
    /// Set exactly once, when the connection goes away.
    pub disconnected: bool,
}

impl Session {
    /// The session's entity, if any, is alive in the given game state.
    pub open spec fn owns_live(self, g: Game) -> bool {
        match self.entity_id {
            Some(id) => self.disconnected || g.live(id as int),
            None => true,
        }
    }

    pub fn new() -> (s: Session)
        ensures
            s.entity_id is None,
            !s.disconnected,
    {
        Session { entity_id: None, disconnected: false }
    }

    /// The connection's entity id, allocating the player square on first
    /// use: the get-or-create is memoized, so every later call returns the
    /// same id and creates nothing.
    pub fn get_entity_id(&mut self, game: &mut Game) -> (id: EntityId)
        requires
            old(game).wf(),
            !old(self).disconnected,
            old(self).owns_live(*old(game)),
        ensures
            final(game).wf(),
            !final(self).disconnected,
            final(self).entity_id == Some(id),
            final(game).live(id as int),
            final(self).owns_live(*final(game)),
            old(self).entity_id matches Some(i) ==> i == id && *final(game) == *old(game),
            old(self).entity_id is None ==> {
                &&& !old(game).live(id as int)
                &&& final(game).entries() == old(game).entries().insert(
                    id as int,
                    final(game).entries()[id as int],
                )
                &&& final(game).entries()[id as int].moveable
                &&& final(game).entries()[id as int].velocity == Point::spec_origin()
                &&& final(game).entries()[id as int].animation is None
                &&& !final(game).entries()[id as int].moved_this_action
                &&& final(game).entries()[id as int].position == (Rectangle {
                    top_left: Point { x: 0, y: 0 },
                    width: old(game).square_side_length,
                    height: old(game).square_side_length,
                })
                &&& final(game).bottom_right == old(game).bottom_right
                &&& final(game).square_side_length == old(game).square_side_length
            },
    {
        match self.entity_id {
            Some(id) => id,
            None => {
                let id = game.insert_new_player_square();
                self.entity_id = Some(id);
                id
            },
        }
    }

    /// Applies one key event to the entity owned by this connection — and
    /// to no other entity. A key outside the recognized set is rejected and
    /// changes nothing.
    pub fn push_input(&mut self, game: &mut Game, key: &Key, pressed: bool) -> (r: Result<
        (),
        InvalidKeyError,
    >)
        requires
            old(game).wf(),
            !old(self).disconnected,
            old(self).owns_live(*old(game)),
        ensures
            final(game).wf(),
            !final(self).disconnected,
            final(self).entity_id is Some,
            final(self).owns_live(*final(game)),
            r is Ok <==> (*key == Key::W || *key == Key::A || *key == Key::S || *key == Key::D),
            final(game).entries().dom() =~= old(game).entries().dom().insert(
                final(self).entity_id->0 as int,
            ),
            forall|id2: int| old(game).live(id2) && id2 != final(self).entity_id->0 as int
                ==> final(game).entries()[id2] == old(game).entries()[id2],
            r is Ok ==> final(game).entries()[final(self).entity_id->0 as int].velocity
                == spec_key_velocity(
                *key,
                spec_base_velocity(*old(self), *old(game)),
                pressed,
            ),
            old(self).entity_id matches Some(i) ==> (r is Ok
                ==> final(game).entries()[i as int] == (Entity {
                velocity: spec_key_velocity(*key, old(game).entries()[i as int].velocity, pressed),
                ..old(game).entries()[i as int]
            })),
            old(self).entity_id matches Some(i) ==> (r is Err ==> *final(game) == *old(game)),
            old(self).entity_id is None
                ==> final(game).entries()[final(self).entity_id->0 as int] == (Entity {
                position: Rectangle {
                    top_left: Point { x: 0, y: 0 },
                    width: old(game).square_side_length,
                    height: old(game).square_side_length,
                },
                velocity: if r is Ok {
                    spec_key_velocity(*key, Point::spec_origin(), pressed)
                } else {
                    Point::spec_origin()
                },
                animation: None,
                moveable: true,
                moved_this_action: false,
                color: final(game).entries()[final(self).entity_id->0 as int].color,
            }),
    {
        let id = self.get_entity_id(game);
        let r = if pressed {
            game.process_key_press(id, key)
        } else {
            game.process_key_release(id, key)
        };
        proof {
            assert(final(self).entity_id == Some(id));
        }
        r
    }

    /// Whether a snapshot is ready to be returned to this connection: it
    /// must already contain the connection's entity.
    pub fn snapshot_ready(&self, snapshot: &Game) -> (r: bool)
        ensures
            r == match self.entity_id {
                Some(id) => snapshot.live(id as int),
                None => false,
            },
    {
        match self.entity_id {
            Some(id) => snapshot.is_live(id),
            None => false,
        }
    }

    /// Removes the entity owned by this session exactly once, whatever path
    /// the disconnect took; calling it again, or on a session that never
    /// allocated an entity, changes nothing.
    pub fn disconnect(&mut self, game: &mut Game)
        requires
            old(game).wf(),
            old(self).owns_live(*old(game)),
        ensures
            final(game).wf(),
            final(self).disconnected,
            final(self).entity_id == old(self).entity_id,
            old(self).entity_id matches Some(i) ==> (!old(self).disconnected ==> {
                &&& final(game).entries() == old(game).entries().remove(i as int)
                &&& !final(game).live(i as int)
            }),
            (old(self).entity_id is None || old(self).disconnected)
                ==> *final(game) == *old(game),
            final(game).bottom_right == old(game).bottom_right,
            final(game).square_side_length == old(game).square_side_length,
            final(game).vacant().len() >= old(game).vacant().len(),
    {
        if !self.disconnected {
            match self.entity_id {
                Some(id) => {
                    game.remove_entity(id);
                    proof {
                        assert(game.wf());
                    }
                },
                None => {},
            }
        }
        self.disconnected = true;
    }
}

/// The velocity the session's entity carries before an input is applied:
/// its stored velocity when it already exists, rest for one created by the
/// input's own get-or-create.
pub open spec fn spec_base_velocity(s: Session, g: Game) -> Point {
    match s.entity_id {
        Some(i) => g.entries()[i as int].velocity,
        None => Point::spec_origin(),
    }
}

/// The velocity that applying one key event to `v` leaves behind: a press
/// sets the key's axis to the move velocity with the key's sign, a release
/// zeroes that axis. Only `W`, `A`, `S`, `D` are recognized.
pub open spec fn spec_key_velocity(key: Key, v: Point, pressed: bool) -> Point {
    let mag: crate::geom::GameInt = if pressed {
        crate::game::MOVE_VELOCITY
    } else {
        0
    };
    match key {
        Key::W => Point { x: v.x, y: (if pressed { -mag } else { 0 }) as crate::geom::GameInt },
        Key::A => Point { x: (if pressed { -mag } else { 0 }) as crate::geom::GameInt, y: v.y },
        Key::S => Point { x: v.x, y: mag },
        _ => Point { x: mag, y: v.y },
    }
}

/// A snapshot taken after an input was applied shows the applied velocity:
/// nothing between the write and the copy loses the update.
pub proof fn lemma_snapshot_sees_input(g: Game, snap: Game, id: int, v: Point)
    requires
        snap.entries() == g.entries(),
        g.live(id),
        g.entries()[id].velocity == v,
    ensures
        snap.live(id),
        snap.entries()[id].velocity == v,
{
}

/// Once a session's entity was removed, no later snapshot of that state
/// contains its id.
pub proof fn lemma_disconnect_hides_entity(g: Game, g2: Game, snap: Game, id: int)
    requires
        g2.entries() == g.entries().remove(id),
        snap.entries() == g2.entries(),
    ensures
        !snap.live(id),
{
}

} // verus!
