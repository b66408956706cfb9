//! The canonical game state: a reusable-slot store of entities in a
//! toroidal world, with entity lifecycle and keyboard-driven velocity
//! changes. The movement-with-push resolver lives in `motion`.

use vstd::prelude::*;
use crate::entity::{Animation, Color, Entity};
use crate::geom::{abs1, GameInt, Point, Rectangle, MAX_DIM, MAX_SPEED};
use crate::slab_store::{
    slab_clone, slab_contains, slab_entries, slab_get, slab_insert, slab_keys, slab_len,
    slab_new, slab_remove, slab_set, slab_vacant,
};

verus! {

/// Handle into the reusable-slot store; unique while alive, reused after
/// removal.
pub type EntityId = usize;

/// Rejection of a key outside the recognized input set.
#[derive(Clone, Copy, Debug, PartialEq, Eq, Structural)]
pub struct InvalidKeyError;

/// The keyboard keys the protocol can carry; only `W`, `A`, `S` and `D`
/// drive movement, every other key is rejected as invalid input.
#[derive(Clone, Copy, Debug, PartialEq, Eq, Structural)]
pub enum Key {
    W,
    A,
    S,
    D,
    Up,
    Down,
    Left,
    Right,
    Space,
}

/// Velocity magnitude a pressed movement key assigns, per axis.
pub const MOVE_VELOCITY: GameInt = 50;

/// How many pendulum-animated squares and how many static squares a fresh
/// world is seeded with.
pub const SEED_ANIMATED: usize = 100;
pub const SEED_STATIC: usize = 100;

/// Anchor offset a seeded pendulum square swings around.
pub const PENDULUM_OFFSET_X: GameInt = -100;
pub const PENDULUM_OFFSET_Y: GameInt = 200;

pub struct Game {
    pub square_side_length: GameInt,
    /// Bottom-right corner of the world: the playfield is
    /// `[0, bottom_right.x) x [0, bottom_right.y)` with wrap-around.
    pub bottom_right: Point,
    pub entities: slab::Slab<Entity>,
}

impl Game {
    /// The live entities, keyed by id.
    pub open spec fn entries(self) -> Map<int, Entity> {
        slab_entries(self.entities)
    }

    /// The store's chain of freed slots, next to be reused first.
    pub open spec fn vacant(self) -> Seq<int> {
        slab_vacant(self.entities)
    }

    pub open spec fn live(self, id: int) -> bool {
        self.entries().dom().contains(id)
    }

    pub open spec fn w(self) -> int {
        self.bottom_right.x as int
    }

    pub open spec fn h(self) -> int {
        self.bottom_right.y as int
    }

    /// Well-formedness: the world box is positive and bounded, a player
    /// square fits it, and every live entity's components are valid for it.
    pub open spec fn wf(self) -> bool {
        &&& 0 < self.w() <= MAX_DIM
        &&& 0 < self.h() <= MAX_DIM
        &&& 0 < self.square_side_length <= self.w()
        &&& self.square_side_length <= self.h()
        &&& self.entries().dom().finite()
        &&& forall|id: int| self.entries().dom().contains(id)
            ==> (#[trigger] self.entries()[id]).valid_for(self.w(), self.h())
    }

    pub fn width(&self) -> (r: GameInt)
        ensures
            r == self.bottom_right.x,
    {
        self.bottom_right.x
    }

    pub fn height(&self) -> (r: GameInt)
        ensures
            r == self.bottom_right.y,
    {
        self.bottom_right.y
    }

    /// Whether an id currently names a live entity.
    pub fn is_live(&self, id: EntityId) -> (r: bool)
        ensures
            r == self.live(id as int),
    {
        slab_contains(&self.entities, id)
    }

    /// The number of live entities.
    pub fn len(&self) -> (n: usize)
        ensures
            n == self.entries().dom().len(),
    {
        slab_len(&self.entities)
    }

    /// The live ids, in increasing order.
    pub fn live_ids(&self) -> (ids: Vec<EntityId>)
        ensures
            forall|i: int| 0 <= i < ids@.len() ==> self.live(#[trigger] ids@[i] as int),
            forall|k: int| #[trigger] self.live(k)
                ==> exists|i: int| 0 <= i < ids@.len() && ids@[i] as int == k,
            forall|i: int, j: int| 0 <= i < j < ids@.len()
                ==> #[trigger] ids@[i] < #[trigger] ids@[j],
    {
        slab_keys(&self.entities)
    }

    /// A read-only view of one live entity.
    pub fn entity(&self, id: EntityId) -> (e: &Entity)
        requires
            self.live(id as int),
        ensures
            *e == self.entries()[id as int],
    {
        slab_get(&self.entities, id)
    }

    /// A world with no entities yet.
    pub fn empty(bottom_right: Point, square_side_length: GameInt) -> (g: Game)
        requires
            0 < bottom_right.x <= MAX_DIM,
            0 < bottom_right.y <= MAX_DIM,
            0 < square_side_length,
            square_side_length <= bottom_right.x,
            square_side_length <= bottom_right.y,
        ensures
            g.wf(),
            g.bottom_right == bottom_right,
            g.square_side_length == square_side_length,
            g.entries().dom().len() == 0,
            g.vacant().len() == 0,
    {
        Game { square_side_length, bottom_right, entities: slab_new() }
    }

    /// A fresh world: `SEED_ANIMATED` pendulum-animated half-size squares
    /// and `SEED_STATIC` plain squares (a third of them moveable), all at
    /// random positions with random colors.
    pub fn new(bottom_right: Point, square_side_length: GameInt) -> (g: Game)
        requires
            0 < bottom_right.x <= MAX_DIM,
            0 < bottom_right.y <= MAX_DIM,
            2 <= square_side_length,
            square_side_length <= bottom_right.x,
            square_side_length <= bottom_right.y,
        ensures
            g.wf(),
            g.bottom_right == bottom_right,
            g.square_side_length == square_side_length,
            g.entries().dom().len() == SEED_ANIMATED + SEED_STATIC,
            g.vacant().len() == 0,
            forall|id: int| #[trigger] g.live(id) <==> 0 <= id < SEED_ANIMATED + SEED_STATIC,
            forall|id: int| 0 <= id < SEED_ANIMATED + SEED_STATIC ==> {
                &&& (#[trigger] g.entries()[id]).velocity == Point::spec_origin()
                &&& g.entries()[id].position.width == square_side_length / 2
                &&& g.entries()[id].position.height == square_side_length / 2
                &&& !g.entries()[id].moved_this_action
            },
            forall|id: int| 0 <= id < SEED_ANIMATED ==> {
                &&& !(#[trigger] g.entries()[id]).moveable
                &&& g.entries()[id].animation == seeded_pendulum()
            },
            forall|id: int| SEED_ANIMATED <= id < SEED_ANIMATED + SEED_STATIC
                ==> (#[trigger] g.entries()[id]).animation is None,
    {
        let mut game = Game::empty(bottom_right, square_side_length);
        let half: GameInt = square_side_length / 2;
        let mut i: usize = 0;
        while i < SEED_ANIMATED
            invariant
                game.wf(),
                game.bottom_right == bottom_right,
                game.square_side_length == square_side_length,
                game.entries().dom().len() == i,
                game.vacant().len() == 0,
                half == square_side_length / 2,
                0 < half <= bottom_right.x,
                half <= bottom_right.y,
                0 < bottom_right.x <= MAX_DIM,
                0 < bottom_right.y <= MAX_DIM,
                i <= SEED_ANIMATED,
                forall|id: int| #[trigger] game.live(id) <==> 0 <= id < i,
                forall|id: int| 0 <= id < i ==> {
                    &&& (#[trigger] game.entries()[id]).velocity == Point::spec_origin()
                    &&& game.entries()[id].position.width == half
                    &&& game.entries()[id].position.height == half
                    &&& !game.entries()[id].moved_this_action
                    &&& !game.entries()[id].moveable
                    &&& game.entries()[id].animation == seeded_pendulum()
                },
            decreases SEED_ANIMATED - i,
        {
            let ghost gpre = game;
            let color = random_color();
            let top_left = Point {
                x: random_below(bottom_right.x),
                y: random_below(bottom_right.y),
            };
            let square = Rectangle { top_left, width: half, height: half };
            let id = game.insert_entity(Entity {
                position: square,
                velocity: Point { x: 0, y: 0 },
                animation: None,
                moveable: false,
                moved_this_action: false,
                color,
            });
            game.init_pendulum(id, Point {
                x: top_left.x + PENDULUM_OFFSET_X,
                y: top_left.y + PENDULUM_OFFSET_Y,
            });
            proof {
                assert(game.entries()[id as int].animation == seeded_pendulum());
                assert forall|id2: int| #[trigger] game.live(id2)
                    implies 0 <= id2 < i + 1 by {
                    if id2 != id as int {
                        assert(gpre.live(id2));
                    }
                }
                assert forall|id2: int| 0 <= id2 < i + 1
                    implies #[trigger] game.live(id2) by {
                    if id2 < i {
                        assert(gpre.live(id2));
                    }
                }
            }
            i = i + 1;
        }
        let mut j: usize = 0;
        while j < SEED_STATIC
            invariant
                game.wf(),
                game.bottom_right == bottom_right,
                game.square_side_length == square_side_length,
                game.entries().dom().len() == SEED_ANIMATED + j,
                game.vacant().len() == 0,
                half == square_side_length / 2,
                0 < half <= bottom_right.x,
                half <= bottom_right.y,
                0 < bottom_right.x <= MAX_DIM,
                0 < bottom_right.y <= MAX_DIM,
                j <= SEED_STATIC,
                forall|id: int| #[trigger] game.live(id) <==> 0 <= id < SEED_ANIMATED + j,
                forall|id: int| 0 <= id < SEED_ANIMATED ==> {
                    &&& (#[trigger] game.entries()[id]).velocity == Point::spec_origin()
                    &&& game.entries()[id].position.width == half
                    &&& game.entries()[id].position.height == half
                    &&& !game.entries()[id].moved_this_action
                    &&& !game.entries()[id].moveable
                    &&& game.entries()[id].animation == seeded_pendulum()
                },
                forall|id: int| SEED_ANIMATED <= id < SEED_ANIMATED + j ==> {
                    &&& (#[trigger] game.entries()[id]).velocity == Point::spec_origin()
                    &&& game.entries()[id].position.width == half
                    &&& game.entries()[id].position.height == half
                    &&& !game.entries()[id].moved_this_action
                    &&& game.entries()[id].animation is None
                },
            decreases SEED_STATIC - j,
        {
            let ghost gpre = game;
            let color = random_color();
            let top_left = Point {
                x: random_below(bottom_right.x),
                y: random_below(bottom_right.y),
            };
            let square = Rectangle { top_left, width: half, height: half };
            let id = game.insert_entity(Entity {
                position: square,
                velocity: Point { x: 0, y: 0 },
                animation: None,
                moveable: random_below(3) == 0,
                moved_this_action: false,
                color,
            });
            proof {
                assert forall|id2: int| #[trigger] game.live(id2)
                    implies 0 <= id2 < SEED_ANIMATED + j + 1 by {
                    if id2 != id as int {
                        assert(gpre.live(id2));
                    }
                }
                assert forall|id2: int| 0 <= id2 < SEED_ANIMATED + j + 1
                    implies #[trigger] game.live(id2) by {
                    if id2 < SEED_ANIMATED + j {
                        assert(gpre.live(id2));
                    }
                }
            }
            j = j + 1;
        }
        game
    }

    /// Gives the entity a pendulum animation anchored at `midpoint`: the
    /// tracked displacement starts at the offset from the anchor, and the
    /// amplitude is its element-wise magnitude.
    fn init_pendulum(&mut self, entity: EntityId, midpoint: Point)
        requires
            old(self).wf(),
            old(self).live(entity as int),
            -2 * MAX_DIM <= midpoint.x <= 2 * MAX_DIM,
            -2 * MAX_DIM <= midpoint.y <= 2 * MAX_DIM,
        ensures
            final(self).wf(),
            final(self).entries() == old(self).entries().insert(
                entity as int,
                final(self).entries()[entity as int],
            ),
            final(self).entries()[entity as int] == (Entity {
                animation: final(self).entries()[entity as int].animation,
                ..old(self).entries()[entity as int]
            }),
            final(self).entries()[entity as int].animation == spec_pendulum(
                old(self).entries()[entity as int].position.top_left,
                midpoint,
            ),
            final(self).vacant() == old(self).vacant(),
            final(self).bottom_right == old(self).bottom_right,
            final(self).square_side_length == old(self).square_side_length,
    {
        let e = *slab_get(&self.entities, entity);
        let distance = e.position.top_left.minus(midpoint);
        let animation = Some(Animation::Pendulum { distance, max_distance: distance.abs() });
        slab_set(&mut self.entities, entity, Entity { animation, ..e });
    }

    /// Allocates a slot for the entity, all component slots at once. The
    /// freed slot most recently given up is reused first; with no freed
    /// slot the store grows by one.
    pub fn insert_entity(&mut self, entity: Entity) -> (id: EntityId)
        ensures
            !old(self).live(id as int),
            final(self).entries() == old(self).entries().insert(id as int, entity),
            old(self).vacant().len() > 0 ==> {
                &&& id as int == old(self).vacant()[0]
                &&& final(self).vacant() == old(self).vacant().drop_first()
            },
            old(self).vacant().len() == 0 ==> {
                &&& id as int == old(self).entries().dom().len()
                &&& final(self).vacant() == old(self).vacant()
            },
            final(self).bottom_right == old(self).bottom_right,
            final(self).square_side_length == old(self).square_side_length,
    {
        slab_insert(&mut self.entities, entity)
    }

    /// Frees the entity's slot in every component array; the slot becomes
    /// the next one to be reused.
    pub fn remove_entity(&mut self, entity: EntityId)
        requires
            old(self).live(entity as int),
        ensures
            final(self).entries() == old(self).entries().remove(entity as int),
            final(self).vacant() == seq![entity as int] + old(self).vacant(),
            final(self).bottom_right == old(self).bottom_right,
            final(self).square_side_length == old(self).square_side_length,
    {
        slab_remove(&mut self.entities, entity);
    }

    /// Inserts the moveable square a newly connected player controls:
    /// a `square_side_length`-sized square at the origin, at rest, with a
    /// fresh color.
    pub fn insert_new_player_square(&mut self) -> (id: EntityId)
        requires
            old(self).wf(),
        ensures
            final(self).wf(),
            !old(self).live(id as int),
            final(self).live(id as int),
            final(self).entries()
                == old(self).entries().insert(id as int, final(self).entries()[id as int]),
            final(self).entries()[id as int].position == (Rectangle {
                top_left: Point { x: 0, y: 0 },
                width: old(self).square_side_length,
                height: old(self).square_side_length,
            }),
            final(self).entries()[id as int].velocity == Point::spec_origin(),
            final(self).entries()[id as int].animation is None,
            final(self).entries()[id as int].moveable,
            !final(self).entries()[id as int].moved_this_action,
            old(self).vacant().len() > 0 ==> id as int == old(self).vacant()[0],
            old(self).vacant().len() == 0 ==> id as int == old(self).entries().dom().len(),
            final(self).bottom_right == old(self).bottom_right,
            final(self).square_side_length == old(self).square_side_length,
    {
        let square = Rectangle {
            top_left: Point { x: 0, y: 0 },
            width: self.square_side_length,
            height: self.square_side_length,
        };
        let color = random_color();
        self.insert_entity(Entity {
            position: square,
            velocity: Point { x: 0, y: 0 },
            animation: None,
            moveable: true,
            moved_this_action: false,
            color,
        })
    }

    /// Writes an entity's velocity directly: the write-back port for the
    /// caller that recomputes an animated entity's restoring velocity.
    pub fn set_velocity(&mut self, id: EntityId, velocity: Point)
        requires
            old(self).wf(),
            old(self).live(id as int),
            -MAX_SPEED <= velocity.x <= MAX_SPEED,
            -MAX_SPEED <= velocity.y <= MAX_SPEED,
        ensures
            final(self).wf(),
            final(self).entries() == old(self).entries().insert(
                id as int,
                final(self).entries()[id as int],
            ),
            final(self).entries()[id as int] == (Entity {
                velocity,
                ..old(self).entries()[id as int]
            }),
            final(self).vacant() == old(self).vacant(),
            final(self).bottom_right == old(self).bottom_right,
            final(self).square_side_length == old(self).square_side_length,
    {
        let e = *slab_get(&self.entities, id);
        slab_set(&mut self.entities, id, Entity { velocity, ..e });
    }

    /// An independent copy of the whole game state, used as an immutable
    /// snapshot for broadcasting.
    pub fn clone_snapshot(&self) -> (g: Game)
        ensures
            g.entries() == self.entries(),
            g.vacant() == self.vacant(),
            g.bottom_right == self.bottom_right,
            g.square_side_length == self.square_side_length,
    {
        Game {
            square_side_length: self.square_side_length,
            bottom_right: self.bottom_right,
            entities: slab_clone(&self.entities),
        }
    }

    /// A pressed movement key sets the owned entity's velocity on its axis;
    /// any other key is rejected and changes nothing.
    pub fn process_key_press(&mut self, id: EntityId, key: &Key) -> (r: Result<
        (),
        InvalidKeyError,
    >)
        requires
            old(self).wf(),
            old(self).live(id as int),
        ensures
            final(self).wf(),
            r is Ok <==> (*key == Key::W || *key == Key::A || *key == Key::S || *key == Key::D),
            r is Err ==> *final(self) == *old(self),
            r is Ok ==> {
                &&& final(self).entries() == old(self).entries().insert(
                    id as int,
                    final(self).entries()[id as int],
                )
                &&& final(self).entries()[id as int].velocity == match *key {
                    Key::W => Point {
                        x: old(self).entries()[id as int].velocity.x,
                        y: ((-MOVE_VELOCITY) as GameInt),
                    },
                    Key::A => Point {
                        x: ((-MOVE_VELOCITY) as GameInt),
                        y: old(self).entries()[id as int].velocity.y,
                    },
                    Key::S => Point {
                        x: old(self).entries()[id as int].velocity.x,
                        y: MOVE_VELOCITY,
                    },
                    _ => Point {
                        x: MOVE_VELOCITY,
                        y: old(self).entries()[id as int].velocity.y,
                    },
                }
                &&& final(self).entries()[id as int]
                    == Entity { velocity: final(self).entries()[id as int].velocity, ..old(self).entries()[id as int] }
            },
            final(self).vacant() == old(self).vacant(),
            final(self).bottom_right == old(self).bottom_right,
            final(self).square_side_length == old(self).square_side_length,
    {
        let e = *slab_get(&self.entities, id);
        let velocity = match key {
            Key::W => e.velocity.at_y(-MOVE_VELOCITY),
            Key::A => e.velocity.at_x(-MOVE_VELOCITY),
            Key::S => e.velocity.at_y(MOVE_VELOCITY),
            Key::D => e.velocity.at_x(MOVE_VELOCITY),
            _ => {
                return Err(InvalidKeyError);
            },
        };
        slab_set(&mut self.entities, id, Entity { velocity, ..e });
        Ok(())
    }

    /// A released movement key zeroes the owned entity's velocity on its
    /// axis; any other key is rejected and changes nothing.
    pub fn process_key_release(&mut self, id: EntityId, key: &Key) -> (r: Result<
        (),
        InvalidKeyError,
    >)
        requires
            old(self).wf(),
            old(self).live(id as int),
        ensures
            final(self).wf(),
            r is Ok <==> (*key == Key::W || *key == Key::A || *key == Key::S || *key == Key::D),
            r is Err ==> *final(self) == *old(self),
            r is Ok ==> {
                &&& final(self).entries() == old(self).entries().insert(
                    id as int,
                    final(self).entries()[id as int],
                )
                &&& final(self).entries()[id as int].velocity == match *key {
                    Key::W => Point { x: old(self).entries()[id as int].velocity.x, y: 0 },
                    Key::A => Point { x: 0, y: old(self).entries()[id as int].velocity.y },
                    Key::S => Point { x: old(self).entries()[id as int].velocity.x, y: 0 },
                    _ => Point { x: 0, y: old(self).entries()[id as int].velocity.y },
                }
                &&& final(self).entries()[id as int]
                    == Entity { velocity: final(self).entries()[id as int].velocity, ..old(self).entries()[id as int] }
            },
            final(self).vacant() == old(self).vacant(),
            final(self).bottom_right == old(self).bottom_right,
            final(self).square_side_length == old(self).square_side_length,
    {
        let e = *slab_get(&self.entities, id);
        let velocity = match key {
            Key::W => e.velocity.at_y(0),
            Key::A => e.velocity.at_x(0),
            Key::S => e.velocity.at_y(0),
            Key::D => e.velocity.at_x(0),
            _ => {
                return Err(InvalidKeyError);
            },
        };
        slab_set(&mut self.entities, id, Entity { velocity, ..e });
        Ok(())
    }
}

/// The pendulum state an entity anchored at `midpoint` starts with: the
/// displacement from the anchor to the entity's corner, and its magnitude
/// as the amplitude.
pub open spec fn spec_pendulum(top_left: Point, midpoint: Point) -> Option<Animation> {
    let d = Point {
        x: (top_left.x - midpoint.x) as GameInt,
        y: (top_left.y - midpoint.y) as GameInt,
    };
    Some(
        Animation::Pendulum {
            distance: d,
            max_distance: Point { x: abs1(d.x as int) as GameInt, y: abs1(d.y as int) as GameInt },
        },
    )
}

/// The animation every seeded pendulum square starts with: anchored at the
/// fixed offset from its own corner, so the tracked displacement is the
/// negated offset and the amplitude its magnitude, whatever the corner.
pub open spec fn seeded_pendulum() -> Option<Animation> {
    spec_pendulum(
        Point { x: 0, y: 0 },
        Point { x: PENDULUM_OFFSET_X, y: PENDULUM_OFFSET_Y },
    )
}

/// Relies on rand::random_range: a sample in `[0, bound)` from the thread's
/// generator; nothing is promised beyond the range.
#[verifier::external_body]
fn random_below(bound: GameInt) -> (r: GameInt)
    requires
        bound > 0,
    ensures
        0 <= r < bound,
{
    rand::random_range(0..bound)
}

/// Relies on rand::random: an arbitrary byte from the thread's generator;
/// nothing is promised of the value.
#[verifier::external_body]
fn random_byte() -> (b: u8) {
    rand::random()
}

/// A fresh color with random channels.
fn random_color() -> (c: Color) {
    Color { c1: random_byte(), c2: random_byte(), c3: random_byte() }
}

} // verus!
