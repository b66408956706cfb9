use fakeblok::entity::{Animation, Color, Entity};
use fakeblok::game::Game;
use fakeblok::geom::{Point, Rectangle};

fn empty_game(w: i64, h: i64, side: i64) -> Game {
    Game::empty(Point { x: w, y: h }, side)
}

fn square(x: i64, y: i64, side: i64, moveable: bool) -> Entity {
    Entity {
        position: Rectangle {
            top_left: Point { x, y },
            width: side,
            height: side,
        },
        velocity: Point { x: 0, y: 0 },
        animation: None,
        moveable,
        moved_this_action: false,
        color: Color { c1: 0, c2: 0, c3: 0 },
    }
}

#[test]
fn push_conservation_in_empty_world() {
    // P3: with no other entity present the full delta is applied
    let mut g = empty_game(100, 100, 10);
    let id = g.insert_entity(square(20, 20, 10, true));
    let applied = g.start_move_entity(id, Point { x: 6, y: 7 });
    assert_eq!(applied, Point { x: 6, y: 7 });
    assert_eq!(g.entity(id).position.top_left, Point { x: 26, y: 27 });
}

#[test]
fn wrap_move_by_world_width_returns_home() {
    // P2: a move by exactly the world width equals a move by zero
    let mut g = empty_game(100, 100, 10);
    let id = g.insert_entity(square(5, 5, 10, true));
    let applied = g.start_move_entity(id, Point { x: 100, y: 0 });
    assert_eq!(applied, Point { x: 100, y: 0 });
    assert_eq!(g.entity(id).position.top_left, Point { x: 5, y: 5 });
    let applied0 = g.start_move_entity(id, Point { x: 0, y: 0 });
    assert_eq!(applied0, Point { x: 0, y: 0 });
    assert_eq!(g.entity(id).position.top_left, Point { x: 5, y: 5 });
    let applied_h = g.start_move_entity(id, Point { x: 0, y: 100 });
    assert_eq!(applied_h, Point { x: 0, y: 100 });
    assert_eq!(g.entity(id).position.top_left, Point { x: 5, y: 5 });
}

#[test]
fn immovable_blocking_exact_fill() {
    // P4: an obstacle that absorbs the whole step zeroes the applied x
    let mut g = empty_game(100, 100, 10);
    let mover = g.insert_entity(square(0, 0, 10, true));
    let wall = g.insert_entity(square(10, 0, 10, false));
    let applied = g.start_move_entity(mover, Point { x: 6, y: 0 });
    assert_eq!(applied.x, 0);
    let a = g.entity(mover).position;
    let b = g.entity(wall).position;
    assert_eq!(a.top_left, Point { x: 0, y: 0 });
    assert!(a.overlap(&b).is_none());
}

#[test]
fn no_overlap_after_settled_axis_move() {
    // P1: after a settled axis move among disjoint immovables, no pair of
    // entities overlaps
    let mut g = empty_game(100, 100, 10);
    let mover = g.insert_entity(square(0, 0, 10, true));
    let b = g.insert_entity(square(12, 0, 10, false));
    let c = g.insert_entity(square(0, 12, 10, false));
    let applied = g.start_move_entity(mover, Point { x: 5, y: 0 });
    // x-overlap 3 with b is retracted; the y-overlap with b is reported too
    assert_eq!(applied, Point { x: 2, y: -10 });
    let ids = g.live_ids();
    for &i in &ids {
        for &j in &ids {
            if i != j {
                assert!(
                    g.entity(i).position.overlap(&g.entity(j).position).is_none(),
                    "entities {} and {} overlap",
                    i,
                    j
                );
            }
        }
    }
    assert_eq!(g.entity(mover).position.top_left, Point { x: 2, y: 0 });
    assert_eq!(g.entity(b).position.top_left, Point { x: 12, y: 0 });
    assert_eq!(g.entity(c).position.top_left, Point { x: 0, y: 12 });
}

#[test]
fn spec_scenario_mover_into_offset_obstacle() {
    // world 100x100, square side 10: A moveable at the origin, B immovable
    // at (5,5); the diagonal move (6,6) is absorbed, with the applied delta
    // below (6,6) on both axes
    let mut g = empty_game(100, 100, 10);
    let a = g.insert_entity(square(0, 0, 10, true));
    let _b = g.insert_entity(square(5, 5, 10, false));
    let applied = g.start_move_entity(a, Point { x: 6, y: 6 });
    assert!(applied.x < 6 || applied.y < 6);
    assert_eq!(applied, Point { x: -3, y: -3 });
    // the measured overlap (9,9) exceeds the step, so the mover is pushed
    // all the way back to where it started
    assert_eq!(g.entity(a).position.top_left, Point { x: 0, y: 0 });
}

#[test]
fn push_chain_shoves_moveable_obstacle() {
    // a moveable obstacle in the path is pushed out of the way first
    let mut g = empty_game(100, 100, 10);
    let mover = g.insert_entity(square(0, 0, 10, true));
    let box1 = g.insert_entity(square(12, 0, 10, true));
    let applied = g.start_move_entity(mover, Point { x: 5, y: 0 });
    // the obstacle yields: it is pushed right by the incursion
    assert_eq!(g.entity(mover).position.top_left, Point { x: 5, y: 0 });
    assert_eq!(g.entity(box1).position.top_left, Point { x: 15, y: 0 });
    assert_eq!(applied, Point { x: 5, y: 0 });
    assert!(g
        .entity(mover)
        .position
        .overlap(&g.entity(box1).position)
        .is_none());
}

#[test]
fn tick_integrates_velocity_per_axis() {
    let mut g = empty_game(100, 100, 10);
    let id = g.insert_entity(Entity {
        velocity: Point { x: 10, y: 5 },
        ..square(0, 0, 10, true)
    });
    g.tick(2);
    assert_eq!(g.entity(id).position.top_left, Point { x: 20, y: 10 });
    assert_eq!(g.entity(id).velocity, Point { x: 10, y: 5 });
}

#[test]
fn tick_accumulates_pendulum_distance() {
    let mut g = empty_game(100, 100, 10);
    let id = g.insert_entity(Entity {
        velocity: Point { x: 10, y: 0 },
        animation: Some(Animation::Pendulum {
            distance: Point { x: 3, y: 4 },
            max_distance: Point { x: 100, y: 200 },
        }),
        ..square(0, 0, 10, true)
    });
    g.tick(2);
    match g.entity(id).animation {
        Some(Animation::Pendulum {
            distance,
            max_distance,
        }) => {
            assert_eq!(distance, Point { x: 23, y: 4 });
            assert_eq!(max_distance, Point { x: 100, y: 200 });
        }
        None => panic!("animation lost"),
    }
}

#[test]
fn world_seeding_produces_valid_population() {
    let g = Game::new(Point { x: 1000, y: 500 }, 50);
    assert_eq!(g.len(), 200);
    let ids = g.live_ids();
    assert_eq!(ids.len(), 200);
    let mut animated = 0;
    for &id in &ids {
        let e = g.entity(id);
        assert!(e.position.top_left.x >= 0 && e.position.top_left.x < 1000);
        assert!(e.position.top_left.y >= 0 && e.position.top_left.y < 500);
        assert_eq!(e.position.width, 25);
        assert_eq!(e.position.height, 25);
        assert_eq!(e.velocity, Point { x: 0, y: 0 });
        if let Some(Animation::Pendulum { max_distance, .. }) = e.animation {
            animated += 1;
            assert_eq!(max_distance, Point { x: 100, y: 200 });
        }
    }
    assert_eq!(animated, 100);
}

#[test]
fn tick_at_rest_changes_nothing() {
    let mut g = empty_game(100, 100, 10);
    let a = g.insert_entity(square(0, 0, 10, true));
    let b = g.insert_entity(Entity {
        animation: Some(Animation::Pendulum {
            distance: Point { x: 7, y: -9 },
            max_distance: Point { x: 100, y: 200 },
        }),
        ..square(30, 30, 10, false)
    });
    g.tick(5);
    assert_eq!(g.entity(a).position.top_left, Point { x: 0, y: 0 });
    assert_eq!(g.entity(b).position.top_left, Point { x: 30, y: 30 });
    match g.entity(b).animation {
        Some(Animation::Pendulum { distance, .. }) => {
            assert_eq!(distance, Point { x: 7, y: -9 })
        }
        None => panic!("animation lost"),
    }
}

#[test]
fn tick_settles_mover_clear_of_obstacles() {
    // one mover among immovable obstacles at rest: after the tick settles,
    // no two entities overlap
    let mut g = empty_game(100, 100, 10);
    let mover = g.insert_entity(Entity {
        velocity: Point { x: 5, y: 3 },
        ..square(20, 20, 10, true)
    });
    let b = g.insert_entity(square(32, 20, 10, false));
    let c = g.insert_entity(square(20, 5, 10, false));
    g.tick(1);
    let ids = g.live_ids();
    for &i in &ids {
        for &j in &ids {
            if i != j {
                assert!(
                    g.entity(i).position.overlap(&g.entity(j).position).is_none(),
                    "entities {} and {} overlap",
                    i,
                    j
                );
            }
        }
    }
    assert_eq!(g.entity(b).position.top_left, Point { x: 32, y: 20 });
    assert_eq!(g.entity(c).position.top_left, Point { x: 20, y: 5 });
}
