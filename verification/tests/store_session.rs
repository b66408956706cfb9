use fakeblok::entity::{Color, Entity};
use fakeblok::game::{Game, Key};
use fakeblok::geom::{Point, Rectangle};
use fakeblok::session::Session;

fn empty_game(w: i64, h: i64, side: i64) -> Game {
    Game::empty(Point { x: w, y: h }, side)
}

fn plain_square(x: i64, y: i64, side: i64) -> Entity {
    Entity {
        position: Rectangle {
            top_left: Point { x, y },
            width: side,
            height: side,
        },
        velocity: Point { x: 0, y: 0 },
        animation: None,
        moveable: true,
        moved_this_action: false,
        color: Color { c1: 1, c2: 2, c3: 3 },
    }
}

#[test]
fn entity_id_reuses_freed_slot_only() {
    // P5: the freed slot in the middle is handed out again, never a live
    // neighbor's id
    let mut g = empty_game(100, 100, 10);
    let mut ids = Vec::new();
    for i in 0..5 {
        ids.push(g.insert_entity(plain_square(i * 12, 0, 10)));
    }
    assert_eq!(ids, vec![0, 1, 2, 3, 4]);
    g.remove_entity(2);
    let fresh = g.insert_entity(plain_square(60, 0, 10));
    assert_eq!(fresh, 2);
    for &live in &[0usize, 1, 3, 4] {
        assert!(g.is_live(live));
    }
    assert_eq!(g.len(), 5);
}

#[test]
fn insert_removes_atomically() {
    let mut g = empty_game(100, 100, 10);
    let id = g.insert_entity(plain_square(4, 6, 10));
    assert!(g.is_live(id));
    let e = g.entity(id);
    assert_eq!(e.position.top_left, Point { x: 4, y: 6 });
    assert_eq!(e.color, Color { c1: 1, c2: 2, c3: 3 });
    g.remove_entity(id);
    assert!(!g.is_live(id));
    assert_eq!(g.len(), 0);
}

#[test]
fn idempotent_connect_creates_one_entity() {
    // P6: repeated get_entity_id calls return the same id and create one
    // entity in total
    let mut g = empty_game(100, 100, 10);
    let mut s = Session::new();
    let before = g.len();
    let id1 = s.get_entity_id(&mut g);
    let id2 = s.get_entity_id(&mut g);
    let id3 = s.get_entity_id(&mut g);
    assert_eq!(id1, id2);
    assert_eq!(id2, id3);
    assert_eq!(g.len(), before + 1);
    let e = g.entity(id1);
    assert!(e.moveable);
    assert_eq!(e.velocity, Point { x: 0, y: 0 });
    assert_eq!(e.position.width, 10);
    assert_eq!(e.position.height, 10);
}

#[test]
fn snapshot_after_input_carries_velocity() {
    // P7: a snapshot taken after push_input completed shows the velocity
    // change
    let mut g = empty_game(100, 100, 10);
    let mut s = Session::new();
    s.push_input(&mut g, &Key::W, true).expect("W recognized");
    let snap = g.clone_snapshot();
    let id = s.get_entity_id(&mut g);
    assert!(s.snapshot_ready(&snap));
    assert_eq!(snap.entity(id).velocity, Point { x: 0, y: -50 });
}

#[test]
fn disconnect_removes_entity_from_snapshots() {
    // P8: after a disconnect, later snapshots no longer contain the
    // session's entity
    let mut g = empty_game(100, 100, 10);
    let mut s = Session::new();
    let id = s.get_entity_id(&mut g);
    s.disconnect(&mut g);
    let snap = g.clone_snapshot();
    assert!(!snap.is_live(id));
    assert!(!s.snapshot_ready(&snap));
    // a second disconnect changes nothing
    let len = g.len();
    s.disconnect(&mut g);
    assert_eq!(g.len(), len);
}

#[test]
fn key_presses_set_axis_velocities() {
    let mut g = empty_game(100, 100, 10);
    let id = g.insert_entity(plain_square(0, 0, 10));
    g.process_key_press(id, &Key::W).unwrap();
    assert_eq!(g.entity(id).velocity, Point { x: 0, y: -50 });
    g.process_key_press(id, &Key::D).unwrap();
    assert_eq!(g.entity(id).velocity, Point { x: 50, y: -50 });
    g.process_key_release(id, &Key::W).unwrap();
    assert_eq!(g.entity(id).velocity, Point { x: 50, y: 0 });
    g.process_key_press(id, &Key::A).unwrap();
    g.process_key_press(id, &Key::S).unwrap();
    assert_eq!(g.entity(id).velocity, Point { x: -50, y: 50 });
    g.process_key_release(id, &Key::A).unwrap();
    g.process_key_release(id, &Key::S).unwrap();
    assert_eq!(g.entity(id).velocity, Point { x: 0, y: 0 });
}

#[test]
fn unrecognized_key_is_rejected_without_effect() {
    let mut g = empty_game(100, 100, 10);
    let id = g.insert_entity(plain_square(0, 0, 10));
    g.process_key_press(id, &Key::D).unwrap();
    assert!(g.process_key_press(id, &Key::Up).is_err());
    assert!(g.process_key_press(id, &Key::Space).is_err());
    assert!(g.process_key_release(id, &Key::Left).is_err());
    // the rejection mutated nothing
    assert_eq!(g.entity(id).velocity, Point { x: 50, y: 0 });
}

#[test]
fn snapshot_is_independent_copy() {
    let mut g = empty_game(100, 100, 10);
    let id = g.insert_entity(plain_square(7, 8, 10));
    let snap = g.clone_snapshot();
    g.process_key_press(id, &Key::D).unwrap();
    // the live state changed; the snapshot did not
    assert_eq!(g.entity(id).velocity, Point { x: 50, y: 0 });
    assert_eq!(snap.entity(id).velocity, Point { x: 0, y: 0 });
    assert_eq!(snap.width(), 100);
    assert_eq!(snap.height(), 100);
}
