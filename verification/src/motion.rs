//! Movement with push resolution: the algorithmic core. Moving an entity
//! tentatively translates it with wrap-around, measures how deeply it sank
//! into other entities' wrap segments, shoves moveable obstacles out of the
//! way, and retracts the mover by the residual overlap so it never ends an
//! action embedded in a solid obstacle.

use vstd::prelude::*;
use crate::entity::{Animation, Entity};
use crate::game::{EntityId, Game};
use crate::geom::{
    abs1, max1, min1, sat_add, sat_add_spec, GameInt, Point, Rectangle, MAX_DELTA, MAX_DIM,
    MAX_DT, MAX_SPEED, lemma_segments_valid,
};

verus! {

/// Overlap extent of two unwrapped boxes along x; non-positive when they
/// miss each other on that axis.
pub open spec fn ov_x(a: Rectangle, b: Rectangle) -> int {
    min1(a.top_left.x + a.width, b.top_left.x + b.width)
        - max1(a.top_left.x as int, b.top_left.x as int)
}

/// Overlap extent of two unwrapped boxes along y; non-positive when they
/// miss each other on that axis.
pub open spec fn ov_y(a: Rectangle, b: Rectangle) -> int {
    min1(a.top_left.y + a.height, b.top_left.y + b.height)
        - max1(a.top_left.y as int, b.top_left.y as int)
}

/// What one pair of segments contributes along x: its x-extent if the two
/// boxes genuinely intersect, zero otherwise.
pub open spec fn pair_contrib_x(a: Rectangle, b: Rectangle) -> int {
    if ov_x(a, b) > 0 && ov_y(a, b) > 0 {
        ov_x(a, b)
    } else {
        0
    }
}

/// What one pair of segments contributes along y.
pub open spec fn pair_contrib_y(a: Rectangle, b: Rectangle) -> int {
    if ov_x(a, b) > 0 && ov_y(a, b) > 0 {
        ov_y(a, b)
    } else {
        0
    }
}

/// Largest x-contribution of `a` against any segment of `os`.
pub open spec fn row_ov_x(a: Rectangle, os: Seq<Rectangle>) -> int
    decreases os.len(),
{
    if os.len() == 0 {
        0
    } else {
        max1(row_ov_x(a, os.drop_last()), pair_contrib_x(a, os.last()))
    }
}

/// Largest y-contribution of `a` against any segment of `os`.
pub open spec fn row_ov_y(a: Rectangle, os: Seq<Rectangle>) -> int
    decreases os.len(),
{
    if os.len() == 0 {
        0
    } else {
        max1(row_ov_y(a, os.drop_last()), pair_contrib_y(a, os.last()))
    }
}

/// Largest x-contribution over all pairs drawn from the two segment lists:
/// the per-axis depth one wrapped footprint sinks into the other.
pub open spec fn multi_ov_x(ss: Seq<Rectangle>, os: Seq<Rectangle>) -> int
    decreases ss.len(),
{
    if ss.len() == 0 {
        0
    } else {
        max1(multi_ov_x(ss.drop_last(), os), row_ov_x(ss.last(), os))
    }
}

/// Largest y-contribution over all pairs drawn from the two segment lists.
pub open spec fn multi_ov_y(ss: Seq<Rectangle>, os: Seq<Rectangle>) -> int
    decreases ss.len(),
{
    if ss.len() == 0 {
        0
    } else {
        max1(multi_ov_y(ss.drop_last(), os), row_ov_y(ss.last(), os))
    }
}

/// The wrap segments of one live entity's position.
pub open spec fn segs_of(g: Game, id: int) -> Seq<Rectangle> {
    g.entries()[id].position.spec_segments(g.w(), g.h())
}

/// Everything but the position and the per-action marker agrees between the
/// two component records.
pub open spec fn same_non_positional(a: Entity, b: Entity) -> bool {
    &&& b.velocity == a.velocity
    &&& b.animation == a.animation
    &&& b.moveable == a.moveable
    &&& b.color == a.color
    &&& b.position.width == a.position.width
    &&& b.position.height == a.position.height
}

/// The live entities not yet processed during the current movement action.
pub open spec fn unmarked_live(g: Game) -> Set<int> {
    g.entries().dom().filter(|id: int| !g.entries()[id].moved_this_action)
}

/// What any movement action with mover `mover` preserves: the store's
/// id set and free chain, the world box, every entity's non-positional
/// components, the monotonicity of the processed markers, and the position
/// of everything that was already processed or cannot be pushed.
pub open spec fn move_frame(g0: Game, g1: Game, mover: int) -> bool {
    &&& g1.wf()
    &&& g1.entries().dom() == g0.entries().dom()
    &&& g1.vacant() == g0.vacant()
    &&& g1.bottom_right == g0.bottom_right
    &&& g1.square_side_length == g0.square_side_length
    &&& forall|id: int| g0.live(id)
        ==> same_non_positional(#[trigger] g0.entries()[id], g1.entries()[id])
    &&& forall|id: int| g0.live(id) && (#[trigger] g0.entries()[id]).moved_this_action
        ==> g1.entries()[id].moved_this_action
    &&& forall|id: int| g0.live(id) && id != mover
        && ((#[trigger] g0.entries()[id]).moved_this_action || !g0.entries()[id].moveable)
        ==> g1.entries()[id].position == g0.entries()[id].position
}

/// Where the mover's rectangle lands after the tentative wrapped translation.
pub open spec fn tent_rect(g: Game, e: int, delta: Point) -> Rectangle {
    g.entries()[e].position.spec_moved(delta, g.w(), g.h())
}

/// The mover's record after an unobstructed move: translated and marked.
pub open spec fn marked_moved(g: Game, e: int, delta: Point) -> Entity {
    Entity {
        position: tent_rect(g, e, delta),
        moved_this_action: true,
        ..g.entries()[e]
    }
}

/// No live, not-yet-processed entity overlaps the mover's tentative
/// footprint on both axes, so the move is absorbed by nothing.
pub open spec fn no_obstruction(g: Game, e: int, delta: Point) -> bool {
    forall|id: int| g.live(id) && id != e && !g.entries()[id].moved_this_action
        ==> {
            ||| multi_ov_x(
                tent_rect(g, e, delta).spec_segments(g.w(), g.h()),
                #[trigger] segs_of(g, id),
            ) == 0
            ||| multi_ov_y(
                tent_rect(g, e, delta).spec_segments(g.w(), g.h()),
                segs_of(g, id),
            ) == 0
        }
}

/// No other live entity overlaps the mover's tentative footprint on both
/// axes; the form of `no_obstruction` that holds after all per-action
/// markers were cleared.
pub open spec fn no_obstruction_all(g: Game, e: int, delta: Point) -> bool {
    forall|id: int| g.live(id) && id != e
        ==> {
            ||| multi_ov_x(
                tent_rect(g, e, delta).spec_segments(g.w(), g.h()),
                #[trigger] segs_of(g, id),
            ) == 0
            ||| multi_ov_y(
                tent_rect(g, e, delta).spec_segments(g.w(), g.h()),
                segs_of(g, id),
            ) == 0
        }
}

/// The store contents after an unobstructed outer move: every marker
/// cleared, the mover translated and marked.
pub open spec fn after_clear_move(g: Game, e: int, delta: Point) -> Map<int, Entity> {
    Map::new(
        |id: int| g.entries().dom().contains(id),
        |id: int|
            if id == e {
                marked_moved(g, e, delta)
            } else {
                Entity { moved_this_action: false, ..g.entries()[id] }
            },
    )
}

/// What a tick keeps of each entity: everything except its position and,
/// for an animated entity, the tracked pendulum displacement.
pub open spec fn same_persistent(a: Entity, b: Entity) -> bool {
    &&& b.velocity == a.velocity
    &&& b.moveable == a.moveable
    &&& b.color == a.color
    &&& b.position.width == a.position.width
    &&& b.position.height == a.position.height
    &&& match (a.animation, b.animation) {
        (
            Some(Animation::Pendulum { max_distance: m1, .. }),
            Some(Animation::Pendulum { max_distance: m2, .. }),
        ) => m1 == m2,
        (None, None) => true,
        _ => false,
    }
}

/// A rectangle wholly inside the world is its own single wrap segment.
pub proof fn lemma_segments_interior(r: Rectangle, w: int, h: int)
    requires
        0 < w,
        0 < h,
        r.interior_of(w, h),
    ensures
        r.spec_segments(w, h) =~= seq![r],
{
}

/// Against single segments, the footprint overlap is the plain pair
/// contribution.
pub proof fn lemma_multi_ov_single(a: Rectangle, b: Rectangle)
    ensures
        multi_ov_x(seq![a], seq![b]) == pair_contrib_x(a, b),
        multi_ov_y(seq![a], seq![b]) == pair_contrib_y(a, b),
{
    let sa = seq![a];
    let sb = seq![b];
    assert(sa.drop_last() =~= Seq::empty());
    assert(sb.drop_last() =~= Seq::empty());
    assert(row_ov_x(a, sb) == max1(row_ov_x(a, sb.drop_last()), pair_contrib_x(a, b)));
    assert(row_ov_x(a, sb.drop_last()) == 0);
    assert(row_ov_y(a, sb.drop_last()) == 0);
    assert(multi_ov_x(sa, sb) == max1(multi_ov_x(sa.drop_last(), sb), row_ov_x(a, sb)));
    assert(multi_ov_x(sa.drop_last(), sb) == 0);
    assert(multi_ov_y(sa.drop_last(), sb) == 0);
}

/// The mover's tentative rectangle under an axis-aligned, in-world move:
/// a plain translation, no wrap involved.
pub proof fn lemma_tent_plain(g: Game, e: int, d: Point)
    requires
        g.wf(),
        g.live(e),
        g.entries()[e].position.valid_for(g.w(), g.h()),
        -MAX_DELTA <= d.x <= MAX_DELTA,
        -MAX_DELTA <= d.y <= MAX_DELTA,
        0 <= g.entries()[e].position.top_left.x + d.x,
        g.entries()[e].position.top_left.x + d.x < g.w(),
        0 <= g.entries()[e].position.top_left.y + d.y,
        g.entries()[e].position.top_left.y + d.y < g.h(),
    ensures
        tent_rect(g, e, d) == (Rectangle {
            top_left: Point {
                x: (g.entries()[e].position.top_left.x + d.x) as GameInt,
                y: (g.entries()[e].position.top_left.y + d.y) as GameInt,
            },
            width: g.entries()[e].position.width,
            height: g.entries()[e].position.height,
        }),
{
    let p = g.entries()[e].position.top_left;
    crate::geom::lemma_wrap_in_range(p.x as int, d.x as int, g.w());
    crate::geom::lemma_wrap_in_range(p.y as int, d.y as int, g.h());
}

/// A rectangle translated without wrap.
pub open spec fn shift_rect(p: Rectangle, dx: int, dy: int) -> Rectangle {
    Rectangle {
        top_left: Point {
            x: (p.top_left.x + dx) as GameInt,
            y: (p.top_left.y + dy) as GameInt,
        },
        width: p.width,
        height: p.height,
    }
}

/// One live entity blocks the mover's tentative footprint on both axes.
pub open spec fn obstructs(g: Game, e: int, d: Point, id: int) -> bool {
    &&& g.live(id) && id != e
    &&& ov_x(tent_rect(g, e, d), g.entries()[id].position) > 0
    &&& ov_y(tent_rect(g, e, d), g.entries()[id].position) > 0
}

/// The setting of a pure-x move into a field of immovable obstacles: the
/// mover and every obstacle sit wholly inside the world, every other live
/// entity is an unprocessed immovable obstacle disjoint from the mover, the
/// move stays inside the world, and the step is no longer than the mover or
/// any obstacle is wide.
pub open spec fn blocked_setting_x(g: Game, e: int, d: Point) -> bool {
    &&& g.wf()
    &&& g.live(e)
    &&& !g.entries()[e].moved_this_action
    &&& d.y == 0
    &&& -MAX_DELTA <= d.x <= MAX_DELTA
    &&& g.entries()[e].position.interior_of(g.w(), g.h())
    &&& 0 <= g.entries()[e].position.top_left.x + d.x
    &&& g.entries()[e].position.top_left.x + d.x + g.entries()[e].position.width <= g.w()
    &&& abs1(d.x as int) <= g.entries()[e].position.width
    &&& forall|id: int| g.live(id) && id != e ==> {
        &&& !(#[trigger] g.entries()[id]).moved_this_action
        &&& !g.entries()[id].moveable
        &&& g.entries()[id].position.interior_of(g.w(), g.h())
        &&& crate::geom::boxes_disjoint(g.entries()[e].position, g.entries()[id].position)
        &&& abs1(d.x as int) <= g.entries()[id].position.width
    }
}

/// What a pure-x move into a field of immovable obstacles produces: the
/// mover ends disjoint from every obstacle, only its x-coordinate changed,
/// and the returned applied delta is the move minus the largest per-axis
/// overlap that the blocked tentative position had.
pub open spec fn blocked_outcome_x(g0: Game, g1: Game, e: int, d: Point, applied: Point) -> bool {
    let p0 = g0.entries()[e].position;
    let tsh = tent_rect(g0, e, d);
    &&& forall|id: int| g0.live(id) && id != e
        ==> crate::geom::boxes_disjoint(
            g1.entries()[e].position,
            (#[trigger] g0.entries()[id]).position,
        )
    &&& g1.entries()[e].position.top_left.y == p0.top_left.y
    &&& g1.entries()[e].position.width == p0.width
    &&& g1.entries()[e].position.height == p0.height
    &&& applied.y <= 0
    &&& forall|id: int| #[trigger] obstructs(g0, e, d, id) ==> {
        &&& applied.x <= d.x - ov_x(tsh, g0.entries()[id].position)
        &&& applied.y <= -ov_y(tsh, g0.entries()[id].position)
    }
    &&& (exists|id: int| #[trigger] obstructs(g0, e, d, id)) ==> {
        &&& exists|id: int| #[trigger] obstructs(g0, e, d, id)
            && applied.x == d.x - ov_x(tsh, g0.entries()[id].position)
        &&& exists|id: int| #[trigger] obstructs(g0, e, d, id)
            && applied.y == -ov_y(tsh, g0.entries()[id].position)
    }
    &&& !(exists|id: int| #[trigger] obstructs(g0, e, d, id)) ==> {
        &&& applied == d
        &&& g1.entries()[e].position == tsh
    }
    &&& d.x > 0 ==> g1.entries()[e].position.top_left.x == p0.top_left.x + applied.x
    &&& d.x < 0 ==> g1.entries()[e].position.top_left.x == p0.top_left.x + 2 * d.x - applied.x
}

/// What a pure-y move into a field of immovable obstacles produces.
pub open spec fn blocked_outcome_y(g0: Game, g1: Game, e: int, d: Point, applied: Point) -> bool {
    let p0 = g0.entries()[e].position;
    let tsh = tent_rect(g0, e, d);
    &&& forall|id: int| g0.live(id) && id != e
        ==> crate::geom::boxes_disjoint(
            g1.entries()[e].position,
            (#[trigger] g0.entries()[id]).position,
        )
    &&& g1.entries()[e].position.top_left.x == p0.top_left.x
    &&& g1.entries()[e].position.width == p0.width
    &&& g1.entries()[e].position.height == p0.height
    &&& applied.x <= 0
    &&& forall|id: int| #[trigger] obstructs(g0, e, d, id) ==> {
        &&& applied.y <= d.y - ov_y(tsh, g0.entries()[id].position)
        &&& applied.x <= -ov_x(tsh, g0.entries()[id].position)
    }
    &&& (exists|id: int| #[trigger] obstructs(g0, e, d, id)) ==> {
        &&& exists|id: int| #[trigger] obstructs(g0, e, d, id)
            && applied.y == d.y - ov_y(tsh, g0.entries()[id].position)
        &&& exists|id: int| #[trigger] obstructs(g0, e, d, id)
            && applied.x == -ov_x(tsh, g0.entries()[id].position)
    }
    &&& !(exists|id: int| #[trigger] obstructs(g0, e, d, id)) ==> {
        &&& applied == d
        &&& g1.entries()[e].position == tsh
    }
    &&& d.y > 0 ==> g1.entries()[e].position.top_left.y == p0.top_left.y + applied.y
    &&& d.y < 0 ==> g1.entries()[e].position.top_left.y == p0.top_left.y + 2 * d.y - applied.y
}

/// The setting of a pure-y move into a field of immovable obstacles.
pub open spec fn blocked_setting_y(g: Game, e: int, d: Point) -> bool {
    &&& g.wf()
    &&& g.live(e)
    &&& !g.entries()[e].moved_this_action
    &&& d.x == 0
    &&& -MAX_DELTA <= d.y <= MAX_DELTA
    &&& g.entries()[e].position.interior_of(g.w(), g.h())
    &&& 0 <= g.entries()[e].position.top_left.y + d.y
    &&& g.entries()[e].position.top_left.y + d.y + g.entries()[e].position.height <= g.h()
    &&& abs1(d.y as int) <= g.entries()[e].position.height
    &&& forall|id: int| g.live(id) && id != e ==> {
        &&& !(#[trigger] g.entries()[id]).moved_this_action
        &&& !g.entries()[id].moveable
        &&& g.entries()[id].position.interior_of(g.w(), g.h())
        &&& crate::geom::boxes_disjoint(g.entries()[e].position, g.entries()[id].position)
        &&& abs1(d.y as int) <= g.entries()[id].position.height
    }
}

/// The outer-move form of `blocked_setting_x`: the same field of immovable
/// obstacles, with no condition on the per-action markers, which the outer
/// move clears itself.
pub open spec fn axis_move_setting_x(g: Game, e: int, d: Point) -> bool {
    &&& g.wf()
    &&& g.live(e)
    &&& d.y == 0
    &&& -MAX_DELTA <= d.x <= MAX_DELTA
    &&& g.entries()[e].position.interior_of(g.w(), g.h())
    &&& 0 <= g.entries()[e].position.top_left.x + d.x
    &&& g.entries()[e].position.top_left.x + d.x + g.entries()[e].position.width <= g.w()
    &&& abs1(d.x as int) <= g.entries()[e].position.width
    &&& forall|id: int| g.live(id) && id != e ==> {
        &&& !(#[trigger] g.entries()[id]).moveable
        &&& g.entries()[id].position.interior_of(g.w(), g.h())
        &&& crate::geom::boxes_disjoint(g.entries()[e].position, g.entries()[id].position)
        &&& abs1(d.x as int) <= g.entries()[id].position.width
    }
}

/// The outer-move form of `blocked_setting_y`.
pub open spec fn axis_move_setting_y(g: Game, e: int, d: Point) -> bool {
    &&& g.wf()
    &&& g.live(e)
    &&& d.x == 0
    &&& -MAX_DELTA <= d.y <= MAX_DELTA
    &&& g.entries()[e].position.interior_of(g.w(), g.h())
    &&& 0 <= g.entries()[e].position.top_left.y + d.y
    &&& g.entries()[e].position.top_left.y + d.y + g.entries()[e].position.height <= g.h()
    &&& abs1(d.y as int) <= g.entries()[e].position.height
    &&& forall|id: int| g.live(id) && id != e ==> {
        &&& !(#[trigger] g.entries()[id]).moveable
        &&& g.entries()[id].position.interior_of(g.w(), g.h())
        &&& crate::geom::boxes_disjoint(g.entries()[e].position, g.entries()[id].position)
        &&& abs1(d.y as int) <= g.entries()[id].position.height
    }
}

/// A blocked outcome only speaks of entity positions and the world box, so
/// it transfers between two starting states that agree on those.
proof fn lemma_blocked_outcome_transfer_x(ga: Game, gb: Game, g1: Game, e: int, d: Point, applied: Point)
    requires
        ga.entries().dom() == gb.entries().dom(),
        ga.bottom_right == gb.bottom_right,
        ga.live(e),
        forall|id: int| ga.live(id)
            ==> (#[trigger] ga.entries()[id]).position == gb.entries()[id].position,
        blocked_outcome_x(gb, g1, e, d, applied),
    ensures
        blocked_outcome_x(ga, g1, e, d, applied),
{
    assert(tent_rect(gb, e, d) == tent_rect(ga, e, d));
    assert forall|id: int| #[trigger] obstructs(ga, e, d, id) == obstructs(gb, e, d, id) by {
        if ga.live(id) {
            assert(ga.entries()[id].position == gb.entries()[id].position);
        }
    }
    assert forall|id: int| ga.live(id) && id != e
        implies crate::geom::boxes_disjoint(
            g1.entries()[e].position,
            (#[trigger] ga.entries()[id]).position,
        ) by {
        assert(gb.live(id));
        assert(crate::geom::boxes_disjoint(g1.entries()[e].position, gb.entries()[id].position));
    }
    if exists|id: int| #[trigger] obstructs(ga, e, d, id) {
        let id0 = choose|id: int| #[trigger] obstructs(ga, e, d, id);
        assert(obstructs(gb, e, d, id0));
        let i = choose|id: int| #[trigger] obstructs(gb, e, d, id)
            && applied.x == d.x - ov_x(tent_rect(gb, e, d), gb.entries()[id].position);
        assert(obstructs(ga, e, d, i)
            && applied.x == d.x - ov_x(tent_rect(ga, e, d), ga.entries()[i].position));
        let j = choose|id: int| #[trigger] obstructs(gb, e, d, id)
            && applied.y == -ov_y(tent_rect(gb, e, d), gb.entries()[id].position);
        assert(obstructs(ga, e, d, j)
            && applied.y == -ov_y(tent_rect(ga, e, d), ga.entries()[j].position));
    } else {
        assert(!(exists|id: int| #[trigger] obstructs(gb, e, d, id))) by {
            if exists|id: int| #[trigger] obstructs(gb, e, d, id) {
                let id0 = choose|id: int| #[trigger] obstructs(gb, e, d, id);
                assert(obstructs(ga, e, d, id0));
            }
        }
    }
}

/// The pure-y counterpart of `lemma_blocked_outcome_transfer_x`.
proof fn lemma_blocked_outcome_transfer_y(ga: Game, gb: Game, g1: Game, e: int, d: Point, applied: Point)
    requires
        ga.entries().dom() == gb.entries().dom(),
        ga.bottom_right == gb.bottom_right,
        ga.live(e),
        forall|id: int| ga.live(id)
            ==> (#[trigger] ga.entries()[id]).position == gb.entries()[id].position,
        blocked_outcome_y(gb, g1, e, d, applied),
    ensures
        blocked_outcome_y(ga, g1, e, d, applied),
{
    assert(tent_rect(gb, e, d) == tent_rect(ga, e, d));
    assert forall|id: int| #[trigger] obstructs(ga, e, d, id) == obstructs(gb, e, d, id) by {
        if ga.live(id) {
            assert(ga.entries()[id].position == gb.entries()[id].position);
        }
    }
    assert forall|id: int| ga.live(id) && id != e
        implies crate::geom::boxes_disjoint(
            g1.entries()[e].position,
            (#[trigger] ga.entries()[id]).position,
        ) by {
        assert(gb.live(id));
        assert(crate::geom::boxes_disjoint(g1.entries()[e].position, gb.entries()[id].position));
    }
    if exists|id: int| #[trigger] obstructs(ga, e, d, id) {
        let id0 = choose|id: int| #[trigger] obstructs(ga, e, d, id);
        assert(obstructs(gb, e, d, id0));
        let i = choose|id: int| #[trigger] obstructs(gb, e, d, id)
            && applied.y == d.y - ov_y(tent_rect(gb, e, d), gb.entries()[id].position);
        assert(obstructs(ga, e, d, i)
            && applied.y == d.y - ov_y(tent_rect(ga, e, d), ga.entries()[i].position));
        let j = choose|id: int| #[trigger] obstructs(gb, e, d, id)
            && applied.x == -ov_x(tent_rect(gb, e, d), gb.entries()[id].position);
        assert(obstructs(ga, e, d, j)
            && applied.x == -ov_x(tent_rect(ga, e, d), ga.entries()[j].position));
    } else {
        assert(!(exists|id: int| #[trigger] obstructs(gb, e, d, id))) by {
            if exists|id: int| #[trigger] obstructs(gb, e, d, id) {
                let id0 = choose|id: int| #[trigger] obstructs(gb, e, d, id);
                assert(obstructs(ga, e, d, id0));
            }
        }
    }
}

/// After a settled axis-aligned movement action in a field of immovable
/// obstacles whose rectangles were pairwise disjoint, every pair of live
/// entities is again disjoint: the obstacles did not move, and the mover
/// was retracted clear of all of them.
pub proof fn lemma_no_overlap_after_axis_move(g0: Game, g1: Game, e: int, d: Point, applied: Point)
    requires
        axis_move_setting_x(g0, e, d) || axis_move_setting_y(g0, e, d),
        axis_move_setting_x(g0, e, d) ==> blocked_outcome_x(g0, g1, e, d, applied),
        axis_move_setting_y(g0, e, d) ==> blocked_outcome_y(g0, g1, e, d, applied),
        g1.entries().dom() == g0.entries().dom(),
        forall|id: int| g0.live(id) && id != e && !(#[trigger] g0.entries()[id]).moveable
            ==> g1.entries()[id].position == g0.entries()[id].position,
        forall|i: int, j: int| g0.live(i) && g0.live(j) && i != j
            ==> crate::geom::boxes_disjoint(
                (#[trigger] g0.entries()[i]).position,
                (#[trigger] g0.entries()[j]).position,
            ),
    ensures
        forall|i: int, j: int| g1.live(i) && g1.live(j) && i != j
            ==> crate::geom::boxes_disjoint(
                (#[trigger] g1.entries()[i]).position,
                (#[trigger] g1.entries()[j]).position,
            ),
{
    assert forall|i: int, j: int| g1.live(i) && g1.live(j) && i != j
        implies crate::geom::boxes_disjoint(
            (#[trigger] g1.entries()[i]).position,
            (#[trigger] g1.entries()[j]).position,
        ) by {
        assert(g0.live(i) && g0.live(j));
        if i == e {
            assert(crate::geom::boxes_disjoint(g1.entries()[e].position, g0.entries()[j].position));
            assert(g1.entries()[j].position == g0.entries()[j].position);
        } else if j == e {
            assert(crate::geom::boxes_disjoint(g1.entries()[e].position, g0.entries()[i].position));
            assert(g1.entries()[i].position == g0.entries()[i].position);
        } else {
            assert(g1.entries()[i].position == g0.entries()[i].position);
            assert(g1.entries()[j].position == g0.entries()[j].position);
        }
    }
}

/// Translating a rectangle by exactly the world width, or exactly the
/// world height, is the same wrapped move as not moving at all.
pub proof fn lemma_wrap_move_full_period(r: Rectangle, w: int, h: int)
    requires
        0 < w <= MAX_DIM,
        0 < h <= MAX_DIM,
        r.valid_for(w, h),
    ensures
        r.spec_moved(Point { x: w as GameInt, y: 0 }, w, h) == r.spec_moved(
            Point { x: 0, y: 0 },
            w,
            h,
        ),
        r.spec_moved(Point { x: 0, y: h as GameInt }, w, h) == r.spec_moved(
            Point { x: 0, y: 0 },
            w,
            h,
        ),
        r.spec_moved(Point { x: 0, y: 0 }, w, h) == r,
{
    crate::geom::lemma_wrap_full_period(r.top_left.x as int, w);
    crate::geom::lemma_wrap_full_period(r.top_left.y as int, h);
}

/// In an otherwise-empty world, an outer move by exactly the world width
/// (or height) and an outer move by zero land the entity in the same
/// place: where it started.
pub proof fn lemma_world_width_move_lands_home(g0: Game, g1: Game, e: int, d: Point)
    requires
        g0.wf(),
        g0.live(e),
        forall|id: int| #[trigger] g0.live(id) ==> id == e,
        d == (Point { x: g0.bottom_right.x, y: 0 }) || d == (Point {
            x: 0,
            y: g0.bottom_right.y,
        }) || d == (Point { x: 0, y: 0 }),
        g1.entries() == after_clear_move(g0, e, d),
    ensures
        g1.entries()[e].position == g0.entries()[e].position,
{
    lemma_move_full_width_is_identity(g0, e);
}

/// In a world that holds no entity besides the mover, nothing can
/// obstruct any move, so the outer move applies the full delta and
/// returns it unchanged (`start_move_entity`'s contract then pins
/// `applied == delta` and the wrapped translation).
pub proof fn lemma_sole_entity_unobstructed(g: Game, e: int, d: Point)
    requires
        forall|id: int| #[trigger] g.live(id) ==> id == e,
    ensures
        no_obstruction_all(g, e, d),
{
}

/// After a moved entity lands, its wrapped footprint is exactly the old
/// footprint shifted: a move by the full world width leaves every point of
/// the footprint where it was.
pub proof fn lemma_move_full_width_is_identity(g: Game, e: int)
    requires
        g.wf(),
        g.live(e),
    ensures
        tent_rect(g, e, Point { x: g.bottom_right.x, y: 0 }) == g.entries()[e].position,
        tent_rect(g, e, Point { x: 0, y: g.bottom_right.y }) == g.entries()[e].position,
        tent_rect(g, e, Point { x: 0, y: 0 }) == g.entries()[e].position,
{
    lemma_wrap_move_full_period(g.entries()[e].position, g.w(), g.h());
}

/// When a stationary non-moveable entity absorbs the whole of a rightward
/// step — its overlap with the mover's tentative position is the full
/// step — the applied delta comes back with a zero x component and the
/// mover ends disjoint from the obstacle.
pub proof fn lemma_immovable_blocking_x(
    g0: Game,
    g1: Game,
    e: int,
    d: Point,
    applied: Point,
    blocker: int,
)
    requires
        axis_move_setting_x(g0, e, d),
        blocked_outcome_x(g0, g1, e, d, applied),
        d.x > 0,
        obstructs(g0, e, d, blocker),
        ov_x(tent_rect(g0, e, d), g0.entries()[blocker].position) == d.x,
    ensures
        applied.x == 0,
        crate::geom::boxes_disjoint(g1.entries()[e].position, g0.entries()[blocker].position),
{
    let p0 = g0.entries()[e].position;
    let tsh = tent_rect(g0, e, d);
    lemma_tent_plain(g0, e, d);
    assert(applied.x <= 0);
    // the witness overlap is at most the step, so the applied x cannot be
    // negative either
    let i = choose|id: int| #[trigger] obstructs(g0, e, d, id)
        && applied.x == d.x - ov_x(tent_rect(g0, e, d), g0.entries()[id].position);
    let obs = g0.entries()[i].position;
    assert(ov_x(tsh, obs) <= d.x) by {
        assert(crate::geom::boxes_disjoint(p0, obs));
        assert(ov_y(tsh, obs) > 0);
        if p0.top_left.x + p0.width <= obs.top_left.x {
        } else {
            assert(obs.top_left.x + obs.width <= p0.top_left.x);
        }
    }
}

/// When a stationary non-moveable entity absorbs the whole of a downward
/// step, the applied delta comes back with a zero y component and the
/// mover ends disjoint from the obstacle.
pub proof fn lemma_immovable_blocking_y(
    g0: Game,
    g1: Game,
    e: int,
    d: Point,
    applied: Point,
    blocker: int,
)
    requires
        axis_move_setting_y(g0, e, d),
        blocked_outcome_y(g0, g1, e, d, applied),
        d.y > 0,
        obstructs(g0, e, d, blocker),
        ov_y(tent_rect(g0, e, d), g0.entries()[blocker].position) == d.y,
    ensures
        applied.y == 0,
        crate::geom::boxes_disjoint(g1.entries()[e].position, g0.entries()[blocker].position),
{
    let p0 = g0.entries()[e].position;
    let tsh = tent_rect(g0, e, d);
    lemma_tent_plain(g0, e, d);
    assert(applied.y <= 0);
    let i = choose|id: int| #[trigger] obstructs(g0, e, d, id)
        && applied.y == d.y - ov_y(tent_rect(g0, e, d), g0.entries()[id].position);
    let obs = g0.entries()[i].position;
    assert(ov_y(tsh, obs) <= d.y) by {
        assert(crate::geom::boxes_disjoint(p0, obs));
        assert(ov_x(tsh, obs) > 0);
        if p0.top_left.y + p0.height <= obs.top_left.y {
        } else {
            assert(obs.top_left.y + obs.height <= p0.top_left.y);
        }
    }
}

/// After a pure-x step of at most either box's width, retracting the mover
/// by at least the measured x-overlap (and at most the step) leaves it
/// disjoint from an obstacle it was disjoint from before the step.
proof fn lemma_block_x_disjoint(p0: Rectangle, obs: Rectangle, d: int, ovx: int, fx: int)
    requires
        0 <= p0.top_left.x <= MAX_DIM,
        0 <= p0.top_left.y <= MAX_DIM,
        0 <= obs.top_left.x <= MAX_DIM,
        0 <= obs.top_left.y <= MAX_DIM,
        0 < p0.width <= MAX_DIM,
        0 < p0.height <= MAX_DIM,
        0 < obs.width <= MAX_DIM,
        0 < obs.height <= MAX_DIM,
        -MAX_DIM <= d <= MAX_DIM,
        crate::geom::boxes_disjoint(p0, obs),
        abs1(d) <= p0.width,
        abs1(d) <= obs.width,
        0 <= ovx <= abs1(d),
        fx == p0.top_left.x + d - (if d >= 0 { ovx } else { -ovx }),
        (ov_x(shift_rect(p0, d, 0), obs) > 0 && ov_y(shift_rect(p0, d, 0), obs) > 0)
            ==> ovx >= ov_x(shift_rect(p0, d, 0), obs),
    ensures
        crate::geom::boxes_disjoint(
            Rectangle {
                top_left: Point { x: fx as GameInt, y: p0.top_left.y },
                width: p0.width,
                height: p0.height,
            },
            obs,
        ),
{
    let tsh = shift_rect(p0, d, 0);
    let fin = Rectangle {
        top_left: Point { x: fx as GameInt, y: p0.top_left.y },
        width: p0.width,
        height: p0.height,
    };
    if ov_y(tsh, obs) <= 0 {
        // the boxes miss each other vertically, before and after
        assert(crate::geom::boxes_disjoint(fin, obs));
    } else {
        // vertical ranges meet, so the initial disjointness was horizontal
        assert(p0.top_left.x + p0.width <= obs.top_left.x
            || obs.top_left.x + obs.width <= p0.top_left.x);
        if p0.top_left.x + p0.width <= obs.top_left.x {
            // obstacle ahead (to the right)
            if d >= 0 {
                assert(tsh.top_left.x <= obs.top_left.x);
                assert(tsh.top_left.x + p0.width
                    <= obs.top_left.x + obs.width);
                if ov_x(tsh, obs) > 0 {
                    assert(ov_x(tsh, obs)
                        == tsh.top_left.x + p0.width - obs.top_left.x);
                    assert(fx + p0.width <= obs.top_left.x);
                } else {
                    assert(tsh.top_left.x + p0.width <= obs.top_left.x);
                    assert(fx <= tsh.top_left.x);
                }
            } else {
                // moving away from the obstacle
                assert(fx <= p0.top_left.x);
            }
            assert(crate::geom::boxes_disjoint(fin, obs));
        } else {
            // obstacle behind (to the left)
            if d <= 0 {
                assert(obs.top_left.x + obs.width <= p0.top_left.x);
                assert(obs.top_left.x <= tsh.top_left.x);
                assert(obs.top_left.x + obs.width <= tsh.top_left.x + p0.width);
                if ov_x(tsh, obs) > 0 {
                    assert(ov_x(tsh, obs)
                        == obs.top_left.x + obs.width - tsh.top_left.x);
                    assert(obs.top_left.x + obs.width <= fx);
                } else {
                    assert(obs.top_left.x + obs.width <= tsh.top_left.x);
                    assert(tsh.top_left.x <= fx);
                }
            } else {
                // moving away from the obstacle
                assert(p0.top_left.x <= fx);
            }
            assert(crate::geom::boxes_disjoint(fin, obs));
        }
    }
}

/// The pure-y counterpart of `lemma_block_x_disjoint`.
proof fn lemma_block_y_disjoint(p0: Rectangle, obs: Rectangle, d: int, ovy: int, fy: int)
    requires
        0 <= p0.top_left.x <= MAX_DIM,
        0 <= p0.top_left.y <= MAX_DIM,
        0 <= obs.top_left.x <= MAX_DIM,
        0 <= obs.top_left.y <= MAX_DIM,
        0 < p0.width <= MAX_DIM,
        0 < p0.height <= MAX_DIM,
        0 < obs.width <= MAX_DIM,
        0 < obs.height <= MAX_DIM,
        -MAX_DIM <= d <= MAX_DIM,
        crate::geom::boxes_disjoint(p0, obs),
        abs1(d) <= p0.height,
        abs1(d) <= obs.height,
        0 <= ovy <= abs1(d),
        fy == p0.top_left.y + d - (if d >= 0 { ovy } else { -ovy }),
        (ov_x(shift_rect(p0, 0, d), obs) > 0 && ov_y(shift_rect(p0, 0, d), obs) > 0)
            ==> ovy >= ov_y(shift_rect(p0, 0, d), obs),
    ensures
        crate::geom::boxes_disjoint(
            Rectangle {
                top_left: Point { x: p0.top_left.x, y: fy as GameInt },
                width: p0.width,
                height: p0.height,
            },
            obs,
        ),
{
    let tsh = shift_rect(p0, 0, d);
    let fin = Rectangle {
        top_left: Point { x: p0.top_left.x, y: fy as GameInt },
        width: p0.width,
        height: p0.height,
    };
    if ov_x(tsh, obs) <= 0 {
        assert(crate::geom::boxes_disjoint(fin, obs));
    } else {
        assert(p0.top_left.y + p0.height <= obs.top_left.y
            || obs.top_left.y + obs.height <= p0.top_left.y);
        if p0.top_left.y + p0.height <= obs.top_left.y {
            if d >= 0 {
                assert(tsh.top_left.y <= obs.top_left.y);
                assert(tsh.top_left.y + p0.height
                    <= obs.top_left.y + obs.height);
                if ov_y(tsh, obs) > 0 {
                    assert(ov_y(tsh, obs)
                        == tsh.top_left.y + p0.height - obs.top_left.y);
                    assert(fy + p0.height <= obs.top_left.y);
                } else {
                    assert(tsh.top_left.y + p0.height <= obs.top_left.y);
                    assert(fy <= tsh.top_left.y);
                }
            } else {
                assert(fy <= p0.top_left.y);
            }
            assert(crate::geom::boxes_disjoint(fin, obs));
        } else {
            if d <= 0 {
                assert(obs.top_left.y + obs.height <= p0.top_left.y);
                assert(obs.top_left.y <= tsh.top_left.y);
                assert(obs.top_left.y + obs.height <= tsh.top_left.y + p0.height);
                if ov_y(tsh, obs) > 0 {
                    assert(ov_y(tsh, obs)
                        == obs.top_left.y + obs.height - tsh.top_left.y);
                    assert(obs.top_left.y + obs.height <= fy);
                } else {
                    assert(obs.top_left.y + obs.height <= tsh.top_left.y);
                    assert(tsh.top_left.y <= fy);
                }
            } else {
                assert(p0.top_left.y <= fy);
            }
            assert(crate::geom::boxes_disjoint(fin, obs));
        }
    }
}

/// The world holds no live entity besides `e`.
pub open spec fn sole_entity(g: Game, e: int) -> bool {
    &&& g.live(e)
    &&& forall|id: int| #[trigger] g.live(id) ==> id == e
}

/// Where the two per-axis moves of one tick leave a lone entity: first the
/// pure-y component of its velocity scaled by `dt`, then the pure-x
/// component, each wrapped; the per-action marker ends set.
pub open spec fn sole_tick_moved(g: Game, e: int, dt: int) -> Entity {
    let ent = g.entries()[e];
    let p1 = ent.position.spec_moved(
        Point { x: 0, y: (ent.velocity.y * dt) as GameInt },
        g.w(),
        g.h(),
    );
    let p2 = p1.spec_moved(
        Point { x: (ent.velocity.x * dt) as GameInt, y: 0 },
        g.w(),
        g.h(),
    );
    Entity { position: p2, moved_this_action: true, ..ent }
}

/// The store one tick leaves behind in a world whose only live entity is
/// `e`, with a nonzero velocity: the entity moved along both axes and a
/// pendulum animation accumulated the full applied displacement,
/// saturating.
pub open spec fn sole_tick_result(g: Game, e: int, dt: int) -> Map<int, Entity> {
    let ent = g.entries()[e];
    let moved = sole_tick_moved(g, e, dt);
    let animation = match ent.animation {
        Some(Animation::Pendulum { distance, max_distance }) => Some(
            Animation::Pendulum {
                distance: Point {
                    x: sat_add_spec(distance.x as int, ent.velocity.x * dt) as GameInt,
                    y: sat_add_spec(distance.y as int, ent.velocity.y * dt) as GameInt,
                },
                max_distance,
            },
        ),
        None => None,
    };
    g.entries().insert(e, Entity { animation, ..moved })
}

/// A world in which exactly one entity — `m`, the mover — can move this
/// tick: every other live entity is an immovable obstacle at rest, all
/// rectangles sit wholly inside the world and are pairwise disjoint from
/// the mover, and the mover's step on each axis fits inside the world and
/// is no longer than the mover's or any obstacle's extent on that axis.
pub open spec fn lone_mover_setting(g: Game, m: int, dt: int) -> bool {
    let ent = g.entries()[m];
    let dx = ent.velocity.x * dt;
    let dy = ent.velocity.y * dt;
    &&& g.wf()
    &&& g.live(m)
    &&& ent.position.interior_of(g.w(), g.h())
    &&& 0 <= ent.position.top_left.y + dy
    &&& ent.position.top_left.y + dy + ent.position.height <= g.h()
    &&& 0 <= ent.position.top_left.x + dx
    &&& ent.position.top_left.x + dx + ent.position.width <= g.w()
    &&& abs1(dy) <= ent.position.height
    &&& abs1(dx) <= ent.position.width
    &&& forall|id: int| g.live(id) && id != m ==> {
        &&& (#[trigger] g.entries()[id]).velocity == Point::spec_origin()
        &&& !g.entries()[id].moveable
        &&& g.entries()[id].position.interior_of(g.w(), g.h())
        &&& crate::geom::boxes_disjoint(ent.position, g.entries()[id].position)
        &&& abs1(dy) <= g.entries()[id].position.height
        &&& abs1(dx) <= g.entries()[id].position.width
    }
}

/// Composing a movement frame with the frame of a pushed, still-unprocessed,
/// moveable entity yields a movement frame for the original mover.
proof fn lemma_move_frame_trans(g0: Game, g1: Game, g2: Game, mover: int, pushed: int)
    requires
        move_frame(g0, g1, mover),
        move_frame(g1, g2, pushed),
        g0.live(pushed),
        pushed != mover,
        !g1.entries()[pushed].moved_this_action,
        g1.entries()[pushed].moveable,
    ensures
        move_frame(g0, g2, mover),
{
    assert forall|id: int| g0.live(id) implies same_non_positional(
        #[trigger] g0.entries()[id],
        g2.entries()[id],
    ) by {
        assert(same_non_positional(g0.entries()[id], g1.entries()[id]));
        assert(g1.live(id));
        assert(same_non_positional(g1.entries()[id], g2.entries()[id]));
    }
    assert forall|id: int| g0.live(id) && (#[trigger] g0.entries()[id]).moved_this_action
        implies g2.entries()[id].moved_this_action by {
        assert(g1.live(id) && g1.entries()[id].moved_this_action);
    }
    assert forall|id: int| g0.live(id) && id != mover
        && ((#[trigger] g0.entries()[id]).moved_this_action || !g0.entries()[id].moveable)
        implies g2.entries()[id].position == g0.entries()[id].position by {
        assert(g1.live(id));
        assert(same_non_positional(g0.entries()[id], g1.entries()[id]));
        if id == pushed {
            // the pushed entity is moveable and unprocessed in g1, so it
            // cannot fall under this clause
            assert(g0.entries()[id].moveable);
            assert(!g0.entries()[id].moved_this_action);
        } else {
            assert(g1.entries()[id].position == g0.entries()[id].position);
            assert(g1.entries()[id].moved_this_action || !g1.entries()[id].moveable);
            assert(g2.entries()[id].position == g1.entries()[id].position);
        }
    }
}

impl Game {
    /// The per-axis overlap of the given segments with the wrap segments of
    /// entity `other`: the element-wise maximum over all segment pairs that
    /// genuinely intersect.
    fn entity_overlap(&self, entity_segments: &Vec<Rectangle>, other: EntityId) -> (ov: Point)
        requires
            self.wf(),
            self.live(other as int),
            forall|i: int| 0 <= i < entity_segments@.len()
                ==> (#[trigger] entity_segments@[i]).interior_of(self.w(), self.h()),
        ensures
            ov.x == multi_ov_x(entity_segments@, segs_of(*self, other as int)),
            ov.y == multi_ov_y(entity_segments@, segs_of(*self, other as int)),
            0 <= ov.x <= MAX_DIM,
            0 <= ov.y <= MAX_DIM,
    {
        let other_rect = self.entity(other).position;
        let other_segs = other_rect.segments(self.bottom_right);
        proof {
            lemma_segments_valid(other_rect, self.w(), self.h());
        }
        let ghost ss = entity_segments@;
        let ghost os = other_segs@;
        let mut ov = Point { x: 0, y: 0 };
        let mut i: usize = 0;
        while i < entity_segments.len()
            invariant
                self.wf(),
                i <= ss.len(),
                entity_segments@ == ss,
                other_segs@ == os,
                os == segs_of(*self, other as int),
                forall|k: int| 0 <= k < ss.len()
                    ==> (#[trigger] ss[k]).interior_of(self.w(), self.h()),
                forall|k: int| 0 <= k < os.len()
                    ==> (#[trigger] os[k]).interior_of(self.w(), self.h()),
                ov.x == multi_ov_x(ss.take(i as int), os),
                ov.y == multi_ov_y(ss.take(i as int), os),
                0 <= ov.x <= MAX_DIM,
                0 <= ov.y <= MAX_DIM,
            decreases ss.len() - i,
        {
            let a = entity_segments[i];
            let mut j: usize = 0;
            let mut row = Point { x: 0, y: 0 };
            while j < other_segs.len()
                invariant
                    self.wf(),
                    j <= os.len(),
                    other_segs@ == os,
                    a.interior_of(self.w(), self.h()),
                    forall|k: int| 0 <= k < os.len()
                        ==> (#[trigger] os[k]).interior_of(self.w(), self.h()),
                    row.x == row_ov_x(a, os.take(j as int)),
                    row.y == row_ov_y(a, os.take(j as int)),
                    0 <= row.x <= MAX_DIM,
                    0 <= row.y <= MAX_DIM,
                decreases os.len() - j,
            {
                let b = other_segs[j];
                match a.overlap(&b) {
                    Some(o) => {
                        row = row.max(Point { x: o.width, y: o.height });
                    },
                    None => {},
                }
                proof {
                    assert(os.take(j + 1).drop_last() =~= os.take(j as int));
                    assert(os.take(j + 1).last() == os[j as int]);
                }
                j = j + 1;
            }
            proof {
                assert(os.take(os.len() as int) =~= os);
            }
            ov = ov.max(row);
            proof {
                assert(ss.take(i + 1).drop_last() =~= ss.take(i as int));
                assert(ss.take(i + 1).last() == ss[i as int]);
            }
            i = i + 1;
        }
        proof {
            assert(ss.take(ss.len() as int) =~= ss);
        }
        ov
    }

    /// Moves an entity by `delta` with wrap-around and resolves collisions
    /// by pushing: moveable obstacles are shoved along the delta first, the
    /// largest residual per-axis overlap is measured, and the mover is
    /// retracted by it when it remains embedded on both axes. Returns
    /// `delta` minus the measured residual overlap: the part of the motion
    /// that was effectively absorbed is missing from the result.
    ///
    /// Callers of the outer move clear the per-action markers first; the
    /// marker bounds the push cascade to one visit per entity per action.
    #[verifier::rlimit(100)]
    #[verifier::spinoff_prover]
    pub fn move_entity(&mut self, entity: EntityId, delta: Point) -> (applied: Point)
        requires
            old(self).wf(),
            old(self).live(entity as int),
            !old(self).entries()[entity as int].moved_this_action,
            -MAX_DELTA <= delta.x <= MAX_DELTA,
            -MAX_DELTA <= delta.y <= MAX_DELTA,
        ensures
            move_frame(*old(self), *final(self), entity as int),
            final(self).entries()[entity as int].moved_this_action,
            unmarked_live(*final(self)).subset_of(
                unmarked_live(*old(self)).remove(entity as int),
            ),
            forall|id: int| old(self).live(id) && id != entity as int
                && !(#[trigger] final(self).entries()[id]).moved_this_action
                ==> final(self).entries()[id].position == old(self).entries()[id].position,
            forall|id: int| old(self).live(id) && id != entity as int
                && final(self).entries()[id].moved_this_action
                && !(#[trigger] old(self).entries()[id]).moved_this_action
                ==> old(self).entries()[id].moveable,
            -MAX_DELTA - MAX_DIM <= applied.x <= MAX_DELTA,
            -MAX_DELTA - MAX_DIM <= applied.y <= MAX_DELTA,
            applied.x <= delta.x,
            applied.y <= delta.y,
            no_obstruction(*old(self), entity as int, delta) ==> {
                &&& final(self).entries() == old(self).entries().insert(
                    entity as int,
                    marked_moved(*old(self), entity as int, delta),
                )
                &&& applied == delta
            },
            blocked_setting_x(*old(self), entity as int, delta)
                ==> blocked_outcome_x(*old(self), *final(self), entity as int, delta, applied),
            blocked_setting_y(*old(self), entity as int, delta)
                ==> blocked_outcome_y(*old(self), *final(self), entity as int, delta, applied),
        decreases unmarked_live(*self).len(),
    {
        let ghost g0 = *self;
        let w = self.width();
        let h = self.height();
        let bottom_right = Point { x: w, y: h };
        let e0 = *self.entity(entity);
        let mut pos = e0.position;
        pos.move_(delta, w, h);
        let e1 = Entity { position: pos, moved_this_action: true, ..e0 };
        crate::slab_store::slab_set(&mut self.entities, entity, e1);
        proof {
            assert(self.entries() =~= g0.entries().insert(entity as int, e1));
            assert(unmarked_live(*self) =~= unmarked_live(g0).remove(entity as int));
            assert(self.wf());
            assert(self.entries().dom() =~= g0.entries().dom());
            assert forall|id: int| g0.live(id) implies same_non_positional(
                #[trigger] g0.entries()[id],
                self.entries()[id],
            ) by {}
            assert(move_frame(g0, *self, entity as int));
        }
        let entity_segments = pos.segments(bottom_right);
        proof {
            lemma_segments_valid(pos, w as int, h as int);
        }
        let ids = self.live_ids();
        let ghost idseq = ids@;
        let ghost tsh = tent_rect(g0, entity as int, delta);
        proof {
            assert forall|id2: int| #[trigger] g0.live(id2) implies exists|i: int|
                0 <= i < idseq.len() && idseq[i] as int == id2 by {
                assert(self.live(id2));
            }
            if blocked_setting_x(g0, entity as int, delta) {
                lemma_tent_plain(g0, entity as int, delta);
                assert(tsh == shift_rect(g0.entries()[entity as int].position, delta.x as int, 0));
                lemma_segments_interior(tsh, g0.w(), g0.h());
                assert(tsh.spec_segments(g0.w(), g0.h()) == seq![tsh]);
            }
            if blocked_setting_y(g0, entity as int, delta) {
                lemma_tent_plain(g0, entity as int, delta);
                assert(tsh == shift_rect(g0.entries()[entity as int].position, 0, delta.y as int));
                lemma_segments_interior(tsh, g0.w(), g0.h());
                assert(tsh.spec_segments(g0.w(), g0.h()) == seq![tsh]);
            }
        }
        let mut ov = Point { x: 0, y: 0 };
        let mut k: usize = 0;
        #[verifier::loop_isolation(false)]
        while k < ids.len()
            invariant
                self.wf(),
                move_frame(g0, *self, entity as int),
                g0.wf(),
                g0.live(entity as int),
                !g0.entries()[entity as int].moved_this_action,
                -MAX_DELTA <= delta.x <= MAX_DELTA,
                -MAX_DELTA <= delta.y <= MAX_DELTA,
                w == g0.bottom_right.x,
                h == g0.bottom_right.y,
                self.entries()[entity as int] == marked_moved(g0, entity as int, delta),
                unmarked_live(*self).subset_of(unmarked_live(g0).remove(entity as int)),
                forall|id2: int| g0.live(id2) && id2 != entity as int
                    && !(#[trigger] self.entries()[id2]).moved_this_action
                    ==> self.entries()[id2].position == g0.entries()[id2].position,
                forall|id2: int| g0.live(id2) && id2 != entity as int
                    && self.entries()[id2].moved_this_action
                    && !(#[trigger] g0.entries()[id2]).moved_this_action
                    ==> g0.entries()[id2].moveable,
                ids@ == idseq,
                k <= idseq.len(),
                tsh == tent_rect(g0, entity as int, delta),
                forall|i: int| 0 <= i < idseq.len() ==> g0.live(#[trigger] idseq[i] as int),
                forall|id: int| #[trigger] g0.live(id)
                    ==> exists|i: int| 0 <= i < idseq.len() && idseq[i] as int == id,
                entity_segments@ == tent_rect(g0, entity as int, delta).spec_segments(
                    g0.w(),
                    g0.h(),
                ),
                forall|i: int| 0 <= i < entity_segments@.len()
                    ==> (#[trigger] entity_segments@[i]).interior_of(g0.w(), g0.h()),
                0 <= ov.x <= MAX_DIM,
                0 <= ov.y <= MAX_DIM,
                no_obstruction(g0, entity as int, delta) ==> {
                    &&& self.entries() == g0.entries().insert(
                        entity as int,
                        marked_moved(g0, entity as int, delta),
                    )
                    &&& ov == (Point { x: 0, y: 0 })
                },
                blocked_setting_x(g0, entity as int, delta) ==> {
                    &&& self.entries() == g0.entries().insert(
                        entity as int,
                        marked_moved(g0, entity as int, delta),
                    )
                    &&& ov.x <= abs1(delta.x as int)
                    &&& (ov.x > 0 <==> ov.y > 0)
                    &&& forall|i: int| #![auto] 0 <= i < k
                        && obstructs(g0, entity as int, delta, idseq[i] as int) ==> {
                        &&& ov.x >= ov_x(tsh, g0.entries()[idseq[i] as int].position)
                        &&& ov.y >= ov_y(tsh, g0.entries()[idseq[i] as int].position)
                    }
                    &&& ov.x == 0 ==> forall|i: int| #![auto] 0 <= i < k
                        ==> !obstructs(g0, entity as int, delta, idseq[i] as int)
                    &&& ov.x > 0 ==> {
                        &&& exists|i: int| #![auto] 0 <= i < k
                            && obstructs(g0, entity as int, delta, idseq[i] as int)
                            && ov.x == ov_x(tsh, g0.entries()[idseq[i] as int].position)
                        &&& exists|i: int| #![auto] 0 <= i < k
                            && obstructs(g0, entity as int, delta, idseq[i] as int)
                            && ov.y == ov_y(tsh, g0.entries()[idseq[i] as int].position)
                    }
                },
                blocked_setting_y(g0, entity as int, delta) ==> {
                    &&& self.entries() == g0.entries().insert(
                        entity as int,
                        marked_moved(g0, entity as int, delta),
                    )
                    &&& ov.y <= abs1(delta.y as int)
                    &&& (ov.x > 0 <==> ov.y > 0)
                    &&& forall|i: int| #![auto] 0 <= i < k
                        && obstructs(g0, entity as int, delta, idseq[i] as int) ==> {
                        &&& ov.x >= ov_x(tsh, g0.entries()[idseq[i] as int].position)
                        &&& ov.y >= ov_y(tsh, g0.entries()[idseq[i] as int].position)
                    }
                    &&& ov.y == 0 ==> forall|i: int| #![auto] 0 <= i < k
                        ==> !obstructs(g0, entity as int, delta, idseq[i] as int)
                    &&& ov.y > 0 ==> {
                        &&& exists|i: int| #![auto] 0 <= i < k
                            && obstructs(g0, entity as int, delta, idseq[i] as int)
                            && ov.x == ov_x(tsh, g0.entries()[idseq[i] as int].position)
                        &&& exists|i: int| #![auto] 0 <= i < k
                            && obstructs(g0, entity as int, delta, idseq[i] as int)
                            && ov.y == ov_y(tsh, g0.entries()[idseq[i] as int].position)
                    }
                },
            decreases idseq.len() - k,
        {
            let id = ids[k];
            if id != entity {
                let ecur = *self.entity(id);
                proof {
                    if blocked_setting_x(g0, entity as int, delta)
                        || blocked_setting_y(g0, entity as int, delta) {
                        assert(g0.live(id as int));
                        assert(self.entries()[id as int] == g0.entries()[id as int]);
                        assert(!ecur.moved_this_action);
                    }
                }
                if !ecur.moved_this_action {
                    let eo = self.entity_overlap(&entity_segments, id);
                    let ghost obs = g0.entries()[id as int].position;
                    proof {
                        if blocked_setting_x(g0, entity as int, delta)
                            || blocked_setting_y(g0, entity as int, delta) {
                            lemma_segments_interior(obs, g0.w(), g0.h());
                            assert(obs.spec_segments(g0.w(), g0.h()) == seq![obs]);
                            assert(segs_of(*self, id as int) == seq![obs]);
                            assert(entity_segments@ == seq![tsh]);
                            lemma_multi_ov_single(tsh, obs);
                            assert(eo.x == pair_contrib_x(tsh, obs));
                            assert(eo.y == pair_contrib_y(tsh, obs));
                            assert((eo.x != 0 && eo.y != 0)
                                == obstructs(g0, entity as int, delta, id as int));
                        }
                    }
                    if eo.x != 0 && eo.y != 0 {
                        proof {
                            if no_obstruction(g0, entity as int, delta) {
                                // under no obstruction this branch is dead:
                                // the current entity equals its initial state
                                assert(self.entries()[id as int] == g0.entries()[id as int]);
                                assert(segs_of(*self, id as int) == segs_of(g0, id as int));
                            }
                        }
                        if ecur.moveable {
                            proof {
                                if blocked_setting_x(g0, entity as int, delta)
                                    || blocked_setting_y(g0, entity as int, delta) {
                                    // every other entity is immovable here
                                    assert(false);
                                }
                            }
                            let to_move = eo.min(delta.abs()).copysign(delta);
                            proof {
                                let ghost base = unmarked_live(g0);
                                g0.entries().dom().lemma_len_filter(
                                    |id2: int| !g0.entries()[id2].moved_this_action,
                                );
                                vstd::set_lib::lemma_set_remove_finite_iff(
                                    base,
                                    entity as int,
                                );
                                vstd::set_lib::lemma_len_subset(
                                    unmarked_live(*self),
                                    base.remove(entity as int),
                                );
                                vstd::set::axiom_set_remove_len(base, entity as int);
                                assert(base.contains(entity as int));
                                assert(unmarked_live(*self).len() < base.len());
                            }
                            let ghost pre = *self;
                            self.move_entity(id, to_move);
                            proof {
                                lemma_move_frame_trans(g0, pre, *self, entity as int, id as int);
                                assert(pre.entries()[entity as int].moved_this_action);
                                assert(self.entries()[entity as int]
                                    == pre.entries()[entity as int]) by {
                                    assert(same_non_positional(
                                        pre.entries()[entity as int],
                                        self.entries()[entity as int],
                                    ));
                                    assert(self.entries()[entity as int].position
                                        == pre.entries()[entity as int].position);
                                    assert(self.entries()[entity as int].moved_this_action);
                                }
                                assert(unmarked_live(*self).subset_of(
                                    unmarked_live(g0).remove(entity as int),
                                )) by {
                                    assert(unmarked_live(*self).subset_of(
                                        unmarked_live(pre).remove(id as int),
                                    ));
                                    assert(unmarked_live(pre).remove(id as int).subset_of(
                                        unmarked_live(pre),
                                    ));
                                    assert(unmarked_live(pre).subset_of(
                                        unmarked_live(g0).remove(entity as int),
                                    ));
                                }
                            }
                            let eo2 = self.entity_overlap(&entity_segments, id);
                            ov = ov.max(eo2);
                        } else {
                            let ghost ov_before = ov;
                            ov = ov.max(eo);
                            proof {
                                if blocked_setting_x(g0, entity as int, delta) {
                                    assert(obstructs(g0, entity as int, delta, id as int));
                                    let p0 = g0.entries()[entity as int].position;
                                    assert(ov_x(tsh, obs) <= abs1(delta.x as int)) by {
                                        assert(crate::geom::boxes_disjoint(p0, obs));
                                        assert(ov_y(tsh, obs) > 0);
                                        if p0.top_left.x + p0.width <= obs.top_left.x {
                                        } else {
                                            assert(obs.top_left.x + obs.width
                                                <= p0.top_left.x);
                                        }
                                    }
                                    if eo.x >= ov_before.x {
                                        assert(0 <= k < idseq.len() && obstructs(
                                            g0,
                                            entity as int,
                                            delta,
                                            idseq[k as int] as int,
                                        ) && ov.x == ov_x(
                                            tsh,
                                            g0.entries()[idseq[k as int] as int].position,
                                        ));
                                    }
                                    if eo.y >= ov_before.y {
                                        assert(0 <= k < idseq.len() && obstructs(
                                            g0,
                                            entity as int,
                                            delta,
                                            idseq[k as int] as int,
                                        ) && ov.y == ov_y(
                                            tsh,
                                            g0.entries()[idseq[k as int] as int].position,
                                        ));
                                    }
                                }
                                if blocked_setting_y(g0, entity as int, delta) {
                                    assert(obstructs(g0, entity as int, delta, id as int));
                                    let p0 = g0.entries()[entity as int].position;
                                    assert(ov_y(tsh, obs) <= abs1(delta.y as int)) by {
                                        assert(crate::geom::boxes_disjoint(p0, obs));
                                        assert(ov_x(tsh, obs) > 0);
                                        if p0.top_left.y + p0.height <= obs.top_left.y {
                                        } else {
                                            assert(obs.top_left.y + obs.height
                                                <= p0.top_left.y);
                                        }
                                    }
                                    if eo.x >= ov_before.x {
                                        assert(0 <= k < idseq.len() && obstructs(
                                            g0,
                                            entity as int,
                                            delta,
                                            idseq[k as int] as int,
                                        ) && ov.x == ov_x(
                                            tsh,
                                            g0.entries()[idseq[k as int] as int].position,
                                        ));
                                    }
                                    if eo.y >= ov_before.y {
                                        assert(0 <= k < idseq.len() && obstructs(
                                            g0,
                                            entity as int,
                                            delta,
                                            idseq[k as int] as int,
                                        ) && ov.y == ov_y(
                                            tsh,
                                            g0.entries()[idseq[k as int] as int].position,
                                        ));
                                    }
                                }
                            }
                        }
                    }
                }
            }
            k = k + 1;
        }
        proof {
            // lift the per-index running-maximum facts to per-id facts
            if blocked_setting_x(g0, entity as int, delta)
                || blocked_setting_y(g0, entity as int, delta) {
                assert forall|id2: int| #[trigger] obstructs(g0, entity as int, delta, id2)
                    implies ov.x >= ov_x(tsh, g0.entries()[id2].position)
                        && ov.y >= ov_y(tsh, g0.entries()[id2].position) by {
                    assert(g0.live(id2));
                    let i = choose|i: int| 0 <= i < idseq.len() && idseq[i] as int == id2;
                    assert(obstructs(g0, entity as int, delta, idseq[i] as int));
                }
                if ov.x == 0 || ov.y == 0 {
                    assert forall|id2: int|
                        !(#[trigger] obstructs(g0, entity as int, delta, id2)) by {
                        if obstructs(g0, entity as int, delta, id2) {
                            assert(g0.live(id2));
                            let i = choose|i: int|
                                0 <= i < idseq.len() && idseq[i] as int == id2;
                            assert(obstructs(g0, entity as int, delta, idseq[i] as int));
                            assert(ov.x >= ov_x(tsh, g0.entries()[id2].position));
                            assert(ov.y >= ov_y(tsh, g0.entries()[id2].position));
                            assert(false);
                        }
                    }
                }
            }
        }
        if ov.x > 0 && ov.y > 0 {
            let ghost before = *self;
            let to_move = ov.min(delta.abs()).copysign(delta).times(-1);
            let ecur = *self.entity(entity);
            let mut pos2 = ecur.position;
            pos2.move_(to_move, w, h);
            let e2 = Entity { position: pos2, ..ecur };
            crate::slab_store::slab_set(&mut self.entities, entity, e2);
            proof {
                assert(self.entries() =~= before.entries().insert(entity as int, e2));
                assert(self.wf());
                assert(unmarked_live(*self) =~= unmarked_live(before));
                if blocked_setting_x(g0, entity as int, delta) {
                    let p0 = g0.entries()[entity as int].position;
                    assert(delta.x != 0) by {
                        if delta.x == 0 {
                            let i = choose|i: int| #![auto] 0 <= i < idseq.len()
                                && obstructs(g0, entity as int, delta, idseq[i] as int)
                                && ov.x == ov_x(
                                    tsh,
                                    g0.entries()[idseq[i] as int].position,
                                );
                            let obs2 = g0.entries()[idseq[i] as int].position;
                            assert(tsh == shift_rect(p0, 0, 0));
                            assert(crate::geom::boxes_disjoint(p0, obs2));
                            assert(false);
                        }
                    }
                    assert(ecur.position == tsh);
                    assert(to_move.y == 0);
                    assert(to_move.x
                        == if delta.x > 0 { -ov.x as int } else { ov.x as int });
                    crate::geom::lemma_wrap_in_range(
                        tsh.top_left.x as int,
                        to_move.x as int,
                        g0.w(),
                    );
                    crate::geom::lemma_wrap_full_period(tsh.top_left.y as int, g0.h());
                    assert(self.entries()[entity as int].position.top_left.x
                        == tsh.top_left.x + to_move.x);
                    assert(self.entries()[entity as int].position.top_left.y
                        == tsh.top_left.y);
                }
                if blocked_setting_y(g0, entity as int, delta) {
                    let p0 = g0.entries()[entity as int].position;
                    assert(delta.y != 0) by {
                        if delta.y == 0 {
                            let i = choose|i: int| #![auto] 0 <= i < idseq.len()
                                && obstructs(g0, entity as int, delta, idseq[i] as int)
                                && ov.y == ov_y(
                                    tsh,
                                    g0.entries()[idseq[i] as int].position,
                                );
                            let obs2 = g0.entries()[idseq[i] as int].position;
                            assert(tsh == shift_rect(p0, 0, 0));
                            assert(crate::geom::boxes_disjoint(p0, obs2));
                            assert(false);
                        }
                    }
                    assert(ecur.position == tsh);
                    assert(to_move.x == 0);
                    assert(to_move.y
                        == if delta.y > 0 { -ov.y as int } else { ov.y as int });
                    crate::geom::lemma_wrap_in_range(
                        tsh.top_left.y as int,
                        to_move.y as int,
                        g0.h(),
                    );
                    crate::geom::lemma_wrap_full_period(tsh.top_left.x as int, g0.w());
                    assert(self.entries()[entity as int].position.top_left.y
                        == tsh.top_left.y + to_move.y);
                    assert(self.entries()[entity as int].position.top_left.x
                        == tsh.top_left.x);
                }
            }
        }
        let applied = delta.minus(ov);
        proof {
            if blocked_setting_x(g0, entity as int, delta) {
                let e = entity as int;
                let p0 = g0.entries()[e].position;
                let fpos = self.entries()[e].position;
                assert(fpos.width == p0.width && fpos.height == p0.height);
                assert(fpos.top_left.y == p0.top_left.y);
                assert(fpos.top_left.x
                    == p0.top_left.x + delta.x
                        - (if delta.x >= 0 { ov.x as int } else { -(ov.x as int) }));
                assert forall|id2: int| g0.live(id2) && id2 != e
                    implies crate::geom::boxes_disjoint(
                        fpos,
                        (#[trigger] g0.entries()[id2]).position,
                    ) by {
                    let obs2 = g0.entries()[id2].position;
                    lemma_block_x_disjoint(
                        p0,
                        obs2,
                        delta.x as int,
                        ov.x as int,
                        fpos.top_left.x as int,
                    );
                }
                if ov.x == 0 {
                    assert(applied == delta);
                    assert(fpos == tsh);
                } else {
                    let i = choose|i: int| #![auto] 0 <= i < idseq.len()
                        && obstructs(g0, entity as int, delta, idseq[i] as int)
                        && ov.x == ov_x(tsh, g0.entries()[idseq[i] as int].position);
                    assert(obstructs(g0, e, delta, idseq[i] as int)
                        && applied.x == delta.x - ov_x(
                            tsh,
                            g0.entries()[idseq[i] as int].position,
                        ));
                    let j = choose|j: int| #![auto] 0 <= j < idseq.len()
                        && obstructs(g0, entity as int, delta, idseq[j] as int)
                        && ov.y == ov_y(tsh, g0.entries()[idseq[j] as int].position);
                    assert(obstructs(g0, e, delta, idseq[j] as int)
                        && applied.y == -ov_y(
                            tsh,
                            g0.entries()[idseq[j] as int].position,
                        ));
                }
                assert(blocked_outcome_x(g0, *self, e, delta, applied));
            }
            if blocked_setting_y(g0, entity as int, delta) {
                let e = entity as int;
                let p0 = g0.entries()[e].position;
                let fpos = self.entries()[e].position;
                assert(fpos.width == p0.width && fpos.height == p0.height);
                assert(fpos.top_left.x == p0.top_left.x);
                assert(fpos.top_left.y
                    == p0.top_left.y + delta.y
                        - (if delta.y >= 0 { ov.y as int } else { -(ov.y as int) }));
                assert forall|id2: int| g0.live(id2) && id2 != e
                    implies crate::geom::boxes_disjoint(
                        fpos,
                        (#[trigger] g0.entries()[id2]).position,
                    ) by {
                    let obs2 = g0.entries()[id2].position;
                    lemma_block_y_disjoint(
                        p0,
                        obs2,
                        delta.y as int,
                        ov.y as int,
                        fpos.top_left.y as int,
                    );
                }
                if ov.y == 0 {
                    assert(applied == delta);
                    assert(fpos == tsh);
                } else {
                    let i = choose|i: int| #![auto] 0 <= i < idseq.len()
                        && obstructs(g0, entity as int, delta, idseq[i] as int)
                        && ov.y == ov_y(tsh, g0.entries()[idseq[i] as int].position);
                    assert(obstructs(g0, e, delta, idseq[i] as int)
                        && applied.y == delta.y - ov_y(
                            tsh,
                            g0.entries()[idseq[i] as int].position,
                        ));
                    let j = choose|j: int| #![auto] 0 <= j < idseq.len()
                        && obstructs(g0, entity as int, delta, idseq[j] as int)
                        && ov.x == ov_x(tsh, g0.entries()[idseq[j] as int].position);
                    assert(obstructs(g0, e, delta, idseq[j] as int)
                        && applied.x == -ov_x(
                            tsh,
                            g0.entries()[idseq[j] as int].position,
                        ));
                }
                assert(blocked_outcome_y(g0, *self, e, delta, applied));
            }
        }
        applied
    }

    /// The outer entry point of a movement action: clears every entity's
    /// per-action marker, establishing a fresh pass boundary, then moves
    /// the entity with push resolution.
    pub fn start_move_entity(&mut self, entity: EntityId, delta: Point) -> (applied: Point)
        requires
            old(self).wf(),
            old(self).live(entity as int),
            -MAX_DELTA <= delta.x <= MAX_DELTA,
            -MAX_DELTA <= delta.y <= MAX_DELTA,
        ensures
            final(self).wf(),
            final(self).entries().dom() == old(self).entries().dom(),
            final(self).vacant() == old(self).vacant(),
            final(self).bottom_right == old(self).bottom_right,
            final(self).square_side_length == old(self).square_side_length,
            forall|id: int| old(self).live(id)
                ==> same_non_positional(#[trigger] old(self).entries()[id], final(self).entries()[id]),
            forall|id: int| old(self).live(id) && id != entity as int
                && !(#[trigger] old(self).entries()[id]).moveable
                ==> final(self).entries()[id].position == old(self).entries()[id].position,
            final(self).entries()[entity as int].moved_this_action,
            forall|id: int| old(self).live(id) && id != entity as int
                && !(#[trigger] final(self).entries()[id]).moved_this_action
                ==> final(self).entries()[id].position == old(self).entries()[id].position,
            forall|id: int| old(self).live(id) && id != entity as int
                && (#[trigger] final(self).entries()[id]).moved_this_action
                ==> old(self).entries()[id].moveable,
            -MAX_DELTA - MAX_DIM <= applied.x <= MAX_DELTA,
            -MAX_DELTA - MAX_DIM <= applied.y <= MAX_DELTA,
            applied.x <= delta.x,
            applied.y <= delta.y,
            no_obstruction_all(*old(self), entity as int, delta) ==> {
                &&& final(self).entries() == after_clear_move(*old(self), entity as int, delta)
                &&& applied == delta
            },
            axis_move_setting_x(*old(self), entity as int, delta)
                ==> blocked_outcome_x(*old(self), *final(self), entity as int, delta, applied),
            axis_move_setting_y(*old(self), entity as int, delta)
                ==> blocked_outcome_y(*old(self), *final(self), entity as int, delta, applied),
    {
        let ghost g0 = *self;
        let ids = self.live_ids();
        let ghost idseq = ids@;
        let mut k: usize = 0;
        #[verifier::loop_isolation(false)]
        while k < ids.len()
            invariant
                self.wf(),
                self.entries().dom() == g0.entries().dom(),
                self.vacant() == g0.vacant(),
                self.bottom_right == g0.bottom_right,
                self.square_side_length == g0.square_side_length,
                ids@ == idseq,
                k <= idseq.len(),
                forall|id: int| g0.live(id) ==> #[trigger] self.entries()[id]
                    == g0.entries()[id]
                    || self.entries()[id]
                    == (Entity { moved_this_action: false, ..g0.entries()[id] }),
                forall|i: int| 0 <= i < k
                    ==> !(#[trigger] self.entries()[idseq[i] as int]).moved_this_action,
                forall|i: int, j: int| 0 <= i < j < idseq.len()
                    ==> #[trigger] idseq[i] < #[trigger] idseq[j],
            decreases idseq.len() - k,
        {
            let id = ids[k];
            let e = *self.entity(id);
            crate::slab_store::slab_set(
                &mut self.entities,
                id,
                Entity { moved_this_action: false, ..e },
            );
            proof {
                assert(self.entries().dom() =~= g0.entries().dom());
                assert forall|i: int| 0 <= i < k + 1 implies !(#[trigger] self.entries()[
                    idseq[i] as int
                ]).moved_this_action by {}
            }
            k = k + 1;
        }
        let ghost mid = *self;
        proof {
            // every live entity's marker is cleared now
            assert forall|id: int| g0.live(id) implies !(#[trigger] mid.entries()[
                id
            ]).moved_this_action by {
                let i = choose|i: int| 0 <= i < idseq.len() && idseq[i] as int == id;
                assert(!mid.entries()[idseq[i] as int].moved_this_action);
            }
        }
        let applied = self.move_entity(entity, delta);
        proof {
            assert forall|id: int| g0.live(id) implies same_non_positional(
                #[trigger] g0.entries()[id],
                self.entries()[id],
            ) by {
                assert(mid.live(id));
                assert(same_non_positional(g0.entries()[id], mid.entries()[id]));
                assert(same_non_positional(mid.entries()[id], self.entries()[id]));
            }
            assert forall|id: int| g0.live(id) && id != entity as int
                && !(#[trigger] g0.entries()[id]).moveable
                implies self.entries()[id].position == g0.entries()[id].position by {
                assert(mid.live(id));
                assert(mid.entries()[id].position == g0.entries()[id].position);
                assert(!mid.entries()[id].moveable);
                assert(self.entries()[id].position == mid.entries()[id].position);
            }
            assert forall|id: int| g0.live(id) && id != entity as int
                && (#[trigger] self.entries()[id]).moved_this_action
                implies g0.entries()[id].moveable by {
                assert(mid.live(id));
                assert(!mid.entries()[id].moved_this_action);
                assert(mid.entries()[id].moveable == g0.entries()[id].moveable);
            }
            if no_obstruction_all(g0, entity as int, delta) {
                assert(tent_rect(mid, entity as int, delta)
                    == tent_rect(g0, entity as int, delta));
                assert forall|id: int| mid.live(id) && id != entity as int
                    && !mid.entries()[id].moved_this_action implies {
                    ||| multi_ov_x(
                        tent_rect(mid, entity as int, delta).spec_segments(mid.w(), mid.h()),
                        #[trigger] segs_of(mid, id),
                    ) == 0
                    ||| multi_ov_y(
                        tent_rect(mid, entity as int, delta).spec_segments(mid.w(), mid.h()),
                        segs_of(mid, id),
                    ) == 0
                } by {
                    assert(segs_of(mid, id) == segs_of(g0, id));
                }
                assert(no_obstruction(mid, entity as int, delta));
                assert(self.entries() =~= after_clear_move(g0, entity as int, delta));
            }
            if axis_move_setting_x(g0, entity as int, delta) {
                assert(blocked_setting_x(mid, entity as int, delta)) by {
                    assert(mid.entries()[entity as int].position
                        == g0.entries()[entity as int].position);
                    assert forall|id: int| mid.live(id) && id != entity as int implies {
                        &&& !(#[trigger] mid.entries()[id]).moved_this_action
                        &&& !mid.entries()[id].moveable
                        &&& mid.entries()[id].position.interior_of(mid.w(), mid.h())
                        &&& crate::geom::boxes_disjoint(
                            mid.entries()[entity as int].position,
                            mid.entries()[id].position,
                        )
                        &&& abs1(delta.x as int) <= mid.entries()[id].position.width
                    } by {
                        assert(g0.live(id));
                        assert(mid.entries()[id].position == g0.entries()[id].position);
                        assert(mid.entries()[id].moveable == g0.entries()[id].moveable);
                    }
                }
                lemma_blocked_outcome_transfer_x(g0, mid, *self, entity as int, delta, applied);
            }
            if axis_move_setting_y(g0, entity as int, delta) {
                assert(blocked_setting_y(mid, entity as int, delta)) by {
                    assert(mid.entries()[entity as int].position
                        == g0.entries()[entity as int].position);
                    assert forall|id: int| mid.live(id) && id != entity as int implies {
                        &&& !(#[trigger] mid.entries()[id]).moved_this_action
                        &&& !mid.entries()[id].moveable
                        &&& mid.entries()[id].position.interior_of(mid.w(), mid.h())
                        &&& crate::geom::boxes_disjoint(
                            mid.entries()[entity as int].position,
                            mid.entries()[id].position,
                        )
                        &&& abs1(delta.y as int) <= mid.entries()[id].position.height
                    } by {
                        assert(g0.live(id));
                        assert(mid.entries()[id].position == g0.entries()[id].position);
                        assert(mid.entries()[id].moveable == g0.entries()[id].moveable);
                    }
                }
                lemma_blocked_outcome_transfer_y(g0, mid, *self, entity as int, delta, applied);
            }
        }
        applied
    }

    /// One integration step over elapsed time `dt`: every entity with a
    /// nonzero velocity is moved first along the pure-y component of its
    /// velocity, then along the pure-x component, each through a fresh
    /// movement action; an entity with a pendulum animation accumulates the
    /// actually applied displacement into its tracked anchor distance
    /// (saturating at the representable range). Recomputing an animated
    /// entity's restoring velocity — a floating-point oscillation — is the
    /// caller's concern, written back through `Game::set_velocity`.
    #[verifier::rlimit(100)]
    #[verifier::spinoff_prover]
    pub fn tick(&mut self, dt: GameInt)
        requires
            old(self).wf(),
            0 <= dt <= MAX_DT,
        ensures
            final(self).wf(),
            final(self).entries().dom() == old(self).entries().dom(),
            final(self).vacant() == old(self).vacant(),
            final(self).bottom_right == old(self).bottom_right,
            final(self).square_side_length == old(self).square_side_length,
            forall|id: int| old(self).live(id)
                ==> same_persistent(#[trigger] old(self).entries()[id], final(self).entries()[id]),
            (forall|id: int| #[trigger] old(self).live(id)
                ==> old(self).entries()[id].velocity == Point::spec_origin())
                ==> final(self).entries() == old(self).entries(),
            forall|e: int| #[trigger] sole_entity(*old(self), e)
                && old(self).entries()[e].velocity != Point::spec_origin()
                ==> final(self).entries() == sole_tick_result(*old(self), e, dt as int),
            forall|m: int| #[trigger] lone_mover_setting(*old(self), m, dt as int) ==> {
                &&& forall|id: int| old(self).live(id) && id != m
                    ==> (#[trigger] final(self).entries()[id]).position
                        == old(self).entries()[id].position
                &&& forall|id: int| old(self).live(id) && id != m
                    ==> crate::geom::boxes_disjoint(
                        final(self).entries()[m].position,
                        (#[trigger] old(self).entries()[id]).position,
                    )
                &&& forall|i: int, j: int| old(self).live(i) && old(self).live(j) && i != j
                    && crate::geom::boxes_disjoint(
                        (#[trigger] old(self).entries()[i]).position,
                        (#[trigger] old(self).entries()[j]).position,
                    )
                    ==> crate::geom::boxes_disjoint(
                        final(self).entries()[i].position,
                        final(self).entries()[j].position,
                    )
            },
    {
        let ghost g0 = *self;
        let ids = self.live_ids();
        let ghost idseq = ids@;
        let mut k: usize = 0;
        #[verifier::loop_isolation(false)]
        while k < ids.len()
            invariant
                self.wf(),
                self.entries().dom() == g0.entries().dom(),
                self.vacant() == g0.vacant(),
                self.bottom_right == g0.bottom_right,
                self.square_side_length == g0.square_side_length,
                ids@ == idseq,
                k <= idseq.len(),
                forall|id: int| g0.live(id) ==> same_persistent(
                    #[trigger] g0.entries()[id],
                    self.entries()[id],
                ),
                forall|i: int| 0 <= i < idseq.len() ==> g0.live(#[trigger] idseq[i] as int),
                forall|id2: int| #[trigger] g0.live(id2)
                    ==> exists|i: int| 0 <= i < idseq.len() && idseq[i] as int == id2,
                forall|i: int, j: int| 0 <= i < j < idseq.len()
                    ==> #[trigger] idseq[i] < #[trigger] idseq[j],
                (forall|id2: int| #[trigger] g0.live(id2)
                    ==> g0.entries()[id2].velocity == Point::spec_origin())
                    ==> self.entries() == g0.entries(),
                forall|e2: int| #[trigger] sole_entity(g0, e2)
                    && g0.entries()[e2].velocity != Point::spec_origin() ==> {
                    &&& (k == 0 ==> self.entries() == g0.entries())
                    &&& (k >= 1 ==> self.entries() == sole_tick_result(g0, e2, dt as int))
                },
                forall|m2: int| #[trigger] lone_mover_setting(g0, m2, dt as int) ==> {
                    &&& (!(exists|i: int| #![auto] 0 <= i < k && idseq[i] as int == m2)
                        ==> self.entries() == g0.entries())
                    &&& ((exists|i: int| #![auto] 0 <= i < k && idseq[i] as int == m2) ==> {
                        &&& forall|id2: int| g0.live(id2) && id2 != m2
                            ==> (#[trigger] self.entries()[id2]).position
                                == g0.entries()[id2].position
                        &&& forall|id2: int| g0.live(id2) && id2 != m2
                            ==> crate::geom::boxes_disjoint(
                                self.entries()[m2].position,
                                (#[trigger] g0.entries()[id2]).position,
                            )
                    })
                },
            decreases idseq.len() - k,
        {
            let ghost iter0 = *self;
            let id = ids[k];
            let e = *self.entity(id);
            let mut applied = Point { x: 0, y: 0 };
            if !(e.velocity.x == 0 && e.velocity.y == 0) {
                proof {
                    assert(-MAX_DELTA <= e.velocity.y * dt <= MAX_DELTA) by (nonlinear_arith)
                        requires
                            -MAX_SPEED <= e.velocity.y <= MAX_SPEED,
                            0 <= dt <= MAX_DT,
                    {}
                    assert(-MAX_DELTA <= e.velocity.x * dt <= MAX_DELTA) by (nonlinear_arith)
                        requires
                            -MAX_SPEED <= e.velocity.x <= MAX_SPEED,
                            0 <= dt <= MAX_DT,
                    {}
                }
                let dy = Point { x: 0, y: e.velocity.y * dt };
                let dx = Point { x: e.velocity.x * dt, y: 0 };
                let ghost pre = *self;
                let a1 = self.start_move_entity(id, dy);
                let ghost s1 = *self;
                let a2 = self.start_move_entity(id, dx);
                applied = a1.plus(a2);
                proof {
                    if sole_entity(g0, id as int)
                        && g0.entries()[id as int].velocity != Point::spec_origin() {
                        // the id list holds exactly this one entity, so this
                        // is the first and only iteration
                        assert(idseq.len() == 1) by {
                            assert(g0.live(id as int));
                            if idseq.len() >= 2 {
                                assert(g0.live(idseq[0] as int));
                                assert(g0.live(idseq[1] as int));
                                assert(idseq[0] as int == id as int);
                                assert(idseq[1] as int == id as int);
                                assert(idseq[0] < idseq[1]);
                                assert(false);
                            }
                        }
                        assert(k == 0);
                        assert(pre.entries() == g0.entries());
                        assert forall|id2: int| #[trigger] pre.live(id2)
                            implies id2 == id as int by {
                            assert(g0.live(id2));
                        }
                        lemma_sole_entity_unobstructed(pre, id as int, dy);
                        assert(s1.entries() == after_clear_move(pre, id as int, dy));
                        assert(a1 == dy);
                        assert forall|id2: int| #[trigger] s1.live(id2)
                            implies id2 == id as int by {
                            assert(g0.live(id2));
                        }
                        lemma_sole_entity_unobstructed(s1, id as int, dx);
                        assert(self.entries() == after_clear_move(s1, id as int, dx));
                        assert(a2 == dx);
                        assert(s1.entries()[id as int] == marked_moved(pre, id as int, dy));
                        assert(self.entries()[id as int] == marked_moved(s1, id as int, dx));
                        assert(self.entries()[id as int]
                            == sole_tick_moved(g0, id as int, dt as int));
                        assert(self.entries() =~= g0.entries().insert(
                            id as int,
                            sole_tick_moved(g0, id as int, dt as int),
                        ));
                        assert(applied.x == g0.entries()[id as int].velocity.x * dt);
                        assert(applied.y == g0.entries()[id as int].velocity.y * dt);
                    }
                    if lone_mover_setting(g0, id as int, dt as int) {
                        let m = id as int;
                        let p0 = g0.entries()[m].position;
                        // the mover was not processed before its own turn
                        assert(!(exists|i: int| #![auto] 0 <= i < k
                            && idseq[i] as int == m)) by {
                            if exists|i: int| #![auto] 0 <= i < k && idseq[i] as int == m {
                                let i = choose|i: int| #![auto] 0 <= i < k
                                    && idseq[i] as int == m;
                                assert(idseq[i] < idseq[k as int]);
                            }
                        }
                        assert(pre.entries() == g0.entries());
                        // the first, pure-y movement action
                        assert(axis_move_setting_y(pre, m, dy)) by {
                            assert forall|id2: int| pre.live(id2) && id2 != m implies {
                                &&& !(#[trigger] pre.entries()[id2]).moveable
                                &&& pre.entries()[id2].position.interior_of(pre.w(), pre.h())
                                &&& crate::geom::boxes_disjoint(
                                    pre.entries()[m].position,
                                    pre.entries()[id2].position,
                                )
                                &&& abs1(dy.y as int) <= pre.entries()[id2].position.height
                            } by {
                                assert(g0.live(id2));
                            }
                        }
                        assert(blocked_outcome_y(pre, s1, m, dy, a1));
                        let p1 = s1.entries()[m].position;
                        lemma_tent_plain(pre, m, dy);
                        // the mover's new y-coordinate stays inside the world
                        assert(0 <= p1.top_left.y && p1.top_left.y + p1.height
                            <= g0.h()) by {
                            if exists|w: int| #[trigger] obstructs(pre, m, dy, w) {
                                let w = choose|w: int| #[trigger] obstructs(pre, m, dy, w)
                                    && a1.y == dy.y - ov_y(
                                        tent_rect(pre, m, dy),
                                        pre.entries()[w].position,
                                    );
                                let obs = pre.entries()[w].position;
                                assert(g0.live(w));
                                assert(ov_y(tent_rect(pre, m, dy), obs)
                                    <= abs1(dy.y as int)) by {
                                    assert(crate::geom::boxes_disjoint(p0, obs));
                                    assert(ov_x(tent_rect(pre, m, dy), obs) > 0);
                                    if p0.top_left.y + p0.height <= obs.top_left.y {
                                    } else {
                                        assert(obs.top_left.y + obs.height
                                            <= p0.top_left.y);
                                    }
                                }
                                if dy.y == 0 {
                                    assert(tent_rect(pre, m, dy) == p0);
                                    assert(false);
                                }
                            } else {
                                assert(s1.entries()[m].position == tent_rect(pre, m, dy));
                            }
                        }
                        // the second, pure-x movement action
                        assert(axis_move_setting_x(s1, m, dx)) by {
                            assert(p1.top_left.x == p0.top_left.x);
                            assert(p1.width == p0.width && p1.height == p0.height);
                            assert forall|id2: int| s1.live(id2) && id2 != m implies {
                                &&& !(#[trigger] s1.entries()[id2]).moveable
                                &&& s1.entries()[id2].position.interior_of(s1.w(), s1.h())
                                &&& crate::geom::boxes_disjoint(
                                    s1.entries()[m].position,
                                    s1.entries()[id2].position,
                                )
                                &&& abs1(dx.x as int) <= s1.entries()[id2].position.width
                            } by {
                                assert(g0.live(id2));
                                assert(same_non_positional(
                                    pre.entries()[id2],
                                    s1.entries()[id2],
                                ));
                                assert(s1.entries()[id2].position
                                    == pre.entries()[id2].position);
                                assert(crate::geom::boxes_disjoint(
                                    p1,
                                    g0.entries()[id2].position,
                                ));
                            }
                        }
                        assert(blocked_outcome_x(s1, *self, m, dx, a2));
                        // what the two settled actions leave behind
                        assert forall|id2: int| g0.live(id2) && id2 != m
                            implies (#[trigger] self.entries()[id2]).position
                                == g0.entries()[id2].position by {
                            assert(s1.live(id2));
                            assert(same_non_positional(
                                s1.entries()[id2],
                                self.entries()[id2],
                            ));
                            assert(!s1.entries()[id2].moveable);
                            assert(self.entries()[id2].position
                                == s1.entries()[id2].position);
                            assert(s1.entries()[id2].position
                                == pre.entries()[id2].position) by {
                                assert(!pre.entries()[id2].moveable);
                            }
                        }
                        assert forall|id2: int| g0.live(id2) && id2 != m
                            implies crate::geom::boxes_disjoint(
                                self.entries()[m].position,
                                (#[trigger] g0.entries()[id2]).position,
                            ) by {
                            assert(s1.live(id2));
                            assert(crate::geom::boxes_disjoint(
                                self.entries()[m].position,
                                s1.entries()[id2].position,
                            ));
                            assert(s1.entries()[id2].position
                                == pre.entries()[id2].position) by {
                                assert(!pre.entries()[id2].moveable);
                            }
                        }
                    }
                    assert forall|id2: int| g0.live(id2) implies same_persistent(
                        #[trigger] g0.entries()[id2],
                        self.entries()[id2],
                    ) by {
                        assert(same_persistent(g0.entries()[id2], pre.entries()[id2]));
                        assert(same_non_positional(
                            pre.entries()[id2],
                            self.entries()[id2],
                        )) by {
                            assert(pre.live(id2));
                        }
                    }
                }
            }
            let e2 = *self.entity(id);
            match e2.animation {
                Some(Animation::Pendulum { distance, max_distance }) => {
                    let ghost before = *self;
                    let nd = Point {
                        x: sat_add(distance.x, applied.x),
                        y: sat_add(distance.y, applied.y),
                    };
                    crate::slab_store::slab_set(&mut self.entities, id, Entity {
                        animation: Some(Animation::Pendulum { distance: nd, max_distance }),
                        ..e2
                    });
                    proof {
                        assert(self.entries().dom() =~= before.entries().dom());
                        assert(self.wf());
                        assert forall|id2: int| g0.live(id2) implies same_persistent(
                            #[trigger] g0.entries()[id2],
                            self.entries()[id2],
                        ) by {
                            assert(same_persistent(g0.entries()[id2], before.entries()[id2]));
                        }
                        if applied == (Point { x: 0, y: 0 }) {
                            // a zero accumulated displacement stores an
                            // equal record back
                            assert(nd == distance);
                            assert(self.entries() =~= before.entries());
                            assert(self.entries() == before.entries());
                        }
                        if sole_entity(g0, id as int)
                            && g0.entries()[id as int].velocity != Point::spec_origin() {
                            assert(self.entries() =~= sole_tick_result(
                                g0,
                                id as int,
                                dt as int,
                            ));
                        }
                    }
                },
                None => {},
            }
            proof {
                if sole_entity(g0, id as int)
                    && g0.entries()[id as int].velocity != Point::spec_origin()
                    && self.entries()[id as int].animation is None {
                    assert(self.entries() =~= sole_tick_result(g0, id as int, dt as int));
                }
                assert forall|e2: int| #[trigger] sole_entity(g0, e2)
                    && g0.entries()[e2].velocity != Point::spec_origin()
                    implies self.entries() == sole_tick_result(g0, e2, dt as int) by {
                    assert(g0.live(id as int));
                    assert(id as int == e2);
                }
                if e.velocity == (Point { x: 0, y: 0 }) {
                    // an at-rest entity's turn changes nothing
                    assert(self.entries() == iter0.entries());
                }
                assert forall|m2: int| #[trigger] lone_mover_setting(g0, m2, dt as int)
                    implies {
                    &&& (!(exists|i: int| #![auto] 0 <= i < k + 1 && idseq[i] as int == m2)
                        ==> self.entries() == g0.entries())
                    &&& ((exists|i: int| #![auto] 0 <= i < k + 1 && idseq[i] as int == m2)
                        ==> {
                        &&& forall|id2: int| g0.live(id2) && id2 != m2
                            ==> (#[trigger] self.entries()[id2]).position
                                == g0.entries()[id2].position
                        &&& forall|id2: int| g0.live(id2) && id2 != m2
                            ==> crate::geom::boxes_disjoint(
                                self.entries()[m2].position,
                                (#[trigger] g0.entries()[id2]).position,
                            )
                    })
                } by {
                    assert(g0.live(id as int));
                    if id as int == m2 {
                        if e.velocity == (Point { x: 0, y: 0 }) {
                            assert(iter0.entries() == g0.entries());
                            assert(self.entries() == g0.entries());
                        }
                        assert(0 <= k < k + 1 && idseq[k as int] as int == m2);
                    } else {
                        // under this hypothesis every other entity rests,
                        // so this turn changed nothing
                        assert(g0.entries()[id as int].velocity == Point::spec_origin());
                        assert(e.velocity == (Point { x: 0, y: 0 })) by {
                            assert(same_persistent(
                                g0.entries()[id as int],
                                iter0.entries()[id as int],
                            ));
                        }
                        assert(self.entries() == iter0.entries());
                    }
                }
            }
            k = k + 1;
        }
    }
}

} // verus!
